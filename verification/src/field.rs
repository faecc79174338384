//! Elements of the BLS12-381 scalar field, held as canonical little-endian bytes.
//!
//! The arithmetic itself is done by `dusk_bls12_381`; this module states what
//! each operation returns as a natural number below the field's order.

use dusk_bls12_381::BlsScalar;
use dusk_bytes::Serializable;
use vstd::prelude::*;
use vstd::std_specs::cmp::PartialEqSpecImpl;

verus! {

/// The value of a little-endian byte string as a natural number.
pub open spec fn le_value(bytes: Seq<u8>) -> nat
    decreases bytes.len(),
{
    if bytes.len() == 0 {
        0
    } else {
        bytes[0] as nat + 256 * le_value(bytes.skip(1))
    }
}

/// The `n` low-order base-256 digits of `v`, least significant first.
pub open spec fn le_encode(v: nat, n: nat) -> Seq<u8>
    decreases n,
{
    if n == 0 {
        Seq::empty()
    } else {
        seq![(v % 256) as u8].add(le_encode(v / 256, (n - 1) as nat))
    }
}

/// 256 to the power `n`: the number of byte strings of length `n`.
pub open spec fn radix_pow(n: nat) -> nat
    decreases n,
{
    if n == 0 {
        1
    } else {
        256 * radix_pow((n - 1) as nat)
    }
}

/// Two to the power 64, the base in which the field's order is written below.
pub open spec fn limb_base() -> nat {
    0x1_0000_0000_0000_0000
}

/// The order of the scalar field,
/// `0x73eda753299d7d483339d80809a1d80553bda402fffe5bfeffffffff00000001`.
pub open spec fn modulus() -> nat {
    0xffff_ffff_0000_0001nat + limb_base() * (0x53bd_a402_fffe_5bfenat + limb_base() * (
    0x3339_d808_09a1_d805nat + limb_base() * 0x73ed_a753_299d_7d48nat))
}

/// The sum of two field values.
pub open spec fn field_add(x: nat, y: nat) -> nat {
    (x + y) % modulus()
}

/// The product of two field values.
pub open spec fn field_mul(x: nat, y: nat) -> nat {
    (x * y) % modulus()
}

/// The additive inverse of a field value.
pub open spec fn field_neg(x: nat) -> nat {
    ((modulus() - x) % (modulus() as int)) as nat
}

/// Encoding the value of a byte string at the string's length gives the string back.
pub proof fn lemma_encode_of_value(bytes: Seq<u8>)
    ensures
        le_encode(le_value(bytes), bytes.len()) == bytes,
    decreases bytes.len(),
{
    if bytes.len() == 0 {
        assert(le_encode(0, 0) =~= bytes);
    } else {
        let rest = bytes.skip(1);
        lemma_encode_of_value(rest);
        let v = le_value(bytes);
        assert(v % 256 == bytes[0] as nat);
        assert(v / 256 == le_value(rest));
        assert(le_encode(v, bytes.len()) =~= bytes);
    }
}

/// A value that fits in `n` bytes is the value of its `n`-byte encoding.
pub proof fn lemma_value_of_encode(v: nat, n: nat)
    requires
        v < radix_pow(n),
    ensures
        le_encode(v, n).len() == n,
        le_value(le_encode(v, n)) == v,
    decreases n,
{
    if n > 0 {
        let rest = le_encode(v / 256, (n - 1) as nat);
        lemma_value_of_encode(v / 256, (n - 1) as nat);
        assert(le_encode(v, n).skip(1) =~= rest);
    }
}

/// The length of an encoding is the length asked for.
pub proof fn lemma_encode_len(v: nat, n: nat)
    ensures
        le_encode(v, n).len() == n,
    decreases n,
{
    if n > 0 {
        lemma_encode_len(v / 256, (n - 1) as nat);
    }
}

/// Byte strings of one length with one value are the same string.
pub proof fn lemma_le_value_injective(a: Seq<u8>, b: Seq<u8>)
    requires
        a.len() == b.len(),
        le_value(a) == le_value(b),
    ensures
        a == b,
{
    lemma_encode_of_value(a);
    lemma_encode_of_value(b);
}

/// Every 64-bit value fits in eight bytes, and the field's order in 32.
pub proof fn lemma_radix_bounds()
    ensures
        radix_pow(8) == limb_base(),
        modulus() < radix_pow(32),
        limb_base() < modulus(),
{
    reveal_with_fuel(radix_pow, 9);
    assert(radix_pow(8) == limb_base());
    assert(radix_pow(16) == limb_base() * limb_base()) by {
        lemma_radix_pow_adds(8, 8);
    }
    assert(radix_pow(32) == radix_pow(16) * radix_pow(16)) by {
        lemma_radix_pow_adds(16, 16);
    }
    let b = limb_base();
    assert(radix_pow(32) == b * (b * (b * b))) by (nonlinear_arith)
        requires
            radix_pow(32) == radix_pow(16) * radix_pow(16),
            radix_pow(16) == b * b,
    ;
    assert(modulus() < b * (b * (b * b))) by (nonlinear_arith)
        requires
            b == 0x1_0000_0000_0000_0000,
            modulus() == 0xffff_ffff_0000_0001nat + b * (0x53bd_a402_fffe_5bfenat + b * (
            0x3339_d808_09a1_d805nat + b * 0x73ed_a753_299d_7d48nat)),
    ;
    assert(b < modulus()) by (nonlinear_arith)
        requires
            b == 0x1_0000_0000_0000_0000,
            modulus() == 0xffff_ffff_0000_0001nat + b * (0x53bd_a402_fffe_5bfenat + b * (
            0x3339_d808_09a1_d805nat + b * 0x73ed_a753_299d_7d48nat)),
    ;
}

/// Powers of the radix multiply as their exponents add.
pub proof fn lemma_radix_pow_adds(m: nat, n: nat)
    ensures
        radix_pow(m + n) == radix_pow(m) * radix_pow(n),
    decreases m,
{
    if m > 0 {
        lemma_radix_pow_adds((m - 1) as nat, n);
        assert(radix_pow(m + n) == 256 * radix_pow((m - 1) as nat + n));
        assert(256 * (radix_pow((m - 1) as nat) * radix_pow(n)) == (256 * radix_pow(
            (m - 1) as nat,
        )) * radix_pow(n)) by (nonlinear_arith);
    } else {
        assert(radix_pow(0) * radix_pow(n) == radix_pow(n)) by (nonlinear_arith)
            requires
                radix_pow(0) == 1,
        ;
    }
}

/// An element of the scalar field. Its bytes are the little-endian digits of a
/// value below the field's order, so equal values have equal bytes.
#[derive(Clone, Copy, Debug)]
pub struct FieldElement {
    bytes: [u8; 32],
}

impl View for FieldElement {
    type V = nat;

    /// The element's value.
    closed spec fn view(&self) -> nat {
        le_value(self.bytes@)
    }
}

impl PartialEq for FieldElement {
    fn eq(&self, other: &FieldElement) -> (r: bool) {
        let mut i: usize = 0;
        while i < 32
            invariant
                i <= 32,
                forall|j: int| 0 <= j < i ==> self.bytes@[j] == other.bytes@[j],
            decreases 32 - i,
        {
            if self.bytes[i] != other.bytes[i] {
                proof {
                    if self@ == other@ {
                        lemma_le_value_injective(self.bytes@, other.bytes@);
                    }
                }
                return false;
            }
            i += 1;
        }
        assert(self.bytes@ =~= other.bytes@);
        true
    }
}

impl Eq for FieldElement {

}

impl PartialEqSpecImpl for FieldElement {
    open spec fn obeys_eq_spec() -> bool {
        true
    }

    open spec fn eq_spec(&self, other: &FieldElement) -> bool {
        self@ == other@
    }
}

impl Default for FieldElement {
    /// The zero of the field.
    fn default() -> (r: FieldElement)
        ensures
            r.wf(),
            r@ == 0,
    {
        FieldElement::from_u64(0)
    }
}

impl FieldElement {
    /// The value lies below the field's order.
    pub closed spec fn wf(&self) -> bool {
        le_value(self.bytes@) < modulus()
    }

    /// Well-formedness says that the value is a field value.
    pub proof fn lemma_wf(&self)
        ensures
            self.wf() <==> self@ < modulus(),
    {
    }

    /// Elements with one value are one element.
    pub proof fn lemma_view_injective(&self, other: &FieldElement)
        requires
            self@ == other@,
        ensures
            *self == *other,
    {
        lemma_le_value_injective(self.bytes@, other.bytes@);
        assert(self.bytes@ =~= other.bytes@);
        assert(self.bytes == other.bytes);
    }

    /// The field element that stands for `v`.
    pub fn from_u64(v: u64) -> (r: FieldElement)
        ensures
            r.wf(),
            r@ == v,
    {
        proof {
            lemma_radix_bounds();
        }
        FieldElement { bytes: scalar_from_u64(v) }
    }

    /// The element whose canonical little-endian encoding is `bytes`, if there
    /// is one: the bytes must encode a value below the field's order.
    pub fn from_bytes(bytes: &[u8; 32]) -> (r: Option<FieldElement>)
        ensures
            r.is_some() <==> le_value(bytes@) < modulus(),
            r matches Some(e) ==> e.wf() && e@ == le_value(bytes@),
    {
        if scalar_is_canonical(bytes) {
            Some(FieldElement { bytes: *bytes })
        } else {
            None
        }
    }

    /// The canonical little-endian encoding of the element.
    pub fn to_bytes(&self) -> (r: [u8; 32])
        ensures
            r@ == le_encode(self@, 32),
    {
        proof {
            lemma_encode_of_value(self.bytes@);
        }
        self.bytes
    }

    /// The sum of two elements.
    pub fn add(&self, other: &FieldElement) -> (r: FieldElement)
        requires
            self.wf(),
            other.wf(),
        ensures
            r.wf(),
            r@ == field_add(self@, other@),
    {
        proof {
            lemma_field_value_bounds(self@ + other@);
        }
        FieldElement { bytes: scalar_add(&self.bytes, &other.bytes) }
    }

    /// The product of two elements.
    pub fn mul(&self, other: &FieldElement) -> (r: FieldElement)
        requires
            self.wf(),
            other.wf(),
        ensures
            r.wf(),
            r@ == field_mul(self@, other@),
    {
        proof {
            lemma_field_value_bounds(self@ * other@);
        }
        FieldElement { bytes: scalar_mul(&self.bytes, &other.bytes) }
    }

    /// The additive inverse of the element.
    pub fn neg(&self) -> (r: FieldElement)
        requires
            self.wf(),
        ensures
            r.wf(),
            r@ == field_neg(self@),
    {
        proof {
            lemma_field_value_bounds((modulus() - self@) as nat);
        }
        FieldElement { bytes: scalar_neg(&self.bytes) }
    }
}

/// A remainder by the field's order is a field value.
pub proof fn lemma_field_value_bounds(x: nat)
    ensures
        x % modulus() < modulus(),
{
    lemma_radix_bounds();
    assert(x % modulus() < modulus()) by (nonlinear_arith)
        requires
            modulus() > 0,
    ;
}

/// Negating a field value twice gives the value back.
pub proof fn lemma_field_neg_involution(x: nat)
    requires
        x < modulus(),
    ensures
        field_neg(x) < modulus(),
        field_neg(field_neg(x)) == x,
{
    lemma_field_value_bounds(0);
    let p = modulus();
    if x == 0 {
        vstd::arithmetic::div_mod::lemma_mod_self_0(p as int);
        vstd::arithmetic::div_mod::lemma_small_mod(0, p);
    } else {
        vstd::arithmetic::div_mod::lemma_small_mod((p - x) as nat, p);
        vstd::arithmetic::div_mod::lemma_small_mod(x, p);
    }
}

/// `BlsScalar::from(u64)`, then `to_bytes`: the scalar that stands for `v`,
/// in its canonical little-endian encoding, whose value is `v` itself.
#[verifier::external_body]
fn scalar_from_u64(v: u64) -> (r: [u8; 32])
    ensures
        le_value(r@) == v,
{
    BlsScalar::from(v).to_bytes()
}

/// `BlsScalar::from_bytes`: it accepts exactly the encodings of values below
/// the field's order.
#[verifier::external_body]
fn scalar_is_canonical(bytes: &[u8; 32]) -> (r: bool)
    ensures
        r == (le_value(bytes@) < modulus()),
{
    BlsScalar::from_bytes(bytes).is_ok()
}

/// `BlsScalar`'s `+` on two canonical encodings: the encoding of the sum
/// reduced by the field's order.
#[verifier::external_body]
fn scalar_add(x: &[u8; 32], y: &[u8; 32]) -> (r: [u8; 32])
    requires
        le_value(x@) < modulus(),
        le_value(y@) < modulus(),
    ensures
        le_value(r@) == field_add(le_value(x@), le_value(y@)),
{
    (BlsScalar::from_bytes(x).unwrap() + BlsScalar::from_bytes(y).unwrap()).to_bytes()
}

/// `BlsScalar`'s `*` on two canonical encodings: the encoding of the product
/// reduced by the field's order.
#[verifier::external_body]
fn scalar_mul(x: &[u8; 32], y: &[u8; 32]) -> (r: [u8; 32])
    requires
        le_value(x@) < modulus(),
        le_value(y@) < modulus(),
    ensures
        le_value(r@) == field_mul(le_value(x@), le_value(y@)),
{
    (BlsScalar::from_bytes(x).unwrap() * BlsScalar::from_bytes(y).unwrap()).to_bytes()
}

/// `BlsScalar`'s unary `-` on a canonical encoding: the encoding of the
/// additive inverse, which is zero for zero and the order less the value
/// otherwise.
#[verifier::external_body]
fn scalar_neg(x: &[u8; 32]) -> (r: [u8; 32])
    requires
        le_value(x@) < modulus(),
    ensures
        le_value(r@) == field_neg(le_value(x@)),
{
    (-BlsScalar::from_bytes(x).unwrap()).to_bytes()
}

} // verus!
