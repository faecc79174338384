//! The byte form of a gate list, and its inverse.
//!
//! A list is written as its length in eight bytes, then one record of 161
//! bytes for each gate, in order. A record holds the three coefficients in 32
//! bytes each, one byte that says whether a public offset is declared, the
//! offset in 32 bytes (zero where none is declared), and the two witnesses as
//! owner and place, eight bytes each. Every number is little-endian.

use crate::builder::gates_of;
use crate::constraint::{Constraint, GateModel, Witness, WitnessModel};
use crate::field::{
    le_encode, le_value, lemma_encode_len, lemma_encode_of_value, lemma_radix_bounds,
    lemma_value_of_encode, modulus, FieldElement,
};
use vstd::prelude::*;

verus! {

/// The length of the record of one gate.
pub const GATE_BYTES: usize = 161;

/// The length of the count of gates that a list starts with.
pub const COUNT_BYTES: usize = 8;

/// Why a byte string is not the byte form of a gate list.
#[derive(Clone, Copy, Debug, PartialEq, Eq, Structural)]
pub enum ParseError {
    /// The bytes end before the count or before the last record does.
    Truncated,
    /// Bytes follow the last record.
    TrailingBytes,
    /// A record holds a number that is no field value, a flag other than zero
    /// or one, an offset where none is declared, or a place that does not fit
    /// this machine.
    InvalidGate,
}

/// The byte form of a witness: owner, then place.
pub open spec fn encode_witness(w: WitnessModel) -> Seq<u8> {
    le_encode(w.owner as nat, 8) + le_encode(w.index, 8)
}

/// The byte form of a public offset: the flag, then the offset or zero.
pub open spec fn encode_public(public: Option<nat>) -> Seq<u8> {
    match public {
        Some(p) => seq![1u8] + le_encode(p, 32),
        None => seq![0u8] + le_encode(0, 32),
    }
}

/// The record of one gate.
pub open spec fn encode_gate(g: GateModel) -> Seq<u8> {
    le_encode(g.left, 32) + le_encode(g.right, 32) + le_encode(g.mult, 32) + encode_public(g.public)
        + encode_witness(g.a) + encode_witness(g.b)
}

/// The records of a gate list, one behind the other.
pub open spec fn encode_body(gates: Seq<GateModel>) -> Seq<u8>
    decreases gates.len(),
{
    if gates.len() == 0 {
        Seq::empty()
    } else {
        encode_body(gates.drop_last()) + encode_gate(gates.last())
    }
}

/// The byte form of a gate list.
pub open spec fn encode_gates(gates: Seq<GateModel>) -> Seq<u8> {
    le_encode(gates.len(), 8) + encode_body(gates)
}

/// A gate that has a record: its coefficients are field values and its places
/// fit this machine.
pub open spec fn encodable_gate(g: GateModel) -> bool {
    g.in_field() && g.a.index <= usize::MAX && g.b.index <= usize::MAX
}

/// A gate list that has a byte form.
pub open spec fn encodable(gates: Seq<GateModel>) -> bool {
    gates.len() <= u64::MAX && forall|i: int| 0 <= i < gates.len() ==> encodable_gate(#[trigger] gates[i])
}

/// The number held in the 32 bytes of `rec` from `at` on.
pub open spec fn field_at(rec: Seq<u8>, at: int) -> nat {
    le_value(rec.subrange(at, at + 32))
}

/// The number held in the eight bytes of `rec` from `at` on.
pub open spec fn word_at(rec: Seq<u8>, at: int) -> nat {
    le_value(rec.subrange(at, at + 8))
}

/// The bytes are the record of a gate.
pub open spec fn record_ok(rec: Seq<u8>) -> bool {
    &&& rec.len() == 161
    &&& field_at(rec, 0) < modulus()
    &&& field_at(rec, 32) < modulus()
    &&& field_at(rec, 64) < modulus()
    &&& rec[96] <= 1
    &&& (rec[96] == 1 ==> field_at(rec, 97) < modulus())
    &&& (rec[96] == 0 ==> field_at(rec, 97) == 0)
    &&& word_at(rec, 137) <= usize::MAX
    &&& word_at(rec, 153) <= usize::MAX
}

/// Which gate a record stands for.
pub open spec fn decode_record(rec: Seq<u8>) -> GateModel {
    GateModel {
        left: field_at(rec, 0),
        right: field_at(rec, 32),
        mult: field_at(rec, 64),
        public: if rec[96] == 1 {
            Some(field_at(rec, 97))
        } else {
            None
        },
        a: WitnessModel { owner: word_at(rec, 129) as u64, index: word_at(rec, 137) },
        b: WitnessModel { owner: word_at(rec, 145) as u64, index: word_at(rec, 153) },
    }
}

/// The bytes of record `i` of a list.
pub open spec fn record_at(bytes: Seq<u8>, i: int) -> Seq<u8> {
    bytes.subrange(8 + 161 * i, 8 + 161 * i + 161)
}

/// Which list of gates a byte string stands for, or why it stands for none.
pub open spec fn decode_gates(bytes: Seq<u8>) -> Result<Seq<GateModel>, ParseError> {
    if bytes.len() < 8 {
        Err(ParseError::Truncated)
    } else {
        let n = le_value(bytes.subrange(0, 8));
        if bytes.len() < 8 + 161 * n {
            Err(ParseError::Truncated)
        } else if bytes.len() > 8 + 161 * n {
            Err(ParseError::TrailingBytes)
        } else if exists|i: int| 0 <= i < n && !record_ok(record_at(bytes, i)) {
            Err(ParseError::InvalidGate)
        } else {
            Ok(Seq::new(n, |i: int| decode_record(record_at(bytes, i))))
        }
    }
}

/// The value of eight bytes, written out.
pub proof fn lemma_word_value(s: Seq<u8>)
    requires
        s.len() == 8,
    ensures
        le_value(s) == s[0] + 256 * (s[1] + 256 * (s[2] + 256 * (s[3] + 256 * (s[4] + 256 * (s[5]
            + 256 * (s[6] + 256 * s[7])))))),
        le_value(s) <= u64::MAX,
{
    reveal_with_fuel(le_value, 9);
    let s1 = s.skip(1);
    let s2 = s1.skip(1);
    let s3 = s2.skip(1);
    let s4 = s3.skip(1);
    let s5 = s4.skip(1);
    let s6 = s5.skip(1);
    let s7 = s6.skip(1);
    let s8 = s7.skip(1);
    assert(s8.len() == 0);
    assert(le_value(s7) == s[7] as nat);
    assert(le_value(s6) == s[6] + 256 * le_value(s7));
    assert(le_value(s5) == s[5] + 256 * le_value(s6));
    assert(le_value(s4) == s[4] + 256 * le_value(s5));
    assert(le_value(s3) == s[3] + 256 * le_value(s4));
    assert(le_value(s2) == s[2] + 256 * le_value(s3));
    assert(le_value(s1) == s[1] + 256 * le_value(s2));
}

/// The eight bytes of a 64-bit value, written out.
pub proof fn lemma_word_bytes(v: u64)
    ensures
        le_encode(v as nat, 8) == seq![
            (v % 256) as u8,
            (v / 256 % 256) as u8,
            (v / 256 / 256 % 256) as u8,
            (v / 256 / 256 / 256 % 256) as u8,
            (v / 256 / 256 / 256 / 256 % 256) as u8,
            (v / 256 / 256 / 256 / 256 / 256 % 256) as u8,
            (v / 256 / 256 / 256 / 256 / 256 / 256 % 256) as u8,
            (v / 256 / 256 / 256 / 256 / 256 / 256 / 256 % 256) as u8,
        ],
{
    reveal_with_fuel(le_encode, 9);
    let n = v as nat;
    let e = le_encode(n, 8);
    lemma_encode_len(n, 8);
    assert(e[0] == (n % 256) as u8);
    assert(e.skip(1) =~= le_encode(n / 256, 7));
    assert(e =~= seq![
        (v % 256) as u8,
        (v / 256 % 256) as u8,
        (v / 256 / 256 % 256) as u8,
        (v / 256 / 256 / 256 % 256) as u8,
        (v / 256 / 256 / 256 / 256 % 256) as u8,
        (v / 256 / 256 / 256 / 256 / 256 % 256) as u8,
        (v / 256 / 256 / 256 / 256 / 256 / 256 % 256) as u8,
        (v / 256 / 256 / 256 / 256 / 256 / 256 / 256 % 256) as u8,
    ]);
}

/// Appends the eight little-endian bytes of `v`.
fn put_word(out: &mut Vec<u8>, v: u64)
    ensures
        final(out)@ == old(out)@ + le_encode(v as nat, 8),
{
    let mut rest: u64 = v;
    let mut i: usize = 0;
    proof {
        lemma_word_bytes(v);
    }
    let ghost word = le_encode(v as nat, 8);
    let ghost start = out@;
    assert(start + word.take(0) =~= start);
    while i < 8
        invariant
            i <= 8,
            word == le_encode(v as nat, 8),
            word.len() == 8,
            out@ == start + word.take(i as int),
            i == 0 ==> rest == v,
            i == 1 ==> rest == v / 256,
            i == 2 ==> rest == v / 256 / 256,
            i == 3 ==> rest == v / 256 / 256 / 256,
            i == 4 ==> rest == v / 256 / 256 / 256 / 256,
            i == 5 ==> rest == v / 256 / 256 / 256 / 256 / 256,
            i == 6 ==> rest == v / 256 / 256 / 256 / 256 / 256 / 256,
            i == 7 ==> rest == v / 256 / 256 / 256 / 256 / 256 / 256 / 256,
            word == seq![
                (v % 256) as u8,
                (v / 256 % 256) as u8,
                (v / 256 / 256 % 256) as u8,
                (v / 256 / 256 / 256 % 256) as u8,
                (v / 256 / 256 / 256 / 256 % 256) as u8,
                (v / 256 / 256 / 256 / 256 / 256 % 256) as u8,
                (v / 256 / 256 / 256 / 256 / 256 / 256 % 256) as u8,
                (v / 256 / 256 / 256 / 256 / 256 / 256 / 256 % 256) as u8,
            ],
        decreases 8 - i,
    {
        let byte = (rest % 256) as u8;
        assert(byte == word[i as int]);
        out.push(byte);
        assert(start + word.take(i + 1) =~= (start + word.take(i as int)).push(word[i as int]));
        rest = rest / 256;
        i += 1;
    }
    assert(word.take(8) =~= word);
}

/// Appends the 32 little-endian bytes of `e`.
fn put_field(out: &mut Vec<u8>, e: &FieldElement)
    ensures
        final(out)@ == old(out)@ + le_encode(e@, 32),
{
    let bytes = e.to_bytes();
    let ghost start = out@;
    let mut i: usize = 0;
    assert(start + bytes@.take(0) =~= start);
    while i < 32
        invariant
            i <= 32,
            bytes@.len() == 32,
            out@ == start + bytes@.take(i as int),
        decreases 32 - i,
    {
        out.push(bytes[i]);
        assert(start + bytes@.take(i + 1) =~= (start + bytes@.take(i as int)).push(bytes@[i as int]));
        i += 1;
    }
    assert(bytes@.take(32) =~= bytes@);
}

/// Appends the byte form of a witness.
fn put_witness(out: &mut Vec<u8>, w: &Witness)
    ensures
        final(out)@ == old(out)@ + encode_witness(w@),
{
    let ghost start = out@;
    put_word(out, w.owner());
    put_word(out, w.index() as u64);
    assert(out@ =~= start + encode_witness(w@));
}

/// Appends the record of one gate.
fn put_gate(out: &mut Vec<u8>, gate: &Constraint)
    ensures
        final(out)@ == old(out)@ + encode_gate(gate@),
{
    let ghost start = out@;
    put_field(out, &gate.left_coeff());
    put_field(out, &gate.right_coeff());
    put_field(out, &gate.mult_coeff());
    match gate.public_offset() {
        Some(p) => {
            out.push(1);
            put_field(out, &p);
        },
        None => {
            out.push(0);
            put_field(out, &FieldElement::from_u64(0));
        },
    }
    assert(out@ =~= start + le_encode(gate@.left, 32) + le_encode(gate@.right, 32) + le_encode(
        gate@.mult,
        32,
    ) + encode_public(gate@.public));
    put_witness(out, &gate.witness_a());
    put_witness(out, &gate.witness_b());
    assert(out@ =~= start + encode_gate(gate@));
}

/// The byte form of a gate list: the number of gates, then a record for each
/// gate, in order.
pub fn serialize_gates(gates: &Vec<Constraint>) -> (r: Vec<u8>)
    ensures
        r@ == encode_gates(gates_of(gates@)),
{
    let mut out: Vec<u8> = Vec::new();
    put_word(&mut out, gates.len() as u64);
    let ghost model = gates_of(gates@);
    let ghost count = le_encode(gates.len() as nat, 8);
    assert(out@ =~= count + encode_body(model.take(0)));
    let mut i: usize = 0;
    while i < gates.len()
        invariant
            i <= gates.len(),
            model == gates_of(gates@),
            out@ == count + encode_body(model.take(i as int)),
        decreases gates.len() - i,
    {
        put_gate(&mut out, &gates[i]);
        proof {
            let next = model.take(i + 1);
            assert(next.drop_last() =~= model.take(i as int));
            assert(next.last() == gates@[i as int]@);
            assert(out@ =~= count + encode_body(next));
        }
        i += 1;
    }
    assert(model.take(gates.len() as int) =~= model);
    out
}

/// The number held in the eight bytes from `at` on.
fn read_word(bytes: &[u8], at: usize) -> (r: u64)
    requires
        at + 8 <= bytes@.len() <= usize::MAX,
    ensures
        r == word_at(bytes@, at as int),
{
    proof {
        lemma_word_value(bytes@.subrange(at as int, at + 8));
    }
    let b7: u64 = bytes[at + 7] as u64;
    let b6: u64 = bytes[at + 6] as u64 + 256 * b7;
    let b5: u64 = bytes[at + 5] as u64 + 256 * b6;
    let b4: u64 = bytes[at + 4] as u64 + 256 * b5;
    let b3: u64 = bytes[at + 3] as u64 + 256 * b4;
    let b2: u64 = bytes[at + 2] as u64 + 256 * b3;
    let b1: u64 = bytes[at + 1] as u64 + 256 * b2;
    let b0: u64 = bytes[at] as u64 + 256 * b1;
    b0
}

/// The field element held in the 32 bytes from `at` on, where they hold one.
fn read_field(bytes: &[u8], at: usize) -> (r: Option<FieldElement>)
    requires
        at + 32 <= bytes@.len() <= usize::MAX,
    ensures
        r.is_some() <==> field_at(bytes@, at as int) < modulus(),
        r matches Some(e) ==> e.wf() && e@ == field_at(bytes@, at as int),
{
    let mut held = [0u8;32];
    let mut i: usize = 0;
    while i < 32
        invariant
            i <= 32,
            at + 32 <= bytes@.len() <= usize::MAX,
            held@.len() == 32,
            forall|j: int| 0 <= j < i ==> held@[j] == bytes@[at + j],
        decreases 32 - i,
    {
        held[i] = bytes[at + i];
        i += 1;
    }
    assert(held@ =~= bytes@.subrange(at as int, at + 32));
    FieldElement::from_bytes(&held)
}

/// The witness held in the 16 bytes from `at` on, where its place fits this
/// machine.
fn read_witness(bytes: &[u8], at: usize) -> (r: Option<Witness>)
    requires
        at + 16 <= bytes@.len() <= usize::MAX,
    ensures
        r.is_some() <==> word_at(bytes@, at + 8) <= usize::MAX,
        r matches Some(w) ==> w@ == (WitnessModel {
            owner: word_at(bytes@, at as int) as u64,
            index: word_at(bytes@, at + 8),
        }),
{
    let owner = read_word(bytes, at);
    let index = read_word(bytes, at + 8);
    if index > usize::MAX as u64 {
        None
    } else {
        Some(Witness::issue(owner, index as usize))
    }
}

/// Reads one gate from its record, which starts at `at`, where the bytes
/// there are a record.
fn read_gate(bytes: &[u8], at: usize) -> (r: Option<Constraint>)
    requires
        at + 161 <= bytes@.len() <= usize::MAX,
    ensures
        r.is_some() <==> record_ok(bytes@.subrange(at as int, at + 161)),
        r matches Some(c) ==> c.wf() && c@ == decode_record(bytes@.subrange(at as int, at + 161)),
{
    let ghost rec = bytes@.subrange(at as int, at + 161);
    proof {
        assert(rec.subrange(0, 32) =~= bytes@.subrange(at as int, at + 32));
        assert(rec.subrange(32, 64) =~= bytes@.subrange(at + 32, at + 64));
        assert(rec.subrange(64, 96) =~= bytes@.subrange(at + 64, at + 96));
        assert(rec.subrange(97, 129) =~= bytes@.subrange(at + 97, at + 129));
        assert(rec.subrange(129, 137) =~= bytes@.subrange(at + 129, at + 137));
        assert(rec.subrange(137, 145) =~= bytes@.subrange(at + 137, at + 145));
        assert(rec.subrange(145, 153) =~= bytes@.subrange(at + 145, at + 153));
        assert(rec.subrange(153, 161) =~= bytes@.subrange(at + 153, at + 161));
        assert(rec[96] == bytes@[at + 96]);
    }
    let left = match read_field(bytes, at) {
        Some(e) => e,
        None => {
            return None;
        },
    };
    let right = match read_field(bytes, at + 32) {
        Some(e) => e,
        None => {
            return None;
        },
    };
    let mult = match read_field(bytes, at + 64) {
        Some(e) => e,
        None => {
            return None;
        },
    };
    let flag = bytes[at + 96];
    if flag > 1 {
        return None;
    }
    let offset = match read_field(bytes, at + 97) {
        Some(e) => e,
        None => {
            return None;
        },
    };
    if flag == 0 && offset != FieldElement::from_u64(0) {
        return None;
    }
    let a = match read_witness(bytes, at + 129) {
        Some(w) => w,
        None => {
            return None;
        },
    };
    let b = match read_witness(bytes, at + 145) {
        Some(w) => w,
        None => {
            return None;
        },
    };
    let gate = Constraint::new(a, b).left(left).right(right).mult(mult);
    if flag == 1 {
        Some(gate.public(offset))
    } else {
        Some(gate)
    }
}

/// Parses a list of gates from its byte form. The bytes must hold the
/// count, exactly as many records as it says, and nothing else, and every
/// record must be the record of a gate.
pub fn parse_gates(bytes: &[u8]) -> (r: Result<Vec<Constraint>, ParseError>)
    ensures
        match r {
            Ok(gates) => decode_gates(bytes@) == Ok::<Seq<GateModel>, ParseError>(gates_of(gates@))
                && forall|i: int| 0 <= i < gates@.len() ==> (#[trigger] gates@[i]).wf(),
            Err(e) => decode_gates(bytes@) == Err::<Seq<GateModel>, ParseError>(e),
        },
{
    if bytes.len() < 8 {
        return Err(ParseError::Truncated);
    }
    let count = read_word(bytes, 0);
    let room = (bytes.len() - 8) / 161;
    if count > room as u64 {
        return Err(ParseError::Truncated);
    }
    let n = count as usize;
    if 8 + 161 * n < bytes.len() {
        return Err(ParseError::TrailingBytes);
    }
    let mut gates: Vec<Constraint> = Vec::new();
    let mut i: usize = 0;
    while i < n
        invariant
            i <= n,
            bytes@.len() == 8 + 161 * n,
            bytes@.len() <= usize::MAX,
            n == le_value(bytes@.subrange(0, 8)),
            gates@.len() == i,
            forall|j: int| 0 <= j < i ==> record_ok(#[trigger] record_at(bytes@, j)),
            forall|j: int| 0 <= j < i ==> (#[trigger] gates@[j]).wf(),
            forall|j: int| 0 <= j < i ==> (#[trigger] gates@[j])@ == decode_record(record_at(bytes@, j)),
        decreases n - i,
    {
        match read_gate(bytes, 8 + 161 * i) {
            Some(gate) => {
                gates.push(gate);
            },
            None => {
                assert(!record_ok(record_at(bytes@, i as int)));
                return Err(ParseError::InvalidGate);
            },
        }
        i += 1;
    }
    assert(gates_of(gates@) =~= Seq::new(n as nat, |i: int| decode_record(record_at(bytes@, i))));
    Ok(gates)
}

/// A record is 161 bytes long.
pub proof fn lemma_gate_len(g: GateModel)
    ensures
        encode_gate(g).len() == 161,
{
    lemma_encode_len(g.left, 32);
    lemma_encode_len(g.right, 32);
    lemma_encode_len(g.mult, 32);
    lemma_encode_len(0, 32);
    if let Some(p) = g.public {
        lemma_encode_len(p, 32);
    }
    lemma_encode_len(g.a.owner as nat, 8);
    lemma_encode_len(g.a.index, 8);
    lemma_encode_len(g.b.owner as nat, 8);
    lemma_encode_len(g.b.index, 8);
}

/// Reading the record of a gate gives that same gate.
pub proof fn lemma_record_round_trip(g: GateModel)
    requires
        encodable_gate(g),
    ensures
        record_ok(encode_gate(g)),
        decode_record(encode_gate(g)) == g,
{
    let rec = encode_gate(g);
    let offset: nat = match g.public {
        Some(p) => p,
        None => 0,
    };
    lemma_gate_len(g);
    lemma_radix_bounds();
    lemma_encode_len(g.left, 32);
    lemma_encode_len(g.right, 32);
    lemma_encode_len(g.mult, 32);
    lemma_encode_len(offset, 32);
    lemma_encode_len(g.a.owner as nat, 8);
    lemma_encode_len(g.a.index, 8);
    lemma_encode_len(g.b.owner as nat, 8);
    lemma_encode_len(g.b.index, 8);
    lemma_value_of_encode(g.left, 32);
    lemma_value_of_encode(g.right, 32);
    lemma_value_of_encode(g.mult, 32);
    lemma_value_of_encode(offset, 32);
    lemma_value_of_encode(g.a.owner as nat, 8);
    lemma_value_of_encode(g.a.index, 8);
    lemma_value_of_encode(g.b.owner as nat, 8);
    lemma_value_of_encode(g.b.index, 8);
    assert(rec.subrange(0, 32) =~= le_encode(g.left, 32));
    assert(rec.subrange(32, 64) =~= le_encode(g.right, 32));
    assert(rec.subrange(64, 96) =~= le_encode(g.mult, 32));
    assert(rec.subrange(97, 129) =~= le_encode(offset, 32));
    assert(rec.subrange(129, 137) =~= le_encode(g.a.owner as nat, 8));
    assert(rec.subrange(137, 145) =~= le_encode(g.a.index, 8));
    assert(rec.subrange(145, 153) =~= le_encode(g.b.owner as nat, 8));
    assert(rec.subrange(153, 161) =~= le_encode(g.b.index, 8));
    assert(rec[96] == if g.public.is_some() {
        1u8
    } else {
        0u8
    });
}

/// Writing out what a record stands for gives the record back.
pub proof fn lemma_record_canonical(rec: Seq<u8>)
    requires
        record_ok(rec),
    ensures
        encodable_gate(decode_record(rec)),
        encode_gate(decode_record(rec)) == rec,
{
    let g = decode_record(rec);
    lemma_encode_of_value(rec.subrange(0, 32));
    lemma_encode_of_value(rec.subrange(32, 64));
    lemma_encode_of_value(rec.subrange(64, 96));
    lemma_encode_of_value(rec.subrange(97, 129));
    lemma_encode_of_value(rec.subrange(129, 137));
    lemma_encode_of_value(rec.subrange(137, 145));
    lemma_encode_of_value(rec.subrange(145, 153));
    lemma_encode_of_value(rec.subrange(153, 161));
    lemma_word_value(rec.subrange(129, 137));
    lemma_word_value(rec.subrange(145, 153));
    assert(encode_public(g.public) =~= seq![rec[96]] + rec.subrange(97, 129));
    assert(encode_witness(g.a) =~= rec.subrange(129, 145));
    assert(encode_witness(g.b) =~= rec.subrange(145, 161));
    assert(encode_gate(g) =~= rec);
}

/// The records of a list take 161 bytes each, and record `i` is that of gate `i`.
pub proof fn lemma_body_records(gates: Seq<GateModel>)
    ensures
        encode_body(gates).len() == 161 * gates.len(),
        forall|i: int|
            0 <= i < gates.len() ==> #[trigger] encode_body(gates).subrange(161 * i, 161 * i + 161)
                == encode_gate(gates[i]),
    decreases gates.len(),
{
    if gates.len() > 0 {
        let front = gates.drop_last();
        lemma_body_records(front);
        lemma_gate_len(gates.last());
        let body = encode_body(gates);
        assert forall|i: int| 0 <= i < gates.len() implies #[trigger] body.subrange(
            161 * i,
            161 * i + 161,
        ) == encode_gate(gates[i]) by {
            if i < front.len() {
                assert(body.subrange(161 * i, 161 * i + 161) =~= encode_body(front).subrange(
                    161 * i,
                    161 * i + 161,
                ));
                assert(front[i] == gates[i]);
            } else {
                assert(body.subrange(161 * i, 161 * i + 161) =~= encode_gate(gates.last()));
            }
        }
    }
}

/// Reading the byte form of a gate list gives the list back, gate by gate and
/// in the same order.
pub proof fn lemma_parse_of_serialized(gates: Seq<GateModel>)
    requires
        encodable(gates),
    ensures
        decode_gates(encode_gates(gates)) == Ok::<Seq<GateModel>, ParseError>(gates),
{
    let bytes = encode_gates(gates);
    let n = gates.len();
    lemma_radix_bounds();
    lemma_encode_len(n, 8);
    lemma_value_of_encode(n, 8);
    lemma_body_records(gates);
    assert(bytes.subrange(0, 8) =~= le_encode(n, 8));
    assert forall|i: int| 0 <= i < n implies record_at(bytes, i) == encode_gate(gates[i]) by {
        assert(record_at(bytes, i) =~= encode_body(gates).subrange(161 * i, 161 * i + 161));
    }
    assert forall|i: int| 0 <= i < n implies record_ok(record_at(bytes, i)) && decode_record(
        record_at(bytes, i),
    ) == gates[i] by {
        lemma_record_round_trip(gates[i]);
    }
    assert(Seq::new(n, |i: int| decode_record(record_at(bytes, i))) =~= gates);
}

/// The first `k` gates read from `bytes` have the bytes of the first `k`
/// records as their records.
proof fn lemma_body_of_decoded(bytes: Seq<u8>, k: nat)
    requires
        8 + 161 * k <= bytes.len(),
        forall|i: int| 0 <= i < k ==> record_ok(#[trigger] record_at(bytes, i)),
    ensures
        encode_body(Seq::new(k, |i: int| decode_record(record_at(bytes, i)))) == bytes.subrange(
            8,
            8 + 161 * (k as int),
        ),
    decreases k,
{
    let gates = Seq::new(k, |i: int| decode_record(record_at(bytes, i)));
    if k == 0 {
        assert(bytes.subrange(8, 8) =~= Seq::empty());
    } else {
        let front = Seq::new((k - 1) as nat, |i: int| decode_record(record_at(bytes, i)));
        lemma_body_of_decoded(bytes, (k - 1) as nat);
        assert(gates.drop_last() =~= front);
        assert(record_ok(record_at(bytes, k - 1)));
        lemma_record_canonical(record_at(bytes, k - 1));
        assert(encode_body(gates) =~= bytes.subrange(8, 8 + 161 * (k as int)));
    }
}

/// A byte string that stands for a gate list is the byte form of that list,
/// and of no other: the byte form is unique.
pub proof fn lemma_serialized_of_parsed(bytes: Seq<u8>)
    requires
        decode_gates(bytes).is_ok(),
    ensures
        encodable(decode_gates(bytes).unwrap()),
        encode_gates(decode_gates(bytes).unwrap()) == bytes,
{
    let gates = decode_gates(bytes).unwrap();
    let n = le_value(bytes.subrange(0, 8));
    lemma_word_value(bytes.subrange(0, 8));
    lemma_encode_of_value(bytes.subrange(0, 8));
    assert forall|i: int| 0 <= i < n implies record_ok(#[trigger] record_at(bytes, i)) by {}
    lemma_body_of_decoded(bytes, n);
    assert forall|i: int| 0 <= i < gates.len() implies encodable_gate(#[trigger] gates[i]) by {
        assert(record_ok(record_at(bytes, i)));
        lemma_record_canonical(record_at(bytes, i));
    }
    assert(encode_gates(gates) =~= bytes);
}

/// Well-formed constraints state gates that have records.
pub proof fn lemma_constraints_encodable(gates: Seq<Constraint>)
    requires
        gates.len() <= u64::MAX,
        forall|i: int| 0 <= i < gates.len() ==> (#[trigger] gates[i]).wf(),
    ensures
        encodable(gates_of(gates)),
{
    assert forall|i: int| 0 <= i < gates.len() implies encodable_gate(#[trigger] gates_of(gates)[i]) by {
        gates[i].lemma_wf();
        gates[i].lemma_witnesses_fit();
    }
}

} // verus!
