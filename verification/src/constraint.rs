//! Witness handles and the gates that relate them.

use crate::field::{lemma_field_value_bounds, modulus, FieldElement};
use vstd::prelude::*;

verus! {

/// What a witness handle stands for: the builder that issued it and the place
/// of its value in that builder's table.
pub struct WitnessModel {
    pub owner: u64,
    pub index: nat,
}

/// A handle on one private value of a circuit. A builder issues one for each
/// value registered with it; gates refer to values through handles only.
#[derive(Clone, Copy, Debug, PartialEq, Eq, Structural)]
pub struct Witness {
    owner: u64,
    index: usize,
}

impl View for Witness {
    type V = WitnessModel;

    closed spec fn view(&self) -> WitnessModel {
        WitnessModel { owner: self.owner, index: self.index as nat }
    }
}

impl Witness {
    /// The handle on place `index` of the table of builder `owner`.
    pub(crate) fn issue(owner: u64, index: usize) -> (r: Witness)
        ensures
            r@ == (WitnessModel { owner, index: index as nat }),
    {
        Witness { owner, index }
    }

    /// The identity of the builder that issued the handle.
    pub fn owner(&self) -> (r: u64)
        ensures
            r == self@.owner,
    {
        self.owner
    }

    /// The place of the value in its builder's table.
    pub fn index(&self) -> (r: usize)
        ensures
            r == self@.index,
    {
        self.index
    }

    /// The place that a handle stands for fits this machine.
    pub proof fn lemma_index_fits(&self)
        ensures
            self@.index <= usize::MAX,
    {
    }

    /// Handles that stand for one place of one builder are one handle.
    pub proof fn lemma_view_injective(&self, other: &Witness)
        requires
            self@ == other@,
        ensures
            *self == *other,
    {
    }
}

/// What a gate states: the relation
/// `left * a + right * b + mult * a * b + public = 0` in the scalar field,
/// where `a` and `b` are the values behind the two handles and an undeclared
/// public offset counts as zero.
pub struct GateModel {
    pub left: nat,
    pub right: nat,
    pub mult: nat,
    pub public: Option<nat>,
    pub a: WitnessModel,
    pub b: WitnessModel,
}

impl GateModel {
    /// Every coefficient is a field value.
    pub open spec fn in_field(self) -> bool {
        &&& self.left < modulus()
        &&& self.right < modulus()
        &&& self.mult < modulus()
        &&& self.public matches Some(p) ==> p < modulus()
    }

    /// This gate declares a public input.
    pub open spec fn declares_public(self) -> bool {
        self.public.is_some()
    }

    /// The part of the relation that depends on the witnesses, reduced by the
    /// field's order: `left * a + right * b + mult * a * b`.
    pub open spec fn wire_sum(self, a: nat, b: nat) -> nat {
        (self.left * a + self.right * b + self.mult * a * b) % modulus()
    }

    /// The public offset, zero where none is declared.
    pub open spec fn offset(self) -> nat {
        match self.public {
            Some(p) => p,
            None => 0,
        }
    }

    /// This gate's relation holds of the witness values `a` and `b`.
    pub open spec fn holds(self, a: nat, b: nat) -> bool {
        (self.left * a + self.right * b + self.mult * a * b + self.offset()) % modulus() == 0
    }
}

/// One gate: three selector coefficients, an optional public offset, and the
/// two witnesses it relates.
#[derive(Clone, Copy, Debug, PartialEq, Eq)]
pub struct Constraint {
    left_coeff: FieldElement,
    right_coeff: FieldElement,
    mult_coeff: FieldElement,
    public_offset: Option<FieldElement>,
    a: Witness,
    b: Witness,
}

impl View for Constraint {
    type V = GateModel;

    closed spec fn view(&self) -> GateModel {
        GateModel {
            left: self.left_coeff@,
            right: self.right_coeff@,
            mult: self.mult_coeff@,
            public: match self.public_offset {
                Some(p) => Some(p@),
                None => None,
            },
            a: self.a@,
            b: self.b@,
        }
    }
}

impl Constraint {
    /// Every coefficient is a well-formed field element.
    pub closed spec fn wf(&self) -> bool {
        &&& self.left_coeff.wf()
        &&& self.right_coeff.wf()
        &&& self.mult_coeff.wf()
        &&& self.public_offset matches Some(p) ==> p.wf()
    }

    /// A well-formed constraint's coefficients are field values.
    pub proof fn lemma_wf(&self)
        ensures
            self.wf() <==> self@.in_field(),
    {
        self.left_coeff.lemma_wf();
        self.right_coeff.lemma_wf();
        self.mult_coeff.lemma_wf();
        if let Some(p) = self.public_offset {
            p.lemma_wf();
        }
    }

    /// The places of both witnesses fit this machine.
    pub proof fn lemma_witnesses_fit(&self)
        ensures
            self@.a.index <= usize::MAX,
            self@.b.index <= usize::MAX,
    {
        self.a.lemma_index_fits();
        self.b.lemma_index_fits();
    }

    /// Constraints that state one relation of the same handles are one constraint.
    pub proof fn lemma_view_injective(&self, other: &Constraint)
        requires
            self@ == other@,
        ensures
            *self == *other,
    {
        self.left_coeff.lemma_view_injective(&other.left_coeff);
        self.right_coeff.lemma_view_injective(&other.right_coeff);
        self.mult_coeff.lemma_view_injective(&other.mult_coeff);
        self.a.lemma_view_injective(&other.a);
        self.b.lemma_view_injective(&other.b);
        match (self.public_offset, other.public_offset) {
            (Some(p), Some(q)) => {
                p.lemma_view_injective(&q);
            },
            _ => {},
        }
    }

    /// A gate over `a` and `b` with every coefficient zero and no public
    /// input declared.
    pub fn new(a: Witness, b: Witness) -> (r: Constraint)
        ensures
            r.wf(),
            r@ == (GateModel { left: 0, right: 0, mult: 0, public: None, a: a@, b: b@ }),
    {
        let zero = FieldElement::from_u64(0);
        Constraint {
            left_coeff: zero,
            right_coeff: zero,
            mult_coeff: zero,
            public_offset: None,
            a,
            b,
        }
    }

    /// The same gate with `q` as the coefficient of `a`.
    pub fn left(self, q: FieldElement) -> (r: Constraint)
        requires
            self.wf(),
            q.wf(),
        ensures
            r.wf(),
            r@ == (GateModel { left: q@, ..self@ }),
    {
        Constraint { left_coeff: q, ..self }
    }

    /// The same gate with `q` as the coefficient of `b`.
    pub fn right(self, q: FieldElement) -> (r: Constraint)
        requires
            self.wf(),
            q.wf(),
        ensures
            r.wf(),
            r@ == (GateModel { right: q@, ..self@ }),
    {
        Constraint { right_coeff: q, ..self }
    }

    /// The same gate with `q` as the coefficient of the product `a * b`.
    pub fn mult(self, q: FieldElement) -> (r: Constraint)
        requires
            self.wf(),
            q.wf(),
        ensures
            r.wf(),
            r@ == (GateModel { mult: q@, ..self@ }),
    {
        Constraint { mult_coeff: q, ..self }
    }

    /// The same gate with `p` declared as its public offset.
    pub fn public(self, p: FieldElement) -> (r: Constraint)
        requires
            self.wf(),
            p.wf(),
        ensures
            r.wf(),
            r@ == (GateModel { public: Some(p@), ..self@ }),
    {
        Constraint { public_offset: Some(p), ..self }
    }

    /// The same gate with `w` as its first witness.
    pub fn a(self, w: Witness) -> (r: Constraint)
        requires
            self.wf(),
        ensures
            r.wf(),
            r@ == (GateModel { a: w@, ..self@ }),
    {
        Constraint { a: w, ..self }
    }

    /// The same gate with `w` as its second witness.
    pub fn b(self, w: Witness) -> (r: Constraint)
        requires
            self.wf(),
        ensures
            r.wf(),
            r@ == (GateModel { b: w@, ..self@ }),
    {
        Constraint { b: w, ..self }
    }

    /// The coefficient of `a`.
    pub fn left_coeff(&self) -> (r: FieldElement)
        ensures
            r@ == self@.left,
            self.wf() ==> r.wf(),
    {
        self.left_coeff
    }

    /// The coefficient of `b`.
    pub fn right_coeff(&self) -> (r: FieldElement)
        ensures
            r@ == self@.right,
            self.wf() ==> r.wf(),
    {
        self.right_coeff
    }

    /// The coefficient of `a * b`.
    pub fn mult_coeff(&self) -> (r: FieldElement)
        ensures
            r@ == self@.mult,
            self.wf() ==> r.wf(),
    {
        self.mult_coeff
    }

    /// The public offset, where one is declared.
    pub fn public_offset(&self) -> (r: Option<FieldElement>)
        ensures
            r.is_some() == self@.public.is_some(),
            r matches Some(p) ==> self@.public == Some(p@) && (self.wf() ==> p.wf()),
    {
        self.public_offset
    }

    /// The first witness.
    pub fn witness_a(&self) -> (r: Witness)
        ensures
            r@ == self@.a,
    {
        self.a
    }

    /// The second witness.
    pub fn witness_b(&self) -> (r: Witness)
        ensures
            r@ == self@.b,
    {
        self.b
    }

    /// `left * a + right * b + mult * a * b` in the field, for the witness
    /// values `a` and `b`.
    pub fn wire_sum(&self, a: &FieldElement, b: &FieldElement) -> (r: FieldElement)
        requires
            self.wf(),
            a.wf(),
            b.wf(),
        ensures
            r.wf(),
            r@ == self@.wire_sum(a@, b@),
    {
        let la = self.left_coeff.mul(a);
        let rb = self.right_coeff.mul(b);
        let ma = self.mult_coeff.mul(a);
        let mab = ma.mul(b);
        let linear = la.add(&rb);
        let r = linear.add(&mab);
        proof {
            lemma_wire_sum(self@.left, self@.right, self@.mult, a@, b@);
        }
        r
    }
}

/// Reducing each product and each partial sum by the field's order gives the
/// reduced value of the whole expression.
pub proof fn lemma_wire_sum(l: nat, r: nat, m: nat, a: nat, b: nat)
    ensures
        ((((l * a) % modulus() + (r * b) % modulus()) % modulus()) + (((m * a) % modulus()) * b)
            % modulus()) % modulus() == (l * a + r * b + m * a * b) % modulus(),
{
    let p = modulus() as int;
    lemma_field_value_bounds(0);
    let la = (l * a) as int;
    let rb = (r * b) as int;
    let ma = (m * a) as int;
    vstd::arithmetic::div_mod::lemma_add_mod_noop(la, rb, p);
    vstd::arithmetic::div_mod::lemma_mul_mod_noop_left(ma, b as int, p);
    vstd::arithmetic::div_mod::lemma_add_mod_noop(la + rb, ma * b, p);
    vstd::arithmetic::div_mod::lemma_mod_twice(la + rb, p);
    vstd::arithmetic::div_mod::lemma_mod_twice(ma * b, p);
}

} // verus!
