//! A sample circuit of adjustable size: it proves knowledge of `a` and `b`
//! with `a + b = c` and `a * b = d`, where `c` and `d` are public, and states
//! each of the two relations as many times as asked.

use crate::builder::{values_of, BuilderModel, ConstraintBuilder};
use crate::constraint::{Constraint, GateModel, WitnessModel};
use crate::description::lemma_slots_of_all;
use crate::error::Error;
use crate::field::{
    field_add, field_mul, field_neg, lemma_field_neg_involution, lemma_field_value_bounds, modulus,
    FieldElement,
};
use vstd::prelude::*;

verus! {

/// The number of addition gates of the circuit at its usual size.
pub const NUM_ADD: usize = 429;

/// The number of multiplication gates of the circuit at its usual size.
pub const NUM_MUL: usize = 184;

/// The four values of a sample circuit.
pub struct CircuitInputs {
    pub a: nat,
    pub b: nat,
    pub c: nat,
    pub d: nat,
}

impl CircuitInputs {
    /// A gate that states `a + b - c = 0` of the values behind `wa` and `wb`.
    pub open spec fn add_gate(self, wa: WitnessModel, wb: WitnessModel) -> GateModel {
        GateModel { left: 1, right: 1, mult: 0, public: Some(field_neg(self.c)), a: wa, b: wb }
    }

    /// A gate that states `a * b - d = 0` of the values behind `wa` and `wb`.
    pub open spec fn mul_gate(self, wa: WitnessModel, wb: WitnessModel) -> GateModel {
        GateModel { left: 0, right: 0, mult: 1, public: Some(field_neg(self.d)), a: wa, b: wb }
    }

    /// The circuit's gates: `num_add` addition gates, then `num_mul`
    /// multiplication gates.
    pub open spec fn gate_list(
        self,
        wa: WitnessModel,
        wb: WitnessModel,
        num_add: nat,
        num_mul: nat,
    ) -> Seq<GateModel> {
        Seq::new(num_add, |i: int| self.add_gate(wa, wb)) + Seq::new(
            num_mul,
            |i: int| self.mul_gate(wa, wb),
        )
    }

    /// What the circuit leaves in a builder that was in state `before`: the
    /// witnesses `a` and `b` behind those that were there, and its gates over
    /// these two behind the gates that were there.
    pub open spec fn built_on(self, before: BuilderModel, num_add: nat, num_mul: nat) -> BuilderModel {
        let wa = WitnessModel { owner: before.id, index: before.witnesses.len() };
        let wb = WitnessModel { owner: before.id, index: before.witnesses.len() + 1 };
        BuilderModel {
            witnesses: before.witnesses.push(self.a).push(self.b),
            gates: before.gates + self.gate_list(wa, wb, num_add, num_mul),
            ..before
        }
    }
}

/// Laid out in an empty builder, the circuit refers to its own witnesses
/// only, declares `c` for every addition gate and `d` for every
/// multiplication gate as its public inputs, and is satisfied by them exactly
/// where `a + b = c` and `a * b = d` hold in the field (each as far as there
/// is a gate that states it).
pub proof fn lemma_sample_circuit(inputs: CircuitInputs, id: u64, num_add: nat, num_mul: nat)
    requires
        inputs.a < modulus(),
        inputs.b < modulus(),
        inputs.c < modulus(),
        inputs.d < modulus(),
    ensures
        ({
            let empty = BuilderModel {
                id,
                witnesses: Seq::empty(),
                gates: Seq::empty(),
                finished: false,
            };
            let compiled = inputs.built_on(empty, num_add, num_mul).description().compiled();
            &&& compiled.wf()
            &&& compiled.public_inputs() == Seq::new(num_add, |i: int| inputs.c) + Seq::new(
                num_mul,
                |i: int| inputs.d,
            )
            &&& compiled.satisfied_by(compiled.public_inputs()) <==> (num_add > 0 ==> field_add(
                inputs.a,
                inputs.b,
            ) == inputs.c) && (num_mul > 0 ==> field_mul(inputs.a, inputs.b) == inputs.d)
        }),
{
    let empty = BuilderModel { id, witnesses: Seq::empty(), gates: Seq::empty(), finished: false };
    let compiled = inputs.built_on(empty, num_add, num_mul).description().compiled();
    let wa = WitnessModel { owner: id, index: 0 };
    let wb = WitnessModel { owner: id, index: 1 };
    let gates = compiled.gates;
    let declared = compiled.public_inputs();
    let (a, b) = (inputs.a, inputs.b);
    lemma_field_neg_involution(inputs.c);
    lemma_field_neg_involution(inputs.d);
    assert(gates =~= inputs.gate_list(wa, wb, num_add, num_mul));
    assert(compiled.witnesses =~= seq![a, b]);
    assert forall|i: int| 0 <= i < gates.len() implies (#[trigger] gates[i]).declares_public()
        && gates[i].in_field() && compiled.description().gate_valid(i) && compiled.value_a(i) == a
        && compiled.value_b(i) == b by {
        lemma_field_value_bounds(0);
    }
    lemma_slots_of_all(gates);
    assert(declared =~= Seq::new(num_add, |i: int| inputs.c) + Seq::new(num_mul, |i: int| inputs.d));
    assert forall|i: int| 0 <= i < num_add implies compiled.gate_sum(i) == field_add(a, b) by {
        assert(gates[i] == inputs.add_gate(wa, wb));
        assert(1 * a + 1 * b + 0 * a * b == a + b) by (nonlinear_arith);
    }
    assert forall|i: int| num_add <= i < num_add + num_mul implies compiled.gate_sum(i)
        == field_mul(a, b) by {
        assert(gates[i] == inputs.mul_gate(wa, wb));
        assert(0 * a + 0 * b + 1 * a * b == a * b) by (nonlinear_arith);
    }
    if compiled.satisfied_by(declared) {
        if num_add > 0 {
            assert(compiled.gate_sum(compiled.public_slots[0] as int) == declared[0]);
        }
        if num_mul > 0 {
            assert(compiled.gate_sum(compiled.public_slots[num_add as int] as int)
                == declared[num_add as int]);
        }
    }
}

/// A sample circuit: the private values `a` and `b`, and the public values
/// `c` and `d` that their sum and their product are held to.
#[derive(Debug)]
pub struct TestCircuit {
    a: FieldElement,
    b: FieldElement,
    c: FieldElement,
    d: FieldElement,
}

impl View for TestCircuit {
    type V = CircuitInputs;

    closed spec fn view(&self) -> CircuitInputs {
        CircuitInputs { a: self.a@, b: self.b@, c: self.c@, d: self.d@ }
    }
}

impl Default for TestCircuit {
    /// The circuit whose four values are zero.
    fn default() -> (r: TestCircuit)
        ensures
            r.wf(),
            r@ == (CircuitInputs { a: 0, b: 0, c: 0, d: 0 }),
    {
        let zero = FieldElement::from_u64(0);
        TestCircuit { a: zero, b: zero, c: zero, d: zero }
    }
}

impl TestCircuit {
    /// The four values are well-formed field elements.
    pub closed spec fn wf(&self) -> bool {
        self.a.wf() && self.b.wf() && self.c.wf() && self.d.wf()
    }

    /// The circuit with the values given.
    pub fn new(a: FieldElement, b: FieldElement, c: FieldElement, d: FieldElement) -> (r:
        TestCircuit)
        requires
            a.wf(),
            b.wf(),
            c.wf(),
            d.wf(),
        ensures
            r.wf(),
            r@ == (CircuitInputs { a: a@, b: b@, c: c@, d: d@ }),
    {
        TestCircuit { a, b, c, d }
    }

    /// The circuit for `2 + 3 = 5` and `2 * 3 = 6`.
    pub fn initiate_circuit() -> (r: TestCircuit)
        ensures
            r.wf(),
            r@ == (CircuitInputs { a: 2, b: 3, c: 5, d: 6 }),
    {
        TestCircuit {
            a: FieldElement::from_u64(2),
            b: FieldElement::from_u64(3),
            c: FieldElement::from_u64(5),
            d: FieldElement::from_u64(6),
        }
    }

    /// Lays the circuit out in `composer` at its usual size.
    pub fn circuit(&self, composer: &mut ConstraintBuilder) -> (r: Result<(), Error>)
        requires
            self.wf(),
            old(composer).wf(),
        ensures
            final(composer).wf(),
            old(composer)@.finished ==> r == Err::<(), Error>(Error::BuilderAlreadyFinished)
                && final(composer)@ == old(composer)@,
            !old(composer)@.finished ==> r.is_ok() && final(composer)@ == self@.built_on(
                old(composer)@,
                NUM_ADD as nat,
                NUM_MUL as nat,
            ),
    {
        self.circuit_with(composer, NUM_ADD, NUM_MUL)
    }

    /// Lays the circuit out in `composer`: registers `a` and `b`, then appends
    /// `num_add` gates that state `a + b = c` and `num_mul` gates that state
    /// `a * b = d`. A finished builder is left as it was.
    pub fn circuit_with(&self, composer: &mut ConstraintBuilder, num_add: usize, num_mul: usize) -> (r:
        Result<(), Error>)
        requires
            self.wf(),
            old(composer).wf(),
        ensures
            final(composer).wf(),
            old(composer)@.finished ==> r == Err::<(), Error>(Error::BuilderAlreadyFinished)
                && final(composer)@ == old(composer)@,
            !old(composer)@.finished ==> r.is_ok() && final(composer)@ == self@.built_on(
                old(composer)@,
                num_add as nat,
                num_mul as nat,
            ),
    {
        let ghost before = composer@;
        let a = match composer.append_witness(self.a) {
            Ok(w) => w,
            Err(e) => {
                return Err(e);
            },
        };
        let b = match composer.append_witness(self.b) {
            Ok(w) => w,
            Err(e) => {
                return Err(e);
            },
        };
        let ghost with_witnesses = composer@;
        let one = FieldElement::from_u64(1);

        let add_gate = Constraint::new(a, b).left(one).right(one).public(self.c.neg());
        assert(add_gate@ == self@.add_gate(a@, b@));
        let mut i: usize = 0;
        while i < num_add
            invariant
                i <= num_add,
                composer.wf(),
                add_gate.wf(),
                composer@ == (BuilderModel {
                    gates: before.gates + Seq::new(i as nat, |j: int| add_gate@),
                    ..with_witnesses
                }),
                !with_witnesses.finished,
            decreases num_add - i,
        {
            if let Err(e) = composer.append_gate(add_gate) {
                return Err(e);
            }
            assert(composer@.gates =~= before.gates + Seq::new((i + 1) as nat, |j: int| add_gate@));
            i += 1;
        }

        let mul_gate = Constraint::new(a, b).mult(one).public(self.d.neg());
        assert(mul_gate@ == self@.mul_gate(a@, b@));
        let ghost with_additions = composer@;
        let mut i: usize = 0;
        while i < num_mul
            invariant
                i <= num_mul,
                composer.wf(),
                mul_gate.wf(),
                composer@ == (BuilderModel {
                    gates: with_additions.gates + Seq::new(i as nat, |j: int| mul_gate@),
                    ..with_witnesses
                }),
                !with_witnesses.finished,
            decreases num_mul - i,
        {
            if let Err(e) = composer.append_gate(mul_gate) {
                return Err(e);
            }
            assert(composer@.gates =~= with_additions.gates + Seq::new(
                (i + 1) as nat,
                |j: int| mul_gate@,
            ));
            i += 1;
        }
        assert(composer@.gates =~= before.gates + self@.gate_list(
            a@,
            b@,
            num_add as nat,
            num_mul as nat,
        ));
        Ok(())
    }
}

/// The inputs of a circuit over two lists of values and a sum.
pub struct ExpInputs {
    pub a: Seq<nat>,
    pub t: Seq<nat>,
    pub a_sum: nat,
}

/// A circuit over two lists of values and a sum. Nothing lays it out yet: it
/// holds its inputs only.
#[derive(Debug)]
pub struct CircuitExp {
    a: Vec<FieldElement>,
    t: Vec<FieldElement>,
    a_sum: FieldElement,
}

impl View for CircuitExp {
    type V = ExpInputs;

    closed spec fn view(&self) -> ExpInputs {
        ExpInputs { a: values_of(self.a@), t: values_of(self.t@), a_sum: self.a_sum@ }
    }
}

impl Default for CircuitExp {
    /// The circuit with both lists empty and the sum zero.
    fn default() -> (r: CircuitExp)
        ensures
            r@ == (ExpInputs { a: Seq::empty(), t: Seq::empty(), a_sum: 0 }),
    {
        let r = CircuitExp { a: Vec::new(), t: Vec::new(), a_sum: FieldElement::from_u64(0) };
        assert(values_of(r.a@) =~= Seq::empty());
        assert(values_of(r.t@) =~= Seq::empty());
        r
    }
}

} // verus!
