//! A finished circuit, and what compiling it yields: the checked gate list
//! with the places of its public inputs.

use crate::builder::{copy_vec, gates_of, values_of};
use crate::constraint::{Constraint, GateModel, Witness, WitnessModel};
use crate::error::Error;
use crate::field::{field_neg, lemma_field_value_bounds, modulus, FieldElement};
use vstd::prelude::*;

verus! {

/// The places of the gates that declare a public input, in ascending order.
pub open spec fn slots_of(gates: Seq<GateModel>) -> Seq<nat>
    decreases gates.len(),
{
    if gates.len() == 0 {
        Seq::empty()
    } else if gates.last().declares_public() {
        slots_of(gates.drop_last()).push((gates.len() - 1) as nat)
    } else {
        slots_of(gates.drop_last())
    }
}

/// The slots are exactly the places of the declaring gates, each once and in
/// ascending order.
pub proof fn lemma_slots_of(gates: Seq<GateModel>)
    ensures
        slots_of(gates).len() <= gates.len(),
        forall|k: int|
            0 <= k < slots_of(gates).len() ==> (#[trigger] slots_of(gates)[k]) < gates.len()
                && gates[slots_of(gates)[k] as int].declares_public(),
        forall|j: int, k: int|
            0 <= j < k < slots_of(gates).len() ==> slots_of(gates)[j] < slots_of(gates)[k],
        forall|i: int|
            0 <= i < gates.len() && (#[trigger] gates[i]).declares_public() ==> slots_of(
                gates,
            ).contains(i as nat),
    decreases gates.len(),
{
    if gates.len() > 0 {
        let front = gates.drop_last();
        let last = (gates.len() - 1) as nat;
        lemma_slots_of(front);
        let s = slots_of(gates);
        assert forall|i: int| 0 <= i < gates.len() && (#[trigger] gates[i]).declares_public()
        implies s.contains(i as nat) by {
            if i < front.len() {
                assert(front[i].declares_public());
                let k = choose|k: int| 0 <= k < slots_of(front).len() && slots_of(front)[k] == i as nat;
                assert(s[k] == i as nat);
            } else {
                assert(s[s.len() - 1] == last);
            }
        }
    }
}

/// Where every gate declares a public input, every place is a slot.
pub proof fn lemma_slots_of_all(gates: Seq<GateModel>)
    requires
        forall|i: int| 0 <= i < gates.len() ==> (#[trigger] gates[i]).declares_public(),
    ensures
        slots_of(gates) == Seq::new(gates.len(), |i: int| i as nat),
    decreases gates.len(),
{
    if gates.len() > 0 {
        let front = gates.drop_last();
        assert forall|i: int| 0 <= i < front.len() implies (#[trigger] front[i]).declares_public() by {
            assert(front[i] == gates[i]);
        }
        lemma_slots_of_all(front);
    }
    assert(slots_of(gates) =~= Seq::new(gates.len(), |i: int| i as nat));
}

/// The slots of a gate list that grew by one gate.
pub proof fn lemma_slots_of_push(gates: Seq<GateModel>, g: GateModel)
    ensures
        slots_of(gates.push(g)) == if g.declares_public() {
            slots_of(gates).push(gates.len())
        } else {
            slots_of(gates)
        },
{
    assert(gates.push(g).drop_last() =~= gates);
}

/// What a finished circuit holds: the identity of the builder it came from,
/// the witness values and the gates, each in the order in which they came.
pub struct DescriptionModel {
    pub id: u64,
    pub witnesses: Seq<nat>,
    pub gates: Seq<GateModel>,
}

impl DescriptionModel {
    /// The handle `w` was issued by the builder of this circuit.
    pub open spec fn owns(self, w: WitnessModel) -> bool {
        w.owner == self.id && w.index < self.witnesses.len()
    }

    /// Both witnesses of gate `i` belong to this circuit.
    pub open spec fn gate_valid(self, i: int) -> bool {
        self.owns(self.gates[i].a) && self.owns(self.gates[i].b)
    }

    /// Every gate refers to witnesses of this circuit only.
    pub open spec fn valid(self) -> bool {
        forall|i: int| 0 <= i < self.gates.len() ==> self.gate_valid(i)
    }

    /// The places of the public inputs.
    pub open spec fn public_input_slots(self) -> Seq<nat> {
        slots_of(self.gates)
    }

    /// What compiling the circuit yields, where it is valid.
    pub open spec fn compiled(self) -> CompiledModel {
        CompiledModel {
            id: self.id,
            witnesses: self.witnesses,
            gates: self.gates,
            public_slots: slots_of(self.gates),
        }
    }
}

/// A finished circuit: the frozen witnesses and gates of one builder.
#[derive(Debug)]
pub struct CircuitDescription {
    id: u64,
    witnesses: Vec<FieldElement>,
    gates: Vec<Constraint>,
}

impl View for CircuitDescription {
    type V = DescriptionModel;

    closed spec fn view(&self) -> DescriptionModel {
        DescriptionModel {
            id: self.id,
            witnesses: values_of(self.witnesses@),
            gates: gates_of(self.gates@),
        }
    }
}

/// The places held in `slots`, as natural numbers.
pub open spec fn places_of(slots: Seq<usize>) -> Seq<nat> {
    slots.map_values(|s: usize| s as nat)
}

impl CircuitDescription {
    /// Every value and every coefficient held is a well-formed field element.
    pub closed spec fn wf(&self) -> bool {
        &&& forall|i: int| 0 <= i < self.witnesses@.len() ==> (#[trigger] self.witnesses@[i]).wf()
        &&& forall|i: int| 0 <= i < self.gates@.len() ==> (#[trigger] self.gates@[i]).wf()
    }

    /// The circuit of builder `id` with these witnesses and gates.
    pub(crate) fn assemble(id: u64, witnesses: Vec<FieldElement>, gates: Vec<Constraint>) -> (r:
        CircuitDescription)
        requires
            forall|i: int| 0 <= i < witnesses@.len() ==> (#[trigger] witnesses@[i]).wf(),
            forall|i: int| 0 <= i < gates@.len() ==> (#[trigger] gates@[i]).wf(),
        ensures
            r.wf(),
            r@ == (DescriptionModel {
                id,
                witnesses: values_of(witnesses@),
                gates: gates_of(gates@),
            }),
    {
        CircuitDescription { id, witnesses, gates }
    }

    /// The identity of the builder that the circuit came from.
    pub fn id(&self) -> (r: u64)
        ensures
            r == self@.id,
    {
        self.id
    }

    /// The number of witnesses.
    pub fn witness_count(&self) -> (r: usize)
        ensures
            r == self@.witnesses.len(),
    {
        self.witnesses.len()
    }

    /// The gates, in the order in which they were appended.
    pub fn gates(&self) -> (r: &Vec<Constraint>)
        ensures
            gates_of(r@) == self@.gates,
            self.wf() ==> forall|i: int| 0 <= i < r@.len() ==> (#[trigger] r@[i]).wf(),
    {
        &self.gates
    }

    /// Whether the circuit's builder issued the handle `w`.
    pub fn owns(&self, w: &Witness) -> (r: bool)
        ensures
            r == self@.owns(w@),
    {
        w.owner() == self.id && w.index() < self.witnesses.len()
    }

    /// The places of the gates that declare a public input, in ascending
    /// order: the slots that a verifier fills in, one value for each.
    pub fn public_input_slots(&self) -> (r: Vec<usize>)
        ensures
            places_of(r@) == self@.public_input_slots(),
    {
        let mut slots: Vec<usize> = Vec::new();
        let mut i: usize = 0;
        assert(gates_of(self.gates@).take(0) =~= Seq::empty());
        assert(places_of(slots@) =~= Seq::empty());
        while i < self.gates.len()
            invariant
                i <= self.gates.len(),
                places_of(slots@) == slots_of(gates_of(self.gates@).take(i as int)),
            decreases self.gates.len() - i,
        {
            let ghost before = gates_of(self.gates@).take(i as int);
            let ghost old_slots = slots@;
            proof {
                lemma_slots_of_push(before, self.gates@[i as int]@);
                assert(gates_of(self.gates@).take(i + 1) =~= before.push(self.gates@[i as int]@));
            }
            if self.gates[i].public_offset().is_some() {
                slots.push(i);
                assert(places_of(slots@) =~= places_of(old_slots).push(i as nat));
            }
            i += 1;
        }
        assert(gates_of(self.gates@).take(self.gates.len() as int) =~= gates_of(self.gates@));
        slots
    }

    /// Checks every gate's witnesses against the circuit's table and lays out
    /// the public inputs. The circuit compiles where every gate refers to
    /// witnesses of its own builder, and only there; the result is then a
    /// function of the circuit alone.
    pub fn compile(&self) -> (r: Result<CompiledCircuit, Error>)
        requires
            self.wf(),
        ensures
            self@.valid() ==> r.is_ok() && r.unwrap().wf() && r.unwrap()@ == self@.compiled(),
            !self@.valid() ==> r.is_err() && r.unwrap_err() == Error::InvalidWitnessReference,
    {
        let mut i: usize = 0;
        while i < self.gates.len()
            invariant
                i <= self.gates.len(),
                forall|j: int| 0 <= j < i ==> self@.gate_valid(j),
            decreases self.gates.len() - i,
        {
            let a = self.gates[i].witness_a();
            let b = self.gates[i].witness_b();
            if !self.owns(&a) || !self.owns(&b) {
                assert(!self@.gate_valid(i as int));
                return Err(Error::InvalidWitnessReference);
            }
            i += 1;
        }
        let public_slots = self.public_input_slots();
        Ok(
            CompiledCircuit {
                id: self.id,
                witnesses: copy_vec(&self.witnesses),
                gates: copy_vec(&self.gates),
                public_slots,
            },
        )
    }
}

/// What a compiled circuit holds: a valid circuit and the places of its
/// public inputs.
pub struct CompiledModel {
    pub id: u64,
    pub witnesses: Seq<nat>,
    pub gates: Seq<GateModel>,
    pub public_slots: Seq<nat>,
}

impl CompiledModel {
    /// The circuit that was compiled.
    pub open spec fn description(self) -> DescriptionModel {
        DescriptionModel { id: self.id, witnesses: self.witnesses, gates: self.gates }
    }

    /// The gates refer to witnesses of the circuit only, the slots are the
    /// places of the declaring gates, and every number is a field value.
    pub open spec fn wf(self) -> bool {
        &&& self.description().valid()
        &&& self.public_slots == slots_of(self.gates)
        &&& forall|i: int| 0 <= i < self.witnesses.len() ==> (#[trigger] self.witnesses[i]) < modulus()
        &&& forall|i: int| 0 <= i < self.gates.len() ==> (#[trigger] self.gates[i]).in_field()
    }

    /// The value behind the first witness of gate `i`.
    pub open spec fn value_a(self, i: int) -> nat {
        self.witnesses[self.gates[i].a.index as int]
    }

    /// The value behind the second witness of gate `i`.
    pub open spec fn value_b(self, i: int) -> nat {
        self.witnesses[self.gates[i].b.index as int]
    }

    /// What the witnesses of gate `i` contribute to its relation.
    pub open spec fn gate_sum(self, i: int) -> nat {
        self.gates[i].wire_sum(self.value_a(i), self.value_b(i))
    }

    /// The relation of gate `i` holds of the circuit's own witnesses.
    pub open spec fn gate_holds(self, i: int) -> bool {
        self.gates[i].holds(self.value_a(i), self.value_b(i))
    }

    /// Every gate's relation holds of the circuit's own witnesses.
    pub open spec fn satisfied(self) -> bool {
        forall|i: int| 0 <= i < self.gates.len() ==> self.gate_holds(i)
    }

    /// The public inputs that the circuit declares: for each slot the value
    /// that the witnesses of its gate have to sum to, which is the negated
    /// public offset.
    pub open spec fn public_inputs(self) -> Seq<nat> {
        Seq::new(
            self.public_slots.len(),
            |k: int| field_neg(self.gates[self.public_slots[k] as int].offset()),
        )
    }

    /// The witnesses meet every gate when the declaring gates are held to
    /// `inputs` in place of their own offsets: there is one input for each
    /// slot, gate `public_slots[k]` sums to `inputs[k]`, and every other gate
    /// sums to zero.
    pub open spec fn satisfied_by(self, inputs: Seq<nat>) -> bool {
        &&& inputs.len() == self.public_slots.len()
        &&& forall|k: int|
            0 <= k < self.public_slots.len() ==> self.gate_sum(self.public_slots[k] as int)
                == #[trigger] inputs[k]
        &&& forall|i: int|
            0 <= i < self.gates.len() && !(#[trigger] self.gates[i]).declares_public()
                ==> self.gate_sum(i) == 0
    }
}

/// A circuit that compiled: every gate refers to witnesses of the circuit, and
/// the places of the public inputs are laid out.
#[derive(Debug)]
pub struct CompiledCircuit {
    id: u64,
    witnesses: Vec<FieldElement>,
    gates: Vec<Constraint>,
    public_slots: Vec<usize>,
}

impl View for CompiledCircuit {
    type V = CompiledModel;

    closed spec fn view(&self) -> CompiledModel {
        CompiledModel {
            id: self.id,
            witnesses: values_of(self.witnesses@),
            gates: gates_of(self.gates@),
            public_slots: places_of(self.public_slots@),
        }
    }
}

impl CompiledCircuit {
    /// The model is well-formed and held in well-formed field elements.
    pub closed spec fn wf(&self) -> bool {
        &&& self@.description().valid()
        &&& self@.public_slots == slots_of(self@.gates)
        &&& forall|i: int| 0 <= i < self.witnesses@.len() ==> (#[trigger] self.witnesses@[i]).wf()
        &&& forall|i: int| 0 <= i < self.gates@.len() ==> (#[trigger] self.gates@[i]).wf()
    }

    /// A well-formed compiled circuit has a well-formed model.
    pub proof fn lemma_wf(&self)
        requires
            self.wf(),
        ensures
            self@.wf(),
    {
        assert forall|i: int| 0 <= i < self@.witnesses.len() implies (#[trigger] self@.witnesses[i])
            < modulus() by {
            self.witnesses@[i].lemma_wf();
        }
        assert forall|i: int| 0 <= i < self@.gates.len() implies (#[trigger] self@.gates[i]).in_field() by {
            self.gates@[i].lemma_wf();
        }
    }

    /// The gates, in the order in which they were appended.
    pub fn gates(&self) -> (r: &Vec<Constraint>)
        ensures
            gates_of(r@) == self@.gates,
    {
        &self.gates
    }

    /// The places of the gates that declare a public input, in ascending order.
    pub fn public_input_slots(&self) -> (r: &Vec<usize>)
        ensures
            places_of(r@) == self@.public_slots,
    {
        &self.public_slots
    }

    /// What the witnesses of gate `i` contribute to its relation.
    fn gate_sum(&self, i: usize) -> (r: FieldElement)
        requires
            self.wf(),
            i < self@.gates.len(),
        ensures
            r.wf(),
            r@ == self@.gate_sum(i as int),
    {
        let gate = &self.gates[i];
        assert(self@.description().gate_valid(i as int));
        let a = &self.witnesses[gate.witness_a().index()];
        let b = &self.witnesses[gate.witness_b().index()];
        gate.wire_sum(a, b)
    }

    /// The public inputs that the circuit declares, one for each slot, in the
    /// order of the slots.
    pub fn public_inputs(&self) -> (r: Vec<FieldElement>)
        requires
            self.wf(),
        ensures
            values_of(r@) == self@.public_inputs(),
            forall|k: int| 0 <= k < r@.len() ==> (#[trigger] r@[k]).wf(),
    {
        let mut inputs: Vec<FieldElement> = Vec::new();
        let mut k: usize = 0;
        proof {
            lemma_slots_of(self@.gates);
        }
        while k < self.public_slots.len()
            invariant
                self.wf(),
                k <= self.public_slots.len(),
                inputs@.len() == k,
                forall|j: int| 0 <= j < k ==> (#[trigger] inputs@[j]).wf(),
                forall|j: int| 0 <= j < k ==> (#[trigger] inputs@[j])@ == self@.public_inputs()[j],
                forall|j: int|
                    0 <= j < self@.public_slots.len() ==> (#[trigger] self@.public_slots[j])
                        < self@.gates.len() && self@.gates[self@.public_slots[j] as int].declares_public(),
            decreases self.public_slots.len() - k,
        {
            let slot = self.public_slots[k];
            assert(self@.public_slots[k as int] == slot);
            let gate = &self.gates[slot];
            match gate.public_offset() {
                Some(p) => {
                    inputs.push(p.neg());
                },
                None => {
                    assert(false);
                },
            }
            k += 1;
        }
        assert(values_of(inputs@) =~= self@.public_inputs());
        inputs
    }

    /// Whether the circuit's witnesses meet every gate when the declaring
    /// gates are held to `public_inputs`, slot by slot, in place of their own
    /// offsets.
    pub fn satisfied_by(&self, public_inputs: &Vec<FieldElement>) -> (r: bool)
        requires
            self.wf(),
        ensures
            r == self@.satisfied_by(values_of(public_inputs@)),
    {
        if public_inputs.len() != self.public_slots.len() {
            return false;
        }
        proof {
            lemma_slots_of(self@.gates);
        }
        let ghost inputs = values_of(public_inputs@);
        let mut k: usize = 0;
        while k < self.public_slots.len()
            invariant
                self.wf(),
                inputs == values_of(public_inputs@),
                public_inputs@.len() == self.public_slots@.len(),
                k <= self.public_slots.len(),
                forall|j: int|
                    0 <= j < k ==> self@.gate_sum(self@.public_slots[j] as int) == #[trigger] inputs[j],
                forall|j: int|
                    0 <= j < self@.public_slots.len() ==> (#[trigger] self@.public_slots[j])
                        < self@.gates.len(),
            decreases self.public_slots.len() - k,
        {
            let slot = self.public_slots[k];
            assert(self@.public_slots[k as int] == slot);
            let sum = self.gate_sum(slot);
            if sum != public_inputs[k] {
                assert(self@.gate_sum(self@.public_slots[k as int] as int) != inputs[k as int]);
                return false;
            }
            k += 1;
        }
        let zero = FieldElement::from_u64(0);
        let mut i: usize = 0;
        while i < self.gates.len()
            invariant
                self.wf(),
                zero@ == 0,
                i <= self.gates.len(),
                forall|j: int|
                    0 <= j < i && !(#[trigger] self@.gates[j]).declares_public() ==> self@.gate_sum(
                        j,
                    ) == 0,
            decreases self.gates.len() - i,
        {
            if self.gates[i].public_offset().is_none() {
                let sum = self.gate_sum(i);
                if sum != zero {
                    assert(!self@.gates[i as int].declares_public());
                    return false;
                }
            }
            i += 1;
        }
        true
    }
}

/// Compiling one circuit twice yields the same result: both lists of gates agree
/// gate by gate, in order and in content, with each other and with the
/// circuit's own, and so do the places of the public inputs.
pub proof fn lemma_compile_deterministic(
    d: DescriptionModel,
    first: CompiledModel,
    second: CompiledModel,
)
    requires
        first == d.compiled(),
        second == d.compiled(),
    ensures
        first == second,
        first.gates.len() == d.gates.len(),
        second.gates.len() == d.gates.len(),
        forall|i: int|
            0 <= i < d.gates.len() ==> first.gates[i] == d.gates[i] && second.gates[i] == d.gates[i],
        first.public_slots == second.public_slots,
{
}

/// Constraint lists that state the same relations, gate by gate, are the same
/// lists: a gate list is identified by what it states.
pub proof fn lemma_gates_of_injective(x: Seq<Constraint>, y: Seq<Constraint>)
    requires
        gates_of(x) == gates_of(y),
    ensures
        x == y,
{
    assert(x.len() == gates_of(x).len());
    assert(y.len() == gates_of(y).len());
    assert forall|i: int| 0 <= i < x.len() implies x[i] == y[i] by {
        assert(gates_of(x)[i] == x[i]@);
        assert(gates_of(y)[i] == y[i]@);
        x[i].lemma_view_injective(&y[i]);
    }
    assert(x =~= y);
}

/// A compiled circuit is satisfied by the public inputs that it declares
/// exactly where each of its gates holds of its witnesses.
pub proof fn lemma_satisfied_by_declared_inputs(c: CompiledModel)
    requires
        c.wf(),
    ensures
        c.satisfied_by(c.public_inputs()) <==> c.satisfied(),
{
    lemma_slots_of(c.gates);
    lemma_field_value_bounds(0);
    let inputs = c.public_inputs();
    assert forall|i: int| 0 <= i < c.gates.len() implies (c.gate_holds(i) <==> c.gate_sum(i)
        == field_neg(c.gates[i].offset())) by {
        let g = c.gates[i];
        assert(g.in_field());
        lemma_sum_meets_offset(
            g.left * c.value_a(i) + g.right * c.value_b(i) + g.mult * c.value_a(i) * c.value_b(i),
            g.offset(),
        );
    }
    if c.satisfied_by(inputs) {
        assert forall|i: int| 0 <= i < c.gates.len() implies c.gate_holds(i) by {
            if c.gates[i].declares_public() {
                assert(c.public_slots.contains(i as nat));
                let k = choose|k: int| 0 <= k < c.public_slots.len() && c.public_slots[k] == i as nat;
                assert(c.gate_sum(c.public_slots[k] as int) == inputs[k]);
            } else {
                assert(c.gate_sum(i) == 0);
            }
        }
    }
    if c.satisfied() {
        assert forall|k: int| 0 <= k < c.public_slots.len() implies c.gate_sum(
            c.public_slots[k] as int,
        ) == #[trigger] inputs[k] by {
            assert(c.gate_holds(c.public_slots[k] as int));
        }
        assert forall|i: int|
            0 <= i < c.gates.len() && !(#[trigger] c.gates[i]).declares_public() implies c.gate_sum(i)
            == 0 by {
            assert(c.gate_holds(i));
        }
    }
}

/// A sum and an offset below the field's order cancel in the field exactly
/// where the reduced sum is the offset's additive inverse.
pub proof fn lemma_sum_meets_offset(sum: nat, offset: nat)
    requires
        offset < modulus(),
    ensures
        (sum + offset) % modulus() == 0 <==> sum % modulus() == field_neg(offset),
{
    let p = modulus() as int;
    lemma_field_value_bounds(0);
    let s = (sum % modulus()) as int;
    vstd::arithmetic::div_mod::lemma_add_mod_noop(sum as int, offset as int, p);
    vstd::arithmetic::div_mod::lemma_small_mod(offset, modulus());
    assert((sum + offset) % modulus() == ((s + offset) % p) as nat);
    assert(0 <= s < p) by {
        lemma_field_value_bounds(sum);
    }
    if offset == 0 {
        vstd::arithmetic::div_mod::lemma_mod_self_0(p);
        vstd::arithmetic::div_mod::lemma_small_mod(s as nat, modulus());
    } else {
        vstd::arithmetic::div_mod::lemma_small_mod((modulus() - offset) as nat, modulus());
        if s + offset < p {
            vstd::arithmetic::div_mod::lemma_small_mod((s + offset) as nat, modulus());
        } else {
            vstd::arithmetic::div_mod::lemma_mod_sub_multiples_vanish(s + offset, p);
            vstd::arithmetic::div_mod::lemma_small_mod((s + offset - p) as nat, modulus());
        }
    }
}

/// Two lists of public inputs that both satisfy a circuit are the same list:
/// changing any one input of a satisfying list stops it from satisfying.
pub proof fn lemma_satisfying_inputs_unique(c: CompiledModel, x: Seq<nat>, y: Seq<nat>)
    requires
        c.satisfied_by(x),
        c.satisfied_by(y),
    ensures
        x == y,
{
    assert(x =~= y);
}

} // verus!
