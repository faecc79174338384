//! The builder: the one place where witnesses are registered and gates are
//! appended, in order, until the circuit is frozen.

use crate::constraint::{Constraint, GateModel, Witness, WitnessModel};
use crate::description::{CircuitDescription, DescriptionModel};
use crate::error::Error;
use crate::field::FieldElement;
use vstd::prelude::*;

verus! {

/// The values of a sequence of field elements.
pub open spec fn values_of(s: Seq<FieldElement>) -> Seq<nat> {
    s.map_values(|e: FieldElement| e@)
}

/// The relations stated by a sequence of constraints.
pub open spec fn gates_of(s: Seq<Constraint>) -> Seq<GateModel> {
    s.map_values(|c: Constraint| c@)
}

/// A copy of `v`.
pub(crate) fn copy_vec<T: Copy>(v: &Vec<T>) -> (r: Vec<T>)
    ensures
        r@ == v@,
{
    let mut r: Vec<T> = Vec::new();
    let mut i: usize = 0;
    while i < v.len()
        invariant
            i <= v.len(),
            r@ == v@.take(i as int),
        decreases v.len() - i,
    {
        r.push(v[i]);
        assert(v@.take(i + 1) =~= v@.take(i as int).push(v@[i as int]));
        i += 1;
    }
    assert(v@.take(v.len() as int) =~= v@);
    r
}

/// What a builder holds: its identity, the witness values in the order of
/// their registration, the gates in the order of their appending, and whether
/// it has been finished.
pub struct BuilderModel {
    pub id: u64,
    pub witnesses: Seq<nat>,
    pub gates: Seq<GateModel>,
    pub finished: bool,
}

impl BuilderModel {
    /// The builder issued the handle `w`.
    pub open spec fn owns(self, w: WitnessModel) -> bool {
        w.owner == self.id && w.index < self.witnesses.len()
    }

    /// The circuit as it stands, without the builder's state.
    pub open spec fn description(self) -> DescriptionModel {
        DescriptionModel { id: self.id, witnesses: self.witnesses, gates: self.gates }
    }

    /// The handle that the next registration returns: the first free place
    /// of the table.
    pub open spec fn next_witness(self) -> WitnessModel {
        WitnessModel { owner: self.id, index: self.witnesses.len() }
    }

    /// The builder after `value` was registered.
    pub open spec fn with_witness(self, value: nat) -> BuilderModel {
        BuilderModel { witnesses: self.witnesses.push(value), ..self }
    }

    /// The builder after `gate` was appended.
    pub open spec fn with_gate(self, gate: GateModel) -> BuilderModel {
        BuilderModel { gates: self.gates.push(gate), ..self }
    }

    /// The builder after it was finished.
    pub open spec fn frozen(self) -> BuilderModel {
        BuilderModel { finished: true, ..self }
    }

    /// The builder after `values` were registered one after another.
    pub open spec fn with_witnesses(self, values: Seq<nat>) -> BuilderModel
        decreases values.len(),
    {
        if values.len() == 0 {
            self
        } else {
            self.with_witnesses(values.drop_last()).with_witness(values.last())
        }
    }

    /// The handles returned while `values` were registered one after another.
    pub open spec fn handles_for(self, values: Seq<nat>) -> Seq<WitnessModel>
        decreases values.len(),
    {
        if values.len() == 0 {
            Seq::empty()
        } else {
            self.handles_for(values.drop_last()).push(
                self.with_witnesses(values.drop_last()).next_witness(),
            )
        }
    }
}

/// Registering values one after another hands out a handle for each, in
/// order, and any two of them differ, whether or not their values do. None of
/// them was issued before, and the builder owns all of them afterwards.
pub proof fn lemma_handles_distinct(before: BuilderModel, values: Seq<nat>)
    ensures
        before.handles_for(values).len() == values.len(),
        before.with_witnesses(values).id == before.id,
        before.with_witnesses(values).witnesses == before.witnesses + values,
        forall|i: int|
            0 <= i < values.len() ==> (#[trigger] before.handles_for(values)[i]) == (WitnessModel {
                owner: before.id,
                index: (before.witnesses.len() + i) as nat,
            }),
        forall|i: int, j: int|
            0 <= i < j < values.len() ==> before.handles_for(values)[i] != before.handles_for(
                values,
            )[j],
        forall|i: int|
            0 <= i < values.len() ==> !before.owns(#[trigger] before.handles_for(values)[i])
                && before.with_witnesses(values).owns(before.handles_for(values)[i]),
    decreases values.len(),
{
    if values.len() > 0 {
        let front = values.drop_last();
        lemma_handles_distinct(before, front);
        assert(before.witnesses + values =~= (before.witnesses + front).push(values.last()));
    } else {
        assert(before.witnesses + values =~= before.witnesses);
    }
}

/// A gate with a witness that the builder does not own makes the circuit
/// invalid as soon as it is appended, so that compiling the circuit fails.
pub proof fn lemma_unowned_witness_invalidates(before: BuilderModel, gate: GateModel)
    requires
        !before.owns(gate.a) || !before.owns(gate.b),
    ensures
        !before.with_gate(gate).description().valid(),
{
    let d = before.with_gate(gate).description();
    assert(!d.gate_valid(before.gates.len() as int));
}

/// A gate with a witness of another builder keeps the circuit invalid
/// whatever is registered or appended after it: no circuit of this builder
/// that holds that gate compiles.
pub proof fn lemma_foreign_witness_never_valid(d: DescriptionModel, i: int)
    requires
        0 <= i < d.gates.len(),
        d.gates[i].a.owner != d.id || d.gates[i].b.owner != d.id,
    ensures
        !d.valid(),
{
    assert(!d.gate_valid(i));
}

/// Accumulates the witnesses and gates of one circuit. It starts out building
/// and is finished once; nothing leads back.
#[derive(Debug)]
pub struct ConstraintBuilder {
    id: u64,
    witnesses: Vec<FieldElement>,
    gates: Vec<Constraint>,
    finished: bool,
}

impl View for ConstraintBuilder {
    type V = BuilderModel;

    closed spec fn view(&self) -> BuilderModel {
        BuilderModel {
            id: self.id,
            witnesses: values_of(self.witnesses@),
            gates: gates_of(self.gates@),
            finished: self.finished,
        }
    }
}

impl ConstraintBuilder {
    /// Every value and every coefficient held is a well-formed field element.
    pub closed spec fn wf(&self) -> bool {
        &&& forall|i: int| 0 <= i < self.witnesses@.len() ==> (#[trigger] self.witnesses@[i]).wf()
        &&& forall|i: int| 0 <= i < self.gates@.len() ==> (#[trigger] self.gates@[i]).wf()
    }

    /// An empty builder with the identity `id`. Handles are told apart by the
    /// identity of the builder that issued them, so builders whose handles may
    /// meet are given different identities.
    pub fn new(id: u64) -> (r: ConstraintBuilder)
        ensures
            r.wf(),
            r@ == (BuilderModel { id, witnesses: Seq::empty(), gates: Seq::empty(), finished: false }),
    {
        let r = ConstraintBuilder { id, witnesses: Vec::new(), gates: Vec::new(), finished: false };
        assert(values_of(r.witnesses@) =~= Seq::empty());
        assert(gates_of(r.gates@) =~= Seq::empty());
        r
    }

    /// The builder's identity.
    pub fn id(&self) -> (r: u64)
        ensures
            r == self@.id,
    {
        self.id
    }

    /// Whether the builder has been finished.
    pub fn is_finished(&self) -> (r: bool)
        ensures
            r == self@.finished,
    {
        self.finished
    }

    /// The number of witnesses registered.
    pub fn witness_count(&self) -> (r: usize)
        ensures
            r == self@.witnesses.len(),
    {
        self.witnesses.len()
    }

    /// The number of gates appended.
    pub fn gate_count(&self) -> (r: usize)
        ensures
            r == self@.gates.len(),
    {
        self.gates.len()
    }

    /// Registers a private value and returns the handle on it: the next free
    /// place of this builder's table, which no handle issued before stands
    /// for. A finished builder registers nothing.
    pub fn append_witness(&mut self, value: FieldElement) -> (r: Result<Witness, Error>)
        requires
            old(self).wf(),
            value.wf(),
        ensures
            final(self).wf(),
            old(self)@.finished ==> r == Err::<Witness, Error>(Error::BuilderAlreadyFinished)
                && final(self)@ == old(self)@,
            !old(self)@.finished ==> r.is_ok() && r.unwrap()@ == old(self)@.next_witness()
                && final(self)@ == old(self)@.with_witness(value@),
            !old(self)@.finished ==> !old(self)@.owns(r.unwrap()@) && final(self)@.owns(
                r.unwrap()@,
            ),
    {
        if self.finished {
            return Err(Error::BuilderAlreadyFinished);
        }
        let w = Witness::issue(self.id, self.witnesses.len());
        self.witnesses.push(value);
        assert(values_of(self.witnesses@) =~= values_of(old(self).witnesses@).push(value@));
        Ok(w)
    }

    /// Appends one gate behind those appended before. Its witnesses are not
    /// looked at here: a handle that this builder did not issue is found when
    /// the circuit is compiled. A finished builder appends nothing.
    pub fn append_gate(&mut self, constraint: Constraint) -> (r: Result<(), Error>)
        requires
            old(self).wf(),
            constraint.wf(),
        ensures
            final(self).wf(),
            old(self)@.finished ==> r == Err::<(), Error>(Error::BuilderAlreadyFinished)
                && final(self)@ == old(self)@,
            !old(self)@.finished ==> r.is_ok() && final(self)@ == old(self)@.with_gate(constraint@),
    {
        if self.finished {
            return Err(Error::BuilderAlreadyFinished);
        }
        self.gates.push(constraint);
        assert(gates_of(self.gates@) =~= gates_of(old(self).gates@).push(constraint@));
        Ok(())
    }

    /// Freezes the builder and returns the circuit accumulated so far. A
    /// builder is finished once: the second call fails.
    pub fn finish(&mut self) -> (r: Result<CircuitDescription, Error>)
        requires
            old(self).wf(),
        ensures
            final(self).wf(),
            old(self)@.finished ==> r.is_err() && r.unwrap_err()
                == Error::BuilderAlreadyFinished && final(self)@ == old(self)@,
            !old(self)@.finished ==> r.is_ok() && r.unwrap().wf() && r.unwrap()@ == old(
                self)@.description() && final(self)@ == old(self)@.frozen(),
    {
        if self.finished {
            return Err(Error::BuilderAlreadyFinished);
        }
        self.finished = true;
        let witnesses = copy_vec(&self.witnesses);
        let gates = copy_vec(&self.gates);
        Ok(CircuitDescription::assemble(self.id, witnesses, gates))
    }
}

} // verus!
