use constraint_builder::builder::ConstraintBuilder;
use constraint_builder::constraint::Constraint;
use constraint_builder::error::Error;
use constraint_builder::field::FieldElement;

#[test]
fn handles_of_equal_values_differ() {
    let mut builder = ConstraintBuilder::new(1);
    let seven = FieldElement::from_u64(7);
    let first = builder.append_witness(seven).unwrap();
    let second = builder.append_witness(seven).unwrap();
    let third = builder.append_witness(FieldElement::from_u64(7)).unwrap();
    assert_ne!(first, second);
    assert_ne!(second, third);
    assert_ne!(first, third);
    assert_eq!(first.index(), 0);
    assert_eq!(second.index(), 1);
    assert_eq!(third.index(), 2);
    assert_eq!(first.owner(), 1);
    assert_eq!(builder.witness_count(), 3);
}

#[test]
fn handles_of_different_builders_differ() {
    let mut one = ConstraintBuilder::new(1);
    let mut two = ConstraintBuilder::new(2);
    let x = one.append_witness(FieldElement::from_u64(4)).unwrap();
    let y = two.append_witness(FieldElement::from_u64(4)).unwrap();
    assert_ne!(x, y);
    assert_eq!(x.index(), y.index());
}

#[test]
fn append_after_finish_fails() {
    let mut builder = ConstraintBuilder::new(9);
    let a = builder.append_witness(FieldElement::from_u64(2)).unwrap();
    let b = builder.append_witness(FieldElement::from_u64(3)).unwrap();
    builder.append_gate(Constraint::new(a, b)).unwrap();
    assert!(!builder.is_finished());
    let description = builder.finish().unwrap();
    assert!(builder.is_finished());
    assert_eq!(description.gates().len(), 1);
    assert_eq!(description.witness_count(), 2);

    assert_eq!(
        builder.append_gate(Constraint::new(a, b)),
        Err(Error::BuilderAlreadyFinished)
    );
    assert_eq!(
        builder.append_witness(FieldElement::from_u64(5)),
        Err(Error::BuilderAlreadyFinished)
    );
    assert_eq!(builder.finish().unwrap_err(), Error::BuilderAlreadyFinished);
    assert_eq!(builder.gate_count(), 1);
    assert_eq!(builder.witness_count(), 2);
}

#[test]
fn gates_keep_their_order() {
    let mut builder = ConstraintBuilder::new(3);
    let a = builder.append_witness(FieldElement::from_u64(2)).unwrap();
    let b = builder.append_witness(FieldElement::from_u64(3)).unwrap();
    let first = Constraint::new(a, b).left(FieldElement::from_u64(1));
    let second = Constraint::new(b, a).mult(FieldElement::from_u64(4));
    builder.append_gate(first).unwrap();
    builder.append_gate(second).unwrap();
    builder.append_gate(first).unwrap();
    let description = builder.finish().unwrap();
    assert_eq!(description.gates(), &vec![first, second, first]);
    assert_eq!(description.id(), 3);
}

#[test]
fn foreign_witness_fails_compilation() {
    let mut ours = ConstraintBuilder::new(1);
    let mut theirs = ConstraintBuilder::new(2);
    let a = ours.append_witness(FieldElement::from_u64(2)).unwrap();
    let x = theirs.append_witness(FieldElement::from_u64(2)).unwrap();
    assert_eq!(ours.append_gate(Constraint::new(a, x)), Ok(()));
    let description = ours.finish().unwrap();
    assert!(description.owns(&a));
    assert!(!description.owns(&x));
    assert_eq!(description.compile().unwrap_err(), Error::InvalidWitnessReference);
}

#[test]
fn unregistered_witness_fails_compilation() {
    let mut large = ConstraintBuilder::new(5);
    let mut small = ConstraintBuilder::new(5);
    large.append_witness(FieldElement::from_u64(1)).unwrap();
    let beyond = large.append_witness(FieldElement::from_u64(1)).unwrap();
    let a = small.append_witness(FieldElement::from_u64(1)).unwrap();
    small.append_gate(Constraint::new(a, a)).unwrap();
    small.append_gate(Constraint::new(beyond, a)).unwrap();
    let description = small.finish().unwrap();
    assert_eq!(description.compile().unwrap_err(), Error::InvalidWitnessReference);
}

#[test]
fn compiling_twice_gives_the_same_gates() {
    let mut builder = ConstraintBuilder::new(1);
    let a = builder.append_witness(FieldElement::from_u64(2)).unwrap();
    let b = builder.append_witness(FieldElement::from_u64(3)).unwrap();
    let five = FieldElement::from_u64(5);
    builder.append_gate(Constraint::new(a, b).left(five).public(five.neg())).unwrap();
    builder.append_gate(Constraint::new(a, b).right(five)).unwrap();
    builder.append_gate(Constraint::new(b, a).mult(five).public(five)).unwrap();
    let description = builder.finish().unwrap();
    let first = description.compile().unwrap();
    let second = description.compile().unwrap();
    assert_eq!(first.gates(), second.gates());
    assert_eq!(first.gates(), description.gates());
    assert_eq!(first.public_input_slots(), second.public_input_slots());
    assert_eq!(first.public_input_slots(), &vec![0usize, 2]);
    assert_eq!(description.public_input_slots(), vec![0usize, 2]);
    assert_eq!(first.public_inputs(), second.public_inputs());
}

#[test]
fn empty_circuit_compiles() {
    let mut builder = ConstraintBuilder::new(0);
    let description = builder.finish().unwrap();
    let compiled = description.compile().unwrap();
    assert!(compiled.gates().is_empty());
    assert!(compiled.public_inputs().is_empty());
    assert!(compiled.satisfied_by(&Vec::new()));
    assert!(!compiled.satisfied_by(&vec![FieldElement::from_u64(0)]));
}
