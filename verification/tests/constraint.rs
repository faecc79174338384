use constraint_builder::builder::ConstraintBuilder;
use constraint_builder::constraint::Constraint;
use constraint_builder::field::FieldElement;

fn scalar(v: u64) -> FieldElement {
    FieldElement::from_u64(v)
}

#[test]
fn new_constraint_is_zero() {
    let mut builder = ConstraintBuilder::new(11);
    let a = builder.append_witness(scalar(1)).unwrap();
    let b = builder.append_witness(scalar(1)).unwrap();
    let gate = Constraint::new(a, b);
    assert_eq!(gate.left_coeff(), scalar(0));
    assert_eq!(gate.right_coeff(), scalar(0));
    assert_eq!(gate.mult_coeff(), scalar(0));
    assert_eq!(gate.public_offset(), None);
    assert_eq!(gate.witness_a(), a);
    assert_eq!(gate.witness_b(), b);
    assert_eq!(builder.id(), 11);
}

#[test]
fn setters_change_one_part_each() {
    let mut builder = ConstraintBuilder::new(1);
    let a = builder.append_witness(scalar(1)).unwrap();
    let b = builder.append_witness(scalar(1)).unwrap();
    let gate = Constraint::new(a, a)
        .left(scalar(2))
        .right(scalar(3))
        .mult(scalar(4))
        .public(scalar(5))
        .b(b);
    assert_eq!(gate.left_coeff(), scalar(2));
    assert_eq!(gate.right_coeff(), scalar(3));
    assert_eq!(gate.mult_coeff(), scalar(4));
    assert_eq!(gate.public_offset(), Some(scalar(5)));
    assert_eq!(gate.witness_a(), a);
    assert_eq!(gate.witness_b(), b);
    let swapped = gate.a(b).b(a).left(scalar(9));
    assert_eq!(swapped.witness_a(), b);
    assert_eq!(swapped.witness_b(), a);
    assert_eq!(swapped.left_coeff(), scalar(9));
    assert_eq!(swapped.right_coeff(), scalar(3));
    assert_eq!(swapped.public_offset(), Some(scalar(5)));
    assert_ne!(swapped, gate);
}

#[test]
fn wire_sum_is_the_weighted_sum() {
    let mut builder = ConstraintBuilder::new(1);
    let a = builder.append_witness(scalar(5)).unwrap();
    let b = builder.append_witness(scalar(6)).unwrap();
    let gate = Constraint::new(a, b).left(scalar(2)).right(scalar(3)).mult(scalar(4));
    // 2 * 5 + 3 * 6 + 4 * 5 * 6
    assert_eq!(gate.wire_sum(&scalar(5), &scalar(6)), scalar(148));
    let declared = gate.public(scalar(148).neg());
    assert_eq!(declared.wire_sum(&scalar(5), &scalar(6)), scalar(148));
    assert_eq!(Constraint::new(a, b).wire_sum(&scalar(5), &scalar(6)), scalar(0));
    let minus_one = scalar(1).neg();
    let difference = Constraint::new(a, b).left(scalar(1)).right(minus_one);
    assert_eq!(difference.wire_sum(&scalar(5), &scalar(6)), minus_one);
}

#[test]
fn gates_without_public_input_sum_to_zero() {
    let mut builder = ConstraintBuilder::new(1);
    let a = builder.append_witness(scalar(4)).unwrap();
    let b = builder.append_witness(scalar(4)).unwrap();
    let c = builder.append_witness(scalar(5)).unwrap();
    let equal = |x, y| Constraint::new(x, y).left(scalar(1)).right(scalar(1).neg());
    builder.append_gate(equal(a, b)).unwrap();
    let satisfied = builder.finish().unwrap().compile().unwrap();
    assert!(satisfied.public_input_slots().is_empty());
    assert!(satisfied.public_inputs().is_empty());
    assert!(satisfied.satisfied_by(&Vec::new()));

    let mut builder = ConstraintBuilder::new(1);
    let a = builder.append_witness(scalar(4)).unwrap();
    builder.append_witness(scalar(4)).unwrap();
    let c2 = builder.append_witness(scalar(5)).unwrap();
    assert_eq!(c, c2);
    builder.append_gate(equal(a, c2)).unwrap();
    let unsatisfied = builder.finish().unwrap().compile().unwrap();
    assert!(!unsatisfied.satisfied_by(&Vec::new()));
}

#[test]
fn mixed_gates_take_inputs_by_slot() {
    let mut builder = ConstraintBuilder::new(1);
    let a = builder.append_witness(scalar(2)).unwrap();
    let b = builder.append_witness(scalar(3)).unwrap();
    let zero_sum = Constraint::new(a, a).left(scalar(1)).right(scalar(1).neg());
    let sum = Constraint::new(a, b).left(scalar(1)).right(scalar(1)).public(scalar(5).neg());
    let product = Constraint::new(a, b).mult(scalar(1)).public(scalar(6).neg());
    builder.append_gate(zero_sum).unwrap();
    builder.append_gate(sum).unwrap();
    builder.append_gate(zero_sum).unwrap();
    builder.append_gate(product).unwrap();
    let compiled = builder.finish().unwrap().compile().unwrap();
    assert_eq!(compiled.public_input_slots(), &vec![1usize, 3]);
    assert_eq!(compiled.public_inputs(), vec![scalar(5), scalar(6)]);
    assert!(compiled.satisfied_by(&vec![scalar(5), scalar(6)]));
    assert!(!compiled.satisfied_by(&vec![scalar(6), scalar(5)]));
    assert!(!compiled.satisfied_by(&vec![scalar(5)]));
    assert!(!compiled.satisfied_by(&vec![scalar(5), scalar(6), scalar(0)]));
}
