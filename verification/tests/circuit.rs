use constraint_builder::builder::ConstraintBuilder;
use constraint_builder::circuit::{CircuitExp, TestCircuit, NUM_ADD, NUM_MUL};
use constraint_builder::constraint::Constraint;
use constraint_builder::error::Error;
use constraint_builder::field::FieldElement;

fn scalar(v: u64) -> FieldElement {
    FieldElement::from_u64(v)
}

#[test]
fn sample_circuit_is_satisfied_by_its_public_inputs() {
    let circuit = TestCircuit::new(scalar(2), scalar(3), scalar(5), scalar(6));
    let mut builder = ConstraintBuilder::new(1);
    assert_eq!(circuit.circuit(&mut builder), Ok(()));
    assert_eq!(builder.witness_count(), 2);
    assert_eq!(builder.gate_count(), 429 + 184);
    let description = builder.finish().unwrap();
    let compiled = description.compile().unwrap();

    let gates = compiled.gates();
    assert_eq!(gates.len(), 613);
    for gate in &gates[..429] {
        assert_eq!(gate.left_coeff(), scalar(1));
        assert_eq!(gate.right_coeff(), scalar(1));
        assert_eq!(gate.mult_coeff(), scalar(0));
        assert_eq!(gate.public_offset(), Some(scalar(5).neg()));
        assert_eq!(gate.witness_a().index(), 0);
        assert_eq!(gate.witness_b().index(), 1);
    }
    for gate in &gates[429..] {
        assert_eq!(gate.left_coeff(), scalar(0));
        assert_eq!(gate.right_coeff(), scalar(0));
        assert_eq!(gate.mult_coeff(), scalar(1));
        assert_eq!(gate.public_offset(), Some(scalar(6).neg()));
        assert_eq!(gate.witness_a().index(), 0);
        assert_eq!(gate.witness_b().index(), 1);
    }

    let mut expected = vec![scalar(5); 429];
    expected.extend(vec![scalar(6); 184]);
    let public_inputs = compiled.public_inputs();
    assert_eq!(public_inputs, expected);
    assert_eq!(compiled.public_input_slots(), &(0..613).collect::<Vec<usize>>());
    assert!(compiled.satisfied_by(&public_inputs));

    let mut altered_sum = public_inputs.clone();
    altered_sum[17] = scalar(4);
    assert!(!compiled.satisfied_by(&altered_sum));
    let mut altered_product = public_inputs.clone();
    altered_product[612] = scalar(7);
    assert!(!compiled.satisfied_by(&altered_product));
    let mut short = public_inputs.clone();
    short.pop();
    assert!(!compiled.satisfied_by(&short));
}

#[test]
fn initiate_circuit_is_two_three_five_six() {
    let mut from_parts = ConstraintBuilder::new(4);
    TestCircuit::new(scalar(2), scalar(3), scalar(5), scalar(6))
        .circuit(&mut from_parts)
        .unwrap();
    let mut initiated = ConstraintBuilder::new(4);
    TestCircuit::initiate_circuit().circuit(&mut initiated).unwrap();
    let expected = from_parts.finish().unwrap();
    let got = initiated.finish().unwrap();
    assert_eq!(got.gates(), expected.gates());
    assert_eq!(got.gates().len(), NUM_ADD + NUM_MUL);
    let compiled = got.compile().unwrap();
    assert!(compiled.satisfied_by(&compiled.public_inputs()));
}

#[test]
fn two_instances_give_the_same_gates() {
    let mut first = ConstraintBuilder::new(1);
    let mut second = ConstraintBuilder::new(1);
    TestCircuit::initiate_circuit().circuit(&mut first).unwrap();
    TestCircuit::initiate_circuit().circuit(&mut second).unwrap();
    let first = first.finish().unwrap().compile().unwrap();
    let second = second.finish().unwrap().compile().unwrap();
    assert_eq!(first.gates(), second.gates());
    assert_eq!(first.public_inputs(), second.public_inputs());
}

#[test]
fn gate_counts_are_parameters() {
    let circuit = TestCircuit::initiate_circuit();
    let mut builder = ConstraintBuilder::new(1);
    let kept = builder.append_witness(scalar(9)).unwrap();
    builder.append_gate(Constraint::new(kept, kept)).unwrap();
    circuit.circuit_with(&mut builder, 2, 1).unwrap();
    assert_eq!(builder.witness_count(), 3);
    let description = builder.finish().unwrap();
    let gates = description.gates();
    assert_eq!(gates.len(), 4);
    assert_eq!(gates[0], Constraint::new(kept, kept));
    let add = gates[1];
    assert_eq!(add.witness_a().index(), 1);
    assert_eq!(add.witness_b().index(), 2);
    assert_eq!(add, Constraint::new(add.witness_a(), add.witness_b())
        .left(scalar(1))
        .right(scalar(1))
        .public(scalar(5).neg()));
    assert_eq!(gates[2], add);
    assert_eq!(gates[3], Constraint::new(add.witness_a(), add.witness_b())
        .mult(scalar(1))
        .public(scalar(6).neg()));
    let compiled = description.compile().unwrap();
    assert_eq!(compiled.public_input_slots(), &vec![1usize, 2, 3]);
    assert_eq!(compiled.public_inputs(), vec![scalar(5), scalar(5), scalar(6)]);
    assert!(compiled.satisfied_by(&compiled.public_inputs()));
}

#[test]
fn circuit_without_gates_registers_its_witnesses() {
    let mut builder = ConstraintBuilder::new(1);
    TestCircuit::initiate_circuit().circuit_with(&mut builder, 0, 0).unwrap();
    assert_eq!(builder.witness_count(), 2);
    assert_eq!(builder.gate_count(), 0);
}

#[test]
fn wrong_public_values_are_not_satisfied() {
    let circuit = TestCircuit::new(scalar(2), scalar(3), scalar(6), scalar(6));
    let mut builder = ConstraintBuilder::new(1);
    circuit.circuit_with(&mut builder, 1, 1).unwrap();
    let compiled = builder.finish().unwrap().compile().unwrap();
    assert_eq!(compiled.public_inputs(), vec![scalar(6), scalar(6)]);
    assert!(!compiled.satisfied_by(&compiled.public_inputs()));
    assert!(compiled.satisfied_by(&vec![scalar(5), scalar(6)]));
}

#[test]
fn finished_builder_takes_no_circuit() {
    let mut builder = ConstraintBuilder::new(1);
    builder.finish().unwrap();
    assert_eq!(
        TestCircuit::initiate_circuit().circuit(&mut builder),
        Err(Error::BuilderAlreadyFinished)
    );
    assert_eq!(builder.witness_count(), 0);
    assert_eq!(builder.gate_count(), 0);
}

#[test]
fn default_circuits_are_zero() {
    let mut builder = ConstraintBuilder::new(1);
    TestCircuit::default().circuit_with(&mut builder, 1, 1).unwrap();
    let compiled = builder.finish().unwrap().compile().unwrap();
    assert_eq!(compiled.public_inputs(), vec![scalar(0), scalar(0)]);
    assert!(compiled.satisfied_by(&compiled.public_inputs()));
    let text = format!("{:?}", CircuitExp::default());
    assert!(text.starts_with("CircuitExp"));
}

#[test]
fn test_example() {
    let init_circuit_1 = TestCircuit::new(scalar(2), scalar(3), scalar(5), scalar(6));
    let init_circuit_2 = TestCircuit::new(scalar(2), scalar(3), scalar(5), scalar(6));

    let mut builder_1 = ConstraintBuilder::new(1);
    init_circuit_1.circuit(&mut builder_1).unwrap();
    let compiled_1 = builder_1.finish().unwrap().compile().unwrap();
    let public_inputs_1 = compiled_1.public_inputs();

    let mut builder_2 = ConstraintBuilder::new(2);
    init_circuit_2.circuit(&mut builder_2).unwrap();
    let compiled_2 = builder_2.finish().unwrap().compile().unwrap();
    let public_inputs_2 = compiled_2.public_inputs();

    assert_eq!(public_inputs_1.len(), 613);
    assert_eq!(public_inputs_1, public_inputs_2);
    assert!(compiled_1.satisfied_by(&public_inputs_1));
    assert!(compiled_2.satisfied_by(&public_inputs_1));
}
