use constraint_builder::field::FieldElement;

/// The field's order, little-endian.
fn order_bytes() -> [u8; 32] {
    let limbs: [u64; 4] = [
        0xffff_ffff_0000_0001,
        0x53bd_a402_fffe_5bfe,
        0x3339_d808_09a1_d805,
        0x73ed_a753_299d_7d48,
    ];
    let mut bytes = [0u8; 32];
    for (i, limb) in limbs.iter().enumerate() {
        bytes[8 * i..8 * i + 8].copy_from_slice(&limb.to_le_bytes());
    }
    bytes
}

#[test]
fn from_u64_encodes_little_endian() {
    let x = FieldElement::from_u64(0x0102_0304_0506_0708);
    let mut expected = [0u8; 32];
    expected[..8].copy_from_slice(&[8, 7, 6, 5, 4, 3, 2, 1]);
    assert_eq!(x.to_bytes(), expected);
    assert_eq!(FieldElement::from_u64(0).to_bytes(), [0u8; 32]);
    assert_eq!(FieldElement::default(), FieldElement::from_u64(0));
}

#[test]
fn sums_and_products() {
    let two = FieldElement::from_u64(2);
    let three = FieldElement::from_u64(3);
    assert_eq!(two.add(&three), FieldElement::from_u64(5));
    assert_eq!(two.mul(&three), FieldElement::from_u64(6));
    assert_ne!(two.add(&three), two);
    assert_ne!(two.mul(&three), three);
    let big = FieldElement::from_u64(u64::MAX);
    let mut expected = [0u8; 32];
    // (2^64 - 1)^2 = 2^128 - 2^65 + 1
    expected[0] = 1;
    expected[8] = 0xfe;
    for byte in expected.iter_mut().take(16).skip(9) {
        *byte = 0xff;
    }
    assert_eq!(big.mul(&big).to_bytes(), expected);
}

#[test]
fn negation_is_the_order_less_the_value() {
    let one = FieldElement::from_u64(1);
    let mut expected = order_bytes();
    expected[0] = 0;
    assert_eq!(one.neg().to_bytes(), expected);
    assert_eq!(one.neg().add(&one), FieldElement::from_u64(0));
    assert_eq!(one.neg().neg(), one);
    assert_ne!(one.neg(), one);
    let zero = FieldElement::from_u64(0);
    assert_eq!(zero.neg(), zero);
}

#[test]
fn sums_wrap_at_the_order() {
    let minus_one = FieldElement::from_u64(1).neg();
    let two = FieldElement::from_u64(2);
    assert_eq!(minus_one.add(&two), FieldElement::from_u64(1));
    assert_eq!(minus_one.mul(&minus_one), FieldElement::from_u64(1));
    assert_eq!(minus_one.mul(&two), two.neg());
}

#[test]
fn from_bytes_accepts_values_below_the_order_only() {
    let order = order_bytes();
    assert_eq!(FieldElement::from_bytes(&order), None);
    assert_eq!(FieldElement::from_bytes(&[0xff; 32]), None);
    let mut above = order;
    above[0] = 2;
    assert_eq!(FieldElement::from_bytes(&above), None);
    let mut below = order;
    below[0] = 0;
    assert_eq!(
        FieldElement::from_bytes(&below),
        Some(FieldElement::from_u64(1).neg())
    );
    let mut five = [0u8; 32];
    five[0] = 5;
    assert_eq!(FieldElement::from_bytes(&five), Some(FieldElement::from_u64(5)));
}

#[test]
fn bytes_round_trip() {
    let x = FieldElement::from_u64(123_456_789).neg();
    assert_eq!(FieldElement::from_bytes(&x.to_bytes()), Some(x));
}
