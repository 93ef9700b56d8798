use tizol::word::{
    below, encodes_no_number, magnitude, sign_bit_set, INFINITY, LARGEST, LOWEST, SIGN_BIT, ZERO,
};

fn specimens() -> Vec<f64> {
    vec![
        0.0,
        -0.0,
        5e-324,
        -5e-324,
        f64::MIN_POSITIVE,
        -f64::MIN_POSITIVE,
        1e-10,
        0.5,
        -0.5,
        1.0,
        -1.0,
        1.0000000000000002,
        80.0,
        -80.0,
        441000.0,
        f64::MAX,
        f64::MIN,
        f64::INFINITY,
        f64::NEG_INFINITY,
        f64::NAN,
        -f64::NAN,
        f64::from_bits(0x7ff0_0000_0000_0001),
        f64::from_bits(0xffff_ffff_ffff_ffff),
    ]
}

#[test]
fn constants_are_the_words_of_the_numbers_they_name() {
    assert_eq!(ZERO, 0.0f64.to_bits());
    assert_eq!(SIGN_BIT, (-0.0f64).to_bits());
    assert_eq!(INFINITY, f64::INFINITY.to_bits());
    assert_eq!(LARGEST, f64::MAX.to_bits());
    assert_eq!(LOWEST, f64::MIN.to_bits());
}

#[test]
fn below_agrees_with_the_order_of_numbers() {
    for left in specimens() {
        for right in specimens() {
            assert_eq!(below(left.to_bits(), right.to_bits()), left < right, "{left} < {right}");
        }
    }
}

#[test]
fn magnitude_is_the_word_of_the_absolute_value() {
    for value in specimens() {
        assert_eq!(magnitude(value.to_bits()), value.abs().to_bits());
    }
    assert_eq!(magnitude((-1.5f64).to_bits()), 1.5f64.to_bits());
}

#[test]
fn sign_bit_set_agrees_with_the_sign_of_numbers() {
    for value in specimens() {
        assert_eq!(sign_bit_set(value.to_bits()), value.is_sign_negative());
    }
    assert!(sign_bit_set((-0.0f64).to_bits()));
    assert!(!sign_bit_set(0.0f64.to_bits()));
}

#[test]
fn encodes_no_number_agrees_with_is_nan() {
    for value in specimens() {
        assert_eq!(encodes_no_number(value.to_bits()), value.is_nan());
    }
    assert!(!encodes_no_number(f64::INFINITY.to_bits()));
    assert!(encodes_no_number(f64::INFINITY.to_bits() + 1));
}
