use tizol::error::SpectrogramError;
use tizol::levels::{
    check_db_arguments, clip_below, floor_negative, magnitude_range, maximum, peak_magnitude,
};

fn words(values: &[f64]) -> Vec<u64> {
    values.iter().map(|value| value.to_bits()).collect()
}

fn buffers() -> Vec<Vec<f64>> {
    vec![
        vec![],
        vec![0.0],
        vec![-0.0, 0.0],
        vec![0.0, -0.0],
        vec![1.0, -3.0, 2.0],
        vec![-80.0, -12.5, 0.0, -40.0, 0.0],
        vec![f64::NAN],
        vec![f64::NAN, -f64::NAN],
        vec![f64::NAN, 2.0, -f64::NAN, -7.0, 7.0],
        vec![f64::NEG_INFINITY],
        vec![f64::NEG_INFINITY, f64::MIN],
        vec![f64::MIN, f64::NEG_INFINITY, -1e300],
        vec![f64::INFINITY, 1.0],
        vec![f64::INFINITY, f64::NEG_INFINITY],
        vec![f64::NAN, f64::INFINITY],
        vec![f64::MAX, f64::MAX],
        vec![5e-324, -5e-324, 1e-10],
        vec![3.0, 3.0, 3.0],
        vec![-3.0, 3.0, -3.0],
    ]
}

#[test]
fn log10_positive_values() {
    assert_eq!(f64::from_bits(floor_negative(0.5f64.log10().to_bits())), 0.0);
    assert_eq!(f64::from_bits(floor_negative(10.0f64.log10().to_bits())), 1.0);
}

#[test]
fn floor_negative_raises_every_word_with_a_sign_bit_to_positive_zero() {
    assert_eq!(floor_negative((-0.3f64).to_bits()), 0.0f64.to_bits());
    assert_eq!(floor_negative((-0.0f64).to_bits()), 0.0f64.to_bits());
    assert_eq!(floor_negative(f64::NEG_INFINITY.to_bits()), 0.0f64.to_bits());
    assert_eq!(floor_negative(0.0f64.log10().to_bits()), 0.0f64.to_bits());
    assert_eq!(floor_negative((-f64::NAN).to_bits()), 0.0f64.to_bits());
}

#[test]
fn floor_negative_keeps_every_word_without_a_sign_bit() {
    for value in [0.0f64, 1e-300, 0.25, 1.0, 3.5, f64::MAX, f64::INFINITY] {
        assert_eq!(floor_negative(value.to_bits()), value.to_bits());
    }
    let no_number = f64::NAN.abs().to_bits();
    assert_eq!(floor_negative(no_number), no_number);
}

#[test]
fn db_arguments_are_refused_when_amin_is_zero_or_less() {
    let top_db = 80.0f64.to_bits();
    for amin in [0.0f64, -0.0, -1e-10, -1.0, f64::NEG_INFINITY] {
        assert_eq!(
            check_db_arguments(amin.to_bits(), top_db),
            Err(SpectrogramError::InvalidArgument)
        );
    }
}

#[test]
fn db_arguments_are_refused_when_top_db_is_negative() {
    let amin = 1e-10f64.to_bits();
    for top_db in [-1e-300f64, -80.0, f64::NEG_INFINITY] {
        assert_eq!(
            check_db_arguments(amin, top_db.to_bits()),
            Err(SpectrogramError::InvalidArgument)
        );
    }
}

#[test]
fn db_arguments_are_accepted_otherwise() {
    assert_eq!(check_db_arguments(1e-10f64.to_bits(), 80.0f64.to_bits()), Ok(()));
    assert_eq!(check_db_arguments(5e-324f64.to_bits(), 0.0f64.to_bits()), Ok(()));
    assert_eq!(check_db_arguments(f64::INFINITY.to_bits(), (-0.0f64).to_bits()), Ok(()));
    // A word that encodes no number is neither zero or less, nor negative.
    assert_eq!(check_db_arguments(f64::NAN.to_bits(), f64::NAN.to_bits()), Ok(()));
}

#[test]
fn db_arguments_agree_with_the_comparisons_of_numbers() {
    let values = [
        0.0f64,
        -0.0,
        1e-10,
        -1e-10,
        80.0,
        -80.0,
        f64::INFINITY,
        f64::NEG_INFINITY,
        f64::NAN,
        -f64::NAN,
    ];
    for amin in values {
        for top_db in values {
            let refused = amin <= 0.0 || top_db < 0.0;
            assert_eq!(
                check_db_arguments(amin.to_bits(), top_db.to_bits()).is_err(),
                refused,
                "amin {amin}, top_db {top_db}"
            );
        }
    }
}

#[test]
fn peak_magnitude_is_the_largest_absolute_value() {
    assert_eq!(peak_magnitude(&words(&[1.0, -3.0, 2.0])), 3.0f64.to_bits());
    assert_eq!(peak_magnitude(&words(&[-0.0])), 0.0f64.to_bits());
    assert_eq!(peak_magnitude(&words(&[])), f64::MIN.to_bits());
    assert_eq!(peak_magnitude(&words(&[f64::NAN])), f64::MIN.to_bits());
}

#[test]
fn peak_magnitude_agrees_with_a_fold_over_numbers() {
    for buffer in buffers() {
        let expected = buffer
            .iter()
            .map(|value| value.abs())
            .fold(f64::MIN, |peak, value| if value > peak { value } else { peak });
        assert_eq!(peak_magnitude(&words(&buffer)), expected.to_bits(), "{buffer:?}");
    }
}

#[test]
fn maximum_is_the_first_of_the_largest_values() {
    assert_eq!(maximum(&words(&[-80.0, -12.5, 0.0, -40.0])), 0.0f64.to_bits());
    assert_eq!(maximum(&words(&[-0.0, 0.0])), (-0.0f64).to_bits());
    assert_eq!(maximum(&words(&[0.0, -0.0])), 0.0f64.to_bits());
    assert_eq!(maximum(&words(&[])), f64::MIN.to_bits());
    assert_eq!(maximum(&words(&[f64::NEG_INFINITY])), f64::MIN.to_bits());
}

#[test]
fn maximum_agrees_with_a_fold_over_numbers() {
    for buffer in buffers() {
        let expected =
            buffer.iter().fold(f64::MIN, |top, value| if *value > top { *value } else { top });
        assert_eq!(maximum(&words(&buffer)), expected.to_bits(), "{buffer:?}");
    }
}

#[test]
fn magnitude_range_gives_the_smallest_and_largest_absolute_value() {
    assert_eq!(
        magnitude_range(&words(&[-80.0, -12.5, 0.0, -40.0])),
        Ok((0.0f64.to_bits(), 80.0f64.to_bits()))
    );
    assert_eq!(
        magnitude_range(&words(&[1.0, -3.0, 2.0])),
        Ok((1.0f64.to_bits(), 3.0f64.to_bits()))
    );
    assert_eq!(magnitude_range(&words(&[])), Ok((f64::MAX.to_bits(), f64::MIN.to_bits())));
}

#[test]
fn magnitude_range_refuses_a_buffer_of_one_magnitude() {
    assert_eq!(magnitude_range(&words(&[0.0])), Err(SpectrogramError::DegenerateRange));
    assert_eq!(magnitude_range(&words(&[0.0, -0.0, 0.0])), Err(SpectrogramError::DegenerateRange));
    assert_eq!(magnitude_range(&words(&[3.0, 3.0, 3.0])), Err(SpectrogramError::DegenerateRange));
    assert_eq!(magnitude_range(&words(&[-3.0, 3.0, -3.0])), Err(SpectrogramError::DegenerateRange));
    assert_eq!(
        magnitude_range(&words(&[f64::NAN, 2.0, -2.0])),
        Err(SpectrogramError::DegenerateRange)
    );
}

#[test]
fn magnitude_range_refuses_a_buffer_of_infinite_magnitudes() {
    assert_eq!(
        magnitude_range(&words(&[f64::INFINITY, f64::NEG_INFINITY])),
        Err(SpectrogramError::DegenerateRange)
    );
    assert_eq!(
        magnitude_range(&words(&[f64::NEG_INFINITY])),
        Err(SpectrogramError::DegenerateRange)
    );
    assert_eq!(
        magnitude_range(&words(&[f64::NAN, f64::INFINITY, f64::INFINITY])),
        Err(SpectrogramError::DegenerateRange)
    );
}

#[test]
fn magnitude_range_spans_from_a_finite_to_an_infinite_magnitude() {
    assert_eq!(
        magnitude_range(&words(&[f64::INFINITY, -2.0])),
        Ok((2.0f64.to_bits(), f64::INFINITY.to_bits()))
    );
    assert_eq!(
        magnitude_range(&words(&[f64::MAX, f64::NEG_INFINITY])),
        Ok((f64::MAX.to_bits(), f64::INFINITY.to_bits()))
    );
    assert_eq!(
        magnitude_range(&words(&[f64::NAN, -f64::NAN])),
        Ok((f64::MAX.to_bits(), f64::MIN.to_bits()))
    );
}

#[test]
fn magnitude_range_agrees_with_a_fold_over_numbers() {
    for buffer in buffers() {
        let numbers: Vec<f64> =
            buffer.iter().map(|value| value.abs()).filter(|value| !value.is_nan()).collect();
        let least = numbers.iter().fold(
            if numbers.is_empty() { f64::MAX } else { f64::INFINITY },
            |least, value| if *value < least { *value } else { least },
        );
        let peak = numbers.iter().fold(f64::MIN, |peak, value| if *value > peak { *value } else { peak });
        let expected = if peak == least {
            Err(SpectrogramError::DegenerateRange)
        } else {
            Ok((least.to_bits(), peak.to_bits()))
        };
        assert_eq!(magnitude_range(&words(&buffer)), expected, "{buffer:?}");
    }
}

#[test]
fn rescaling_by_the_range_sends_the_extremes_to_one_and_zero() {
    let buffer = [-80.0f64, -12.5, 0.0, -40.0];
    let (least, peak) = magnitude_range(&words(&buffer)).unwrap();
    let (least, peak) = (f64::from_bits(least), f64::from_bits(peak));
    let levels: Vec<f64> =
        buffer.iter().map(|value| 1.0 - (value.abs() - least) / (peak - least)).collect();
    assert_eq!(levels, vec![0.0, 0.84375, 1.0, 0.5]);
    assert!(levels.iter().all(|level| (0.0..=1.0).contains(level)));
}

#[test]
fn clip_below_raises_what_is_under_the_floor() {
    let mut buffer = words(&[-120.0, -80.0, -79.5, 0.0, -1000.0, f64::NEG_INFINITY]);
    clip_below(&mut buffer, (-80.0f64).to_bits());
    assert_eq!(buffer, words(&[-80.0, -80.0, -79.5, 0.0, -80.0, -80.0]));
}

#[test]
fn clip_below_replaces_what_encodes_no_number() {
    let mut buffer = words(&[f64::NAN, 1.0]);
    clip_below(&mut buffer, 0.5f64.to_bits());
    assert_eq!(buffer, words(&[0.5, 1.0]));
    let mut kept = words(&[-3.0, 1.0]);
    clip_below(&mut kept, f64::NAN.to_bits());
    assert_eq!(kept, words(&[-3.0, 1.0]));
}

#[test]
fn clip_below_agrees_with_the_larger_of_two_numbers() {
    let floors = [-80.0f64, 0.5, -1e300, f64::NEG_INFINITY, f64::INFINITY];
    for buffer in buffers() {
        for floor in floors {
            let mut clipped = words(&buffer);
            clip_below(&mut clipped, floor.to_bits());
            let expected: Vec<f64> = buffer.iter().map(|value| value.max(floor)).collect();
            assert_eq!(clipped, words(&expected), "{buffer:?} at {floor}");
        }
    }
}
