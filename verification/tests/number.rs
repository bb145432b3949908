use sensor_table::number::{ranks_above, sort_values, zero, ONE, TWO, ZERO};

#[test]
fn constants_are_the_patterns_of_their_numbers() {
    assert_eq!(ZERO, 0.0f64.to_bits());
    assert_eq!(ONE, 1.0f64.to_bits());
    assert_eq!(TWO, 2.0f64.to_bits());
}

#[test]
fn both_zeros_are_zero() {
    assert!(zero(0.0f64.to_bits()));
    assert!(zero((-0.0f64).to_bits()));
    assert!(!zero(1e-300f64.to_bits()));
    assert!(!zero(f64::NAN.to_bits()));
}

#[test]
fn rank_is_numeric_order() {
    let samples = [
        f64::NEG_INFINITY, -1e300, -2.5, -1.0, -1e-300, -0.0, 0.0, 5e-324, 1.0, 2.5, 1e300, f64::INFINITY,
    ];
    for a in samples {
        for b in samples {
            assert_eq!(ranks_above(a.to_bits(), b.to_bits()), a > b, "{} {}", a, b);
        }
    }
}

#[test]
fn sort_orders_numbers_and_keeps_equal_ranks_in_place() {
    let input: Vec<u64> = [3.0, -1.0, 2.0, -0.0, 0.0, 1e9, -7.5].iter().map(|x: &f64| x.to_bits()).collect();
    let sorted = sort_values(&input);
    let expected: Vec<u64> = [-7.5, -1.0, -0.0, 0.0, 2.0, 3.0, 1e9].iter().map(|x: &f64| x.to_bits()).collect();
    assert_eq!(sorted, expected);
    assert_eq!(sort_values(&Vec::new()), Vec::<u64>::new());
}
