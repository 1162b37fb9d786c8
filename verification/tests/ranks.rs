use muninn::rank::{bits_of_rank, rank_of_bits, RANK_LIMIT};

#[test]
fn ranks_order_as_the_numbers_do() {
    let values = [
        f64::NEG_INFINITY,
        -1.0e300,
        -3.5,
        -1.0,
        -1.0e-300,
        -5e-324,
        0.0,
        5e-324,
        1.0e-10,
        0.05,
        1.0,
        2.0,
        3.0,
        3.5,
        1.0e300,
        f64::INFINITY,
    ];
    for i in 0..values.len() {
        for j in 0..values.len() {
            let a = rank_of_bits(values[i].to_bits()).unwrap();
            let b = rank_of_bits(values[j].to_bits()).unwrap();
            assert_eq!(a < b, values[i] < values[j]);
            assert_eq!(a == b, values[i] == values[j]);
        }
    }
}

#[test]
fn rank_of_zero_is_zero_whatever_its_sign() {
    assert_eq!(rank_of_bits(0.0f64.to_bits()), Some(0));
    assert_eq!(rank_of_bits((-0.0f64).to_bits()), Some(0));
    assert_eq!(bits_of_rank(0), Some(0));
}

#[test]
fn rank_of_a_nan_is_none() {
    assert_eq!(rank_of_bits(f64::NAN.to_bits()), None);
    assert_eq!(rank_of_bits((-f64::NAN).to_bits()), None);
    assert_eq!(rank_of_bits(0x7FF0_0000_0000_0001), None);
    assert_eq!(rank_of_bits(u64::MAX), None);
}

#[test]
fn rank_values_are_exact() {
    assert_eq!(rank_of_bits(1.0f64.to_bits()), Some(0x3FF0_0000_0000_0000));
    assert_eq!(rank_of_bits((-1.0f64).to_bits()), Some(-0x3FF0_0000_0000_0000));
    assert_eq!(rank_of_bits(f64::INFINITY.to_bits()), Some(RANK_LIMIT));
    assert_eq!(rank_of_bits(f64::NEG_INFINITY.to_bits()), Some(-RANK_LIMIT));
    assert_eq!(rank_of_bits(1), Some(1));
    assert_eq!(rank_of_bits(0x8000_0000_0000_0001), Some(-1));
}

#[test]
fn bits_come_back_from_their_rank() {
    for v in [-2.5f64, -1.0e-7, 0.0, 1.0e-10, 0.05, 1.0, 6.02e23, f64::INFINITY] {
        let r = rank_of_bits(v.to_bits()).unwrap();
        assert_eq!(bits_of_rank(r), Some(v.to_bits()));
    }
}

#[test]
fn no_value_has_a_rank_beyond_the_limit() {
    assert_eq!(bits_of_rank(RANK_LIMIT + 1), None);
    assert_eq!(bits_of_rank(-RANK_LIMIT - 1), None);
    assert_eq!(bits_of_rank(i64::MAX), None);
    assert_eq!(bits_of_rank(i64::MIN), None);
    assert_eq!(bits_of_rank(RANK_LIMIT), Some(f64::INFINITY.to_bits()));
    assert_eq!(bits_of_rank(-RANK_LIMIT), Some(f64::NEG_INFINITY.to_bits()));
}
