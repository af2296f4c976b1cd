use echocard::interval::interval_days;

#[test]
fn whole_values_round_to_themselves() {
    assert_eq!(interval_days(1.0f32.to_bits()), 1);
    assert_eq!(interval_days(2.0f32.to_bits()), 2);
    assert_eq!(interval_days(365.0f32.to_bits()), 365);
}

#[test]
fn halves_round_up() {
    assert_eq!(interval_days(0.5f32.to_bits()), 1);
    assert_eq!(interval_days(1.5f32.to_bits()), 2);
    assert_eq!(interval_days(2.5f32.to_bits()), 3);
}

#[test]
fn fractions_round_to_nearest() {
    assert_eq!(interval_days(2.25f32.to_bits()), 2);
    assert_eq!(interval_days(2.75f32.to_bits()), 3);
    assert_eq!(interval_days(8.2956f32.to_bits()), 8);
    assert_eq!(interval_days(1.2931f32.to_bits()), 1);
}

#[test]
fn small_values_get_the_one_day_minimum() {
    assert_eq!(interval_days(0.0f32.to_bits()), 1);
    assert_eq!(interval_days(0.212f32.to_bits()), 1);
    assert_eq!(interval_days(0.4999f32.to_bits()), 1);
    assert_eq!(interval_days(f32::MIN_POSITIVE.to_bits()), 1);
}

#[test]
fn non_positive_and_nan_get_the_one_day_minimum() {
    assert_eq!(interval_days((-0.0f32).to_bits()), 1);
    assert_eq!(interval_days((-3.5f32).to_bits()), 1);
    assert_eq!(interval_days(f32::NEG_INFINITY.to_bits()), 1);
    assert_eq!(interval_days(f32::NAN.to_bits()), 1);
}

#[test]
fn huge_values_saturate() {
    assert_eq!(interval_days(f32::INFINITY.to_bits()), u32::MAX);
    assert_eq!(interval_days(f32::MAX.to_bits()), u32::MAX);
    assert_eq!(interval_days(4_294_967_296.0f32.to_bits()), u32::MAX);
}

#[test]
fn largest_f32_below_u32_max_is_kept_exactly() {
    // 4294967040 = 2^32 - 256 is the largest f32 value below 2^32.
    assert_eq!(interval_days(4_294_967_040.0f32.to_bits()), 4_294_967_040);
}

#[test]
fn matches_float_rounding_on_positive_samples() {
    for x in [0.7f32, 1.49, 1.51, 7.5, 12.25, 100.49, 100.51, 9999.5] {
        let expected = x.round().max(1.0) as u32;
        assert_eq!(interval_days(x.to_bits()), expected, "for {x}");
    }
}
