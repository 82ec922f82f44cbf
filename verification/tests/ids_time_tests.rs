use compute_telemetry::ids::{push_decimal, GlobalId};
use compute_telemetry::scalar::{abs_int32, bit_not_int32, neg_int32};
use compute_telemetry::time::{bucket, bucket_ms, next_power_of_two};

#[test]
fn identifiers_render_with_their_namespace() {
    assert_eq!(GlobalId::User(42).to_text(), "u42");
    assert_eq!(GlobalId::System(0).to_text(), "s0");
    assert_eq!(GlobalId::Transient(907).to_text(), "t907");
    assert_eq!(GlobalId::Explain.to_text(), "Explained");
}

#[test]
fn decimals_render_digit_by_digit() {
    let mut s = String::new();
    push_decimal(&mut s, 0);
    assert_eq!(s, "0");
    let mut s = String::from("x");
    push_decimal(&mut s, 1034);
    assert_eq!(s, "x1034");
    let mut s = String::new();
    push_decimal(&mut s, u64::MAX);
    assert_eq!(s, "18446744073709551615");
}

#[test]
fn granularity_is_at_least_one_millisecond() {
    assert_eq!(bucket_ms(0), 1);
    assert_eq!(bucket_ms(999_999), 1);
    assert_eq!(bucket_ms(1_000_000), 1);
    assert_eq!(bucket_ms(25_000_000), 25);
}

#[test]
fn buckets_are_the_next_boundary_strictly_after() {
    assert_eq!(bucket(0, 10), Some(10));
    assert_eq!(bucket(9, 10), Some(10));
    assert_eq!(bucket(10, 10), Some(20));
    assert_eq!(bucket(12, 1), Some(13));
    assert_eq!(bucket(u64::MAX, u64::MAX), None);
    assert_eq!(bucket(u64::MAX - 1, u64::MAX), Some(u64::MAX));
}

#[test]
fn delays_round_up_to_powers_of_two() {
    assert_eq!(next_power_of_two(0), Some(1));
    assert_eq!(next_power_of_two(1), Some(1));
    assert_eq!(next_power_of_two(2), Some(2));
    assert_eq!(next_power_of_two(3), Some(4));
    assert_eq!(next_power_of_two(500), Some(512));
    assert_eq!(next_power_of_two(512), Some(512));
    assert_eq!(next_power_of_two(1 << 63), Some(1 << 63));
    assert_eq!(next_power_of_two((1 << 63) + 1), None);
}

#[test]
fn scalar_functions_compute_exactly() {
    assert_eq!(neg_int32(5), -5);
    assert_eq!(neg_int32(-5), 5);
    assert_eq!(bit_not_int32(0), -1);
    assert_eq!(bit_not_int32(-1), 0);
    assert_eq!(abs_int32(-7), 7);
    assert_eq!(abs_int32(7), 7);
    assert_eq!(abs_int32(0), 0);
}
