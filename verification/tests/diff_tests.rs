use iai::diff::percentage_diff;

fn diff_str(new: u64, old: u64) -> String {
    String::from_utf8(percentage_diff(new, old)).unwrap()
}

#[test]
fn no_change_marker_on_equal_values() {
    assert_eq!(diff_str(0, 0), " (No change)");
    assert_eq!(diff_str(1, 1), " (No change)");
    assert_eq!(diff_str(123456789, 123456789), " (No change)");
    assert_eq!(diff_str(u64::MAX, u64::MAX), " (No change)");
}

#[test]
fn small_positive_delta_keeps_full_precision() {
    assert_eq!(diff_str(105, 100), " (+5.000000%)");
    assert_eq!(diff_str(101, 100), " (+1.000000%)");
}

#[test]
fn precision_shrinks_at_each_order_of_magnitude() {
    // The same base, a delta one order of magnitude larger each time:
    // the fractional part loses one digit per threshold crossed.
    assert_eq!(diff_str(105, 100), " (+5.000000%)");
    assert_eq!(diff_str(150, 100), " (+50.00000%)");
    assert_eq!(diff_str(200, 100), " (+100.0000%)");
    assert_eq!(diff_str(1100, 100), " (+1000.000%)");
    assert_eq!(diff_str(10100, 100), " (+10000.00%)");
    assert_eq!(diff_str(100100, 100), " (+100000.0%)");
    assert_eq!(diff_str(1000100, 100), " (+1000000%)");
}

#[test]
fn negative_delta_carries_minus_sign() {
    assert_eq!(diff_str(50, 100), " (-50.00000%)");
    assert_eq!(diff_str(0, 100), " (-100.0000%)");
}

#[test]
fn repeating_fraction_rounds_to_nearest() {
    // (1 - 3) / 3 = -66.666...%, rounded half away from zero at the fifth
    // decimal place.
    assert_eq!(diff_str(1, 3), " (-66.66667%)");
    assert_eq!(diff_str(4, 3), " (+33.33333%)");
}

#[test]
fn zero_baseline_reports_infinity() {
    assert_eq!(diff_str(5, 0), " (  +inf%)");
}
