use clog::render::format_hours;
use clog::render::format_minutes;
use clog::render::u64_to_string;

#[test]
fn decimal_digits_render_exactly() {
    assert_eq!(u64_to_string(0), "0");
    assert_eq!(u64_to_string(7), "7");
    assert_eq!(u64_to_string(10), "10");
    assert_eq!(u64_to_string(1234567890), "1234567890");
    assert_eq!(u64_to_string(u64::MAX), "18446744073709551615");
}

#[test]
fn minutes_display_rounds_to_two_decimals() {
    assert_eq!(format_minutes(0), "0.00 mins");
    assert_eq!(format_minutes(60), "1.00 mins");
    assert_eq!(format_minutes(90), "1.50 mins");
    assert_eq!(format_minutes(754), "12.57 mins");
    // One second is a 60th of a minute: 0.0166..., shown rounded up.
    assert_eq!(format_minutes(1), "0.02 mins");
    assert_eq!(format_minutes(45), "0.75 mins");
    assert_eq!(format_minutes(3600), "60.00 mins");
}

#[test]
fn hours_display_rounds_to_two_decimals() {
    assert_eq!(format_hours(0), "0.00 hours");
    assert_eq!(format_hours(3600), "1.00 hours");
    assert_eq!(format_hours(754), "0.21 hours");
    assert_eq!(format_hours(5400), "1.50 hours");
    // Half of a hundredth of an hour (18 seconds) rounds away from zero.
    assert_eq!(format_hours(18), "0.01 hours");
    assert_eq!(format_hours(17), "0.00 hours");
}

#[test]
fn negative_durations_carry_a_sign() {
    assert_eq!(format_minutes(-90), "-1.50 mins");
    assert_eq!(format_hours(-5400), "-1.50 hours");
    // A magnitude that rounds to zero shows no sign.
    assert_eq!(format_hours(-17), "0.00 hours");
}
