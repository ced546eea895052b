use transcode_core::duration::extract_duration;

#[test]
fn plain_seconds() {
    assert_eq!(extract_duration("10"), Some(10_000_000));
    assert_eq!(extract_duration("10s"), Some(10_000_000));
    assert_eq!(extract_duration("0"), Some(0));
}

#[test]
fn plain_fraction_is_decimal() {
    assert_eq!(extract_duration("0.5"), Some(500_000));
    assert_eq!(extract_duration("2.5"), Some(2_500_000));
    assert_eq!(extract_duration("1.5s"), Some(1_500_000));
    assert_eq!(extract_duration("10.25"), Some(10_250_000));
    assert_eq!(extract_duration("-2.5"), Some(-2_500_000));
}

#[test]
fn plain_fraction_truncates_past_the_unit_precision() {
    // seconds carry six fraction digits exactly; further digits are cut
    assert_eq!(extract_duration("0.1234567"), Some(123_456));
    assert_eq!(extract_duration("0.123456"), Some(123_456));
    // a sub-microsecond fraction of a microsecond vanishes
    assert_eq!(extract_duration("1.5us"), Some(1));
}

#[test]
fn plain_milliseconds_and_microseconds() {
    assert_eq!(extract_duration("250ms"), Some(250_000));
    assert_eq!(extract_duration("100us"), Some(100));
    assert_eq!(extract_duration("1.5ms"), Some(1_500));
}

#[test]
fn plain_negative() {
    assert_eq!(extract_duration("-30"), Some(-30_000_000));
    assert_eq!(extract_duration("-2ms"), Some(-2_000));
}

#[test]
fn colon_forms() {
    assert_eq!(extract_duration("02:30"), Some(150_000_000));
    assert_eq!(extract_duration("1:02:03"), Some(3_723_000_000));
    assert_eq!(extract_duration("-0:10"), Some(-10_000_000));
}

#[test]
fn colon_fraction_is_milliseconds() {
    assert_eq!(extract_duration("0:03.5"), Some(3_005_000));
    assert_eq!(extract_duration("1:02:03.250"), Some(3_723_250_000));
}

#[test]
fn rejected_tokens() {
    assert_eq!(extract_duration(""), None);
    assert_eq!(extract_duration("abc"), None);
    assert_eq!(extract_duration("10u"), None);
    assert_eq!(extract_duration("10m"), None);
    assert_eq!(extract_duration("12:345"), None);
    assert_eq!(extract_duration("1:2:3:4"), None);
    assert_eq!(extract_duration("1..5"), None);
    assert_eq!(extract_duration("."), None);
    assert_eq!(extract_duration("N/A"), None);
}

#[test]
fn out_of_range_tokens_are_rejected() {
    // magnitudes beyond about 126 years of microseconds are refused
    assert_eq!(extract_duration("99999999999999999"), None);
    assert_eq!(extract_duration("4000000000000001us"), None);
    assert_eq!(extract_duration("4000000000000000us"), Some(4_000_000_000_000_000));
}
