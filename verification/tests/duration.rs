use vn_time_tracker::duration::{format_duration, parse_duration};

#[test]
fn format_zero() {
    assert_eq!(format_duration(0), "0h 0m 0s");
}

#[test]
fn format_small_values() {
    assert_eq!(format_duration(1), "0h 0m 1s");
    assert_eq!(format_duration(59), "0h 0m 59s");
    assert_eq!(format_duration(60), "0h 1m 0s");
    assert_eq!(format_duration(65), "0h 1m 5s");
    assert_eq!(format_duration(3599), "0h 59m 59s");
    assert_eq!(format_duration(3600), "1h 0m 0s");
    assert_eq!(format_duration(3661), "1h 1m 1s");
    assert_eq!(format_duration(7325), "2h 2m 5s");
}

#[test]
fn format_hours_unbounded() {
    assert_eq!(format_duration(90000), "25h 0m 0s");
    assert_eq!(format_duration(1000000000), "277777h 46m 40s");
}

#[test]
fn round_trip_samples() {
    for s in [
        0u64,
        1,
        59,
        60,
        61,
        3599,
        3600,
        3661,
        65,
        86400,
        123456789,
        1000000000,
    ] {
        assert_eq!(parse_duration(&format_duration(s)), s);
    }
}

#[test]
fn parse_empty_is_zero() {
    assert_eq!(parse_duration(""), 0);
    assert_eq!(parse_duration("   "), 0);
}

#[test]
fn parse_canonical() {
    assert_eq!(parse_duration("1h 1m 5s"), 3665);
    assert_eq!(parse_duration("0h 0m 0s"), 0);
    assert_eq!(parse_duration("277777h 46m 40s"), 1000000000);
}

#[test]
fn parse_missing_components() {
    assert_eq!(parse_duration("90m"), 5400);
    assert_eq!(parse_duration("2h"), 7200);
    assert_eq!(parse_duration("7s"), 7);
}

#[test]
fn parse_out_of_order_tokens() {
    assert_eq!(parse_duration("5s 1h"), 3605);
}

#[test]
fn parse_last_token_of_unit_wins() {
    assert_eq!(parse_duration("2h 1h"), 3600);
    assert_eq!(parse_duration("5s 9s"), 9);
}

#[test]
fn parse_unparseable_tokens_contribute_zero() {
    assert_eq!(parse_duration("xh 5s"), 5);
    assert_eq!(parse_duration("10"), 0);
    assert_eq!(parse_duration("h m s"), 0);
    assert_eq!(parse_duration("1.5h 5s"), 5);
}

#[test]
fn parse_overflowing_token_contributes_zero() {
    assert_eq!(parse_duration("99999999999999999999999h 5s"), 5);
}

#[test]
fn parse_accepts_leading_plus() {
    assert_eq!(parse_duration("+5s"), 5);
    assert_eq!(parse_duration("++5s"), 0);
}

#[test]
fn parse_surrounding_whitespace() {
    assert_eq!(parse_duration("  7s  "), 7);
    assert_eq!(parse_duration("\t1h\n2m\r3s"), 3723);
}

#[test]
fn parse_unicode_whitespace_separators() {
    assert_eq!(parse_duration("1h\u{a0}2m"), 3720);
    assert_eq!(parse_duration("1h\u{3000}2m\u{2028}3s"), 3723);
    assert_eq!(parse_duration("\u{2003}7s\u{202f}"), 7);
}

#[test]
fn parse_saturates_at_max() {
    assert_eq!(parse_duration("18446744073709551615s"), u64::MAX);
    assert_eq!(parse_duration("5124095576030432h"), u64::MAX);
}
