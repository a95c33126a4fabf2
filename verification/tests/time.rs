use pq::time::{parse_time, try_parse_time, TimeRange};

#[test]
fn test_try_parse_time() {
    let tests = [
        ("2021-01-01 00:00:00", 1609459200000),
        ("2021-01-01 00:00:00.00", 1609459200000),
        ("2021-01-01 00:00:00.00000", 1609459200000),
        ("2021-01-01T00:00:00.00000", 1609459200000),
        ("2021-01-01 01:00:00.00000 +0100", 1609459200000),
        ("2020-12-31 14:30:00.00000 -0930", 1609459200000),
        ("2021-01-01T00:00:00+00:00", 1609459200000),
        ("Fri, 1 Jan 2021 00:00:00 +0000", 1609459200000),
        ("01/Jan/2021:00:00:00 -0000", 1609459200000),
        ("1609459200", 1609459200000),
        ("1609459200100", 1609459200100),
    ];

    for (input, expected) in &tests {
        let actual = try_parse_time(input).expect(&format!("failed to parse {}", input));
        assert_eq!(*expected, actual);
    }
}

#[test]
fn try_parse_time_other_digit_counts_are_refused() {
    assert_eq!(None, try_parse_time("160945920"));
    assert_eq!(None, try_parse_time("16094592001"));
    assert_eq!(None, try_parse_time("not a time"));
}

#[test]
fn parse_time_with_and_without_zone() {
    assert_eq!(1609459200000, parse_time("2021-01-01 00:00:00", "%Y-%m-%d %H:%M:%S").unwrap());
    assert_eq!(1609459200000, parse_time("2021-01-01 01:00:00 +0100", "%Y-%m-%d %H:%M:%S %z").unwrap());
    let e = parse_time("yesterday", "%Y-%m-%d").unwrap_err();
    assert!(e.message().starts_with("couldn't parse timestamp: "), "{}", e.message());
}

#[test]
fn time_range_bounds() {
    let r = TimeRange::new(Some(1), Some(2)).unwrap();
    assert_eq!(Some(1), r.start());
    assert_eq!(Some(2), r.end());
    assert!(TimeRange::new(Some(2), Some(2)).is_ok());
    assert!(TimeRange::new(None, Some(i64::MIN)).is_ok());
    let e = TimeRange::new(Some(3), Some(2)).unwrap_err();
    assert_eq!("end time is before start time", e.message());
    let inf = TimeRange::infinity();
    assert_eq!(None, inf.start());
    assert_eq!(None, inf.end());
}
