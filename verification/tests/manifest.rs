use ries_rs::manifest::{chrono_like_timestamp, days_to_ymd, is_leap_year};

#[test]
fn test_timestamp_format() {
    let ts = chrono_like_timestamp(1705318245);
    assert!(ts.starts_with("2024-01-"));
    assert!(ts.ends_with("Z"));
}

#[test]
fn test_leap_year() {
    assert!(is_leap_year(2024));
    assert!(!is_leap_year(2023));
    assert!(!is_leap_year(1900));
    assert!(is_leap_year(2000));
}

#[test]
fn test_timestamp_leap_year_feb29() {
    let ts = chrono_like_timestamp(951782400);
    assert!(ts.starts_with("2000-02-29"), "got: {}", ts);
}

#[test]
fn test_timestamp_year_boundary() {
    let ts = chrono_like_timestamp(946684799);
    assert!(ts.starts_with("1999-12-31"), "got: {}", ts);
    let ts2 = chrono_like_timestamp(946684800);
    assert!(ts2.starts_with("2000-01-01"), "got: {}", ts2);
}

#[test]
fn test_leap_year_century_rules() {
    assert!(!is_leap_year(1900));
    assert!(!is_leap_year(2100));
    assert!(is_leap_year(2000));
    assert!(is_leap_year(2400));
}

#[test]
fn timestamp_exact_text() {
    assert_eq!(chrono_like_timestamp(1705318245), "2024-01-15T11:30:45Z");
    assert_eq!(chrono_like_timestamp(0), "1970-01-01T00:00:00Z");
    assert_eq!(chrono_like_timestamp(86399), "1970-01-01T23:59:59Z");
}

#[test]
fn days_to_ymd_epoch_and_leap_days() {
    assert_eq!(days_to_ymd(0), (1970, 1, 1));
    assert_eq!(days_to_ymd(31), (1970, 2, 1));
    assert_eq!(days_to_ymd(365), (1971, 1, 1));
    // 1972 is a leap year: day 789 after the epoch is 1972-02-29.
    assert_eq!(days_to_ymd(789), (1972, 2, 29));
    assert_eq!(days_to_ymd(790), (1972, 3, 1));
}

#[test]
fn days_to_ymd_gives_valid_dates_in_order() {
    // Walking day by day, the date advances by exactly one calendar day.
    let mut prev = days_to_ymd(0);
    for d in 1..3000u64 {
        let cur = days_to_ymd(d);
        let next_in_month = (prev.0, prev.1, prev.2 + 1);
        let next_month = (prev.0, prev.1 + 1, 1);
        let next_year = (prev.0 + 1, 1, 1);
        assert!(cur == next_in_month || cur == next_month || cur == next_year, "{:?} -> {:?}", prev, cur);
        assert!(cur.1 >= 1 && cur.1 <= 12 && cur.2 >= 1 && cur.2 <= 31);
        prev = cur;
    }
}

#[test]
fn days_to_ymd_dates_and_next_days() {
    assert_eq!(days_to_ymd(59), (1970, 3, 1));
    assert_eq!(days_to_ymd(10956), (1999, 12, 31));
    assert_eq!(days_to_ymd(10957), (2000, 1, 1));
    assert_eq!(days_to_ymd(11016), (2000, 2, 29));
    assert_eq!(days_to_ymd(11017), (2000, 3, 1));
    assert_eq!(days_to_ymd(58), (1970, 2, 28));
}
