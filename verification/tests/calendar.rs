use dummycloud::calendar::{civil_from_unix_days, unix_epoch_to_utc_iso8601};

#[test]
fn formats_unix_epoch_as_utc_iso8601() {
    assert_eq!(unix_epoch_to_utc_iso8601(0), "1970-01-01T00:00:00Z");
    assert_eq!(
        unix_epoch_to_utc_iso8601(1_700_000_000),
        "2023-11-14T22:13:20Z"
    );
}

#[test]
fn civil_dates_around_the_epoch_and_leap_days() {
    assert_eq!(civil_from_unix_days(0), (1970, 1, 1));
    assert_eq!(civil_from_unix_days(-1), (1969, 12, 31));
    assert_eq!(civil_from_unix_days(59), (1970, 3, 1));
    assert_eq!(civil_from_unix_days(11_016), (2000, 2, 29));
    assert_eq!(civil_from_unix_days(11_017), (2000, 3, 1));
    assert_eq!(civil_from_unix_days(47_540), (2100, 2, 28));
    assert_eq!(civil_from_unix_days(47_541), (2100, 3, 1));
    assert_eq!(civil_from_unix_days(-719_468), (0, 3, 1));
}

#[test]
fn timestamps_end_of_day_and_far_years() {
    assert_eq!(unix_epoch_to_utc_iso8601(86_399), "1970-01-01T23:59:59Z");
    assert_eq!(unix_epoch_to_utc_iso8601(951_782_400), "2000-02-29T00:00:00Z");
    assert_eq!(unix_epoch_to_utc_iso8601(253_402_300_800), "10000-01-01T00:00:00Z");
}

#[test]
fn consecutive_day_counts_give_consecutive_dates() {
    assert_eq!(civil_from_unix_days(364), (1970, 12, 31));
    assert_eq!(civil_from_unix_days(365), (1971, 1, 1));
    assert_eq!(civil_from_unix_days(30), (1970, 1, 31));
    assert_eq!(civil_from_unix_days(31), (1970, 2, 1));
    assert_eq!(civil_from_unix_days(-365), (1969, 1, 1));
    assert_eq!(civil_from_unix_days(-366), (1968, 12, 31));
}

#[test]
fn timestamps_have_twenty_characters_and_sort_in_time_order() {
    let times: [u64; 6] = [0, 59, 86_399, 86_400, 1_700_000_000, 253_402_300_799];
    let stamps: Vec<String> = times.iter().map(|t| unix_epoch_to_utc_iso8601(*t)).collect();
    for s in &stamps {
        assert_eq!(s.len(), 20);
    }
    for w in stamps.windows(2) {
        assert!(w[0] < w[1], "{} should sort before {}", w[0], w[1]);
    }
    assert_eq!(stamps[5], "9999-12-31T23:59:59Z");
}
