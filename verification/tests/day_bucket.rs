use fmreport::timestamp::{get_event_timestamp, MAX_BUCKET_SECS, MIN_BUCKET_SECS};

#[test]
fn epoch_start_bucket() {
    assert_eq!(get_event_timestamp(0), Some(String::from("1970-01-01")));
}

#[test]
fn known_date_bucket() {
    assert_eq!(get_event_timestamp(1431648000), Some(String::from("2015-05-15")));
}

#[test]
fn last_second_of_day_stays_in_bucket() {
    assert_eq!(get_event_timestamp(86399), Some(String::from("1970-01-01")));
    assert_eq!(get_event_timestamp(86400), Some(String::from("1970-01-02")));
}

#[test]
fn negative_seconds_before_epoch() {
    assert_eq!(get_event_timestamp(-1), Some(String::from("1969-12-31")));
}

#[test]
fn far_out_of_range_is_none() {
    assert_eq!(get_event_timestamp(i64::MAX), None);
    assert_eq!(get_event_timestamp(i64::MIN), None);
}

#[test]
fn last_second_of_year_9999() {
    assert_eq!(get_event_timestamp(253_402_300_799), Some(String::from("9999-12-31")));
}

#[test]
fn representable_band_is_exact() {
    assert!(get_event_timestamp(MIN_BUCKET_SECS).is_some());
    assert!(get_event_timestamp(MIN_BUCKET_SECS - 1).is_none());
    assert!(get_event_timestamp(MAX_BUCKET_SECS).is_some());
    assert!(get_event_timestamp(MAX_BUCKET_SECS + 1).is_none());
}

#[test]
fn distinct_days_distinct_keys() {
    let d0 = get_event_timestamp(0).unwrap();
    let d1 = get_event_timestamp(86400).unwrap();
    assert_ne!(d0, d1);
}
