use botmon::app_params::num_to_duration;
use botmon::dynamo::{
    utc_parts_from_ms, AllBucketsBuilder, BotBucket, DateTimeParts, Period,
};

#[test]
fn period_tags_render() {
    assert_eq!(Period::Minute.as_str(), "minute");
    assert_eq!(Period::Minute5.as_str(), "minute_5");
    assert_eq!(Period::Minute15.as_str(), "minute_15");
    assert_eq!(Period::Hour.as_str(), "hour");
    assert_eq!(Period::Day.as_str(), "day");
    assert_eq!(Period::Week.as_str(), "week");
}

fn parts(year: u32, month: u32, day: u32, hour: u32, minute: u32) -> DateTimeParts {
    DateTimeParts { year, month, day, hour, minute }
}

#[test]
fn bucket_key_layout_per_period() {
    let d = parts(2024, 3, 7, 9, 5);
    let minute = BotBucket::new(Period::Minute, Some(d)).key_string().unwrap();
    assert_eq!(minute, "minute_2024-03-07 09:05");
    let minute15 = BotBucket::new(Period::Minute15, Some(d)).key_string().unwrap();
    assert_eq!(minute15, "minute_15_2024-03-07 09:05");
    let hour = BotBucket::new(Period::Hour, Some(d)).key_string().unwrap();
    assert_eq!(hour, "hour_2024-03-07 09");
    let day = BotBucket::new(Period::Day, Some(d)).key_string().unwrap();
    assert_eq!(day, "day_2024-03-07");
}

#[test]
fn open_bucket_key_is_double_underscore() {
    let open_end = BotBucket::new(Period::Minute15, None).key_string().unwrap();
    assert_eq!(open_end, "minute_15__");
    let week_open = BotBucket::new(Period::Week, None).key_string().unwrap();
    assert_eq!(week_open, "week__");
}

#[test]
fn dated_week_bucket_is_refused() {
    let d = parts(2024, 3, 7, 9, 5);
    let r = BotBucket::new(Period::Week, Some(d)).key_string();
    assert!(r.is_err());
    assert_eq!(
        r.unwrap_err().message(),
        "week buckets have no date layout"
    );
}

#[test]
fn bucket_keys_sort_in_time_order() {
    // Later instants give lexicographically larger keys for one period.
    let earlier = parts(2023, 12, 31, 23, 59);
    let later = parts(2024, 1, 1, 0, 0);
    let a = BotBucket::new(Period::Minute, Some(earlier)).key_string().unwrap();
    let b = BotBucket::new(Period::Minute, Some(later)).key_string().unwrap();
    assert!(a < b);
    // Same day at day granularity gives equal keys.
    let morning = parts(2024, 5, 2, 1, 0);
    let evening = parts(2024, 5, 2, 23, 0);
    let c = BotBucket::new(Period::Day, Some(morning)).key_string().unwrap();
    let d = BotBucket::new(Period::Day, Some(evening)).key_string().unwrap();
    assert_eq!(c, d);
}

#[test]
fn query_window_is_lookback_to_end() {
    let end_ms: i64 = 1_700_000_000_000;
    let window = AllBucketsBuilder::new(Period::Minute15)
        .past_ms(3_600_000)
        .search_til(end_ms)
        .build();
    assert_eq!(window.end, end_ms);
    assert_eq!(window.start, end_ms - 3_600_000);
    assert!(matches!(window.period, Period::Minute15));
}

#[test]
fn builder_defaults_to_fifteen_minutes() {
    let b = AllBucketsBuilder::new(Period::Hour);
    assert_eq!(b.past_ms, 900_000);
    let w = b.search_til(1_000_000).build();
    assert_eq!(w.start, 100_000);
    assert_eq!(w.end, 1_000_000);
}

#[test]
fn epoch_renders_to_unix_origin() {
    let p = utc_parts_from_ms(0).unwrap();
    assert_eq!((p.year, p.month, p.day, p.hour, p.minute), (1970, 1, 1, 0, 0));
    let key = BotBucket::new(Period::Minute15, Some(p)).key_string().unwrap();
    assert_eq!(key, "minute_15_1970-01-01 00:00");
}

#[test]
fn default_window_keys_are_well_formed() {
    // One hour before 2023-11-14 22:13:20 UTC.
    let now_ms: i64 = 1_700_000_000_000;
    let (start, end) = botmon::dynamo::default_stats_window(now_ms).unwrap();
    assert_eq!(end, "minute_15__");
    assert_eq!(start, "minute_15_2023-11-14 21:13");
    assert!(start < end);
}

#[test]
fn refresh_time_clamps_to_accepted_range() {
    assert_eq!(num_to_duration("60"), 60);
    assert_eq!(num_to_duration("10"), 10);
    assert_eq!(num_to_duration("600"), 600);
    assert_eq!(num_to_duration("601"), 600);
    assert_eq!(num_to_duration("9"), 10);
    assert_eq!(num_to_duration("-5"), 10);
    assert_eq!(num_to_duration("abc"), 10);
    assert_eq!(num_to_duration(""), 10);
    assert_eq!(num_to_duration("99999999999999999999999999"), 10);
    assert_eq!(num_to_duration("+25"), 25);
}
