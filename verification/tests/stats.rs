use botmon::bot_stats::{
    merge_bot_stats, BaseExecutionStats, CondensedStats, DynamoStatsRecord, ExecutionStats,
    QueueStats, QueueStatsMap, StatsOrEmpty,
};

fn stat(checkpoint: Option<&str>, source_ts: i64, ts: i64, units: u32) -> QueueStats {
    QueueStats {
        checkpoint: checkpoint.map(|c| c.to_owned()),
        source_timestamp: source_ts,
        timestamp: ts,
        units,
    }
}

fn exec_block(
    completions: Option<u32>,
    duration: Option<u32>,
    errors: Option<u32>,
    max_duration: Option<u32>,
    min_duration: Option<u32>,
    units: Option<u32>,
) -> BaseExecutionStats {
    BaseExecutionStats { completions, duration, errors, max_duration, min_duration, units }
}

fn record(
    id: &str,
    execution: Option<BaseExecutionStats>,
    read: StatsOrEmpty,
    write: StatsOrEmpty,
) -> DynamoStatsRecord {
    DynamoStatsRecord {
        id: id.to_owned(),
        bucket: "minute_15_2024-03-07 09:05".to_owned(),
        current: ExecutionStats { execution, read, write },
        period: "minute_15".to_owned(),
        start_eid: None,
        time: 0,
    }
}

fn map_of(entries: &[(&str, QueueStats)]) -> StatsOrEmpty {
    let mut m = QueueStatsMap::new();
    for (k, v) in entries {
        m.merge_entry(&(*k).to_owned(), v);
    }
    StatsOrEmpty::NotEmpty(m)
}

#[test]
fn queue_stat_merge_keeps_later_timestamps_and_sums_units() {
    let mut held = stat(Some("cp-a"), 100, 200, 5);
    let incoming = stat(None, 50, 400, 7);
    held.merge(&incoming);
    assert_eq!(held.source_timestamp, 100);
    assert_eq!(held.timestamp, 400);
    assert_eq!(held.units, 12);
    // No incoming checkpoint: the held one stays.
    assert_eq!(held.checkpoint.as_deref(), Some("cp-a"));
    // An incoming checkpoint overwrites.
    held.merge(&stat(Some("cp-b"), 0, 0, 0));
    assert_eq!(held.checkpoint.as_deref(), Some("cp-b"));
}

#[test]
fn checkpoint_merge_depends_on_order() {
    // Folding [a, b] and [b, a] agree on the numbers but not on the
    // checkpoint: the last write wins.
    let a = stat(Some("cp-a"), 1, 1, 1);
    let b = stat(Some("cp-b"), 2, 2, 2);

    let mut ab = stat(None, 0, 0, 0);
    ab.merge(&a);
    ab.merge(&b);
    let mut ba = stat(None, 0, 0, 0);
    ba.merge(&b);
    ba.merge(&a);

    assert_eq!(ab.units, ba.units);
    assert_eq!(ab.timestamp, ba.timestamp);
    assert_eq!(ab.source_timestamp, ba.source_timestamp);
    assert_eq!(ab.checkpoint.as_deref(), Some("cp-b"));
    assert_eq!(ba.checkpoint.as_deref(), Some("cp-a"));
    assert_ne!(ab.checkpoint, ba.checkpoint);
}

#[test]
fn empty_and_populated_blocks_merge_into_one_map() {
    let empty_read = record("bot:x", None, StatsOrEmpty::Empty {}, StatsOrEmpty::Empty {});
    let one_read = record(
        "bot:x",
        None,
        map_of(&[("queue:in", stat(None, 10, 10, 3))]),
        StatsOrEmpty::Empty {},
    );
    let merged = merge_bot_stats(&[empty_read, one_read]);
    let got = merged.read.get(&"queue:in".to_owned()).unwrap();
    assert_eq!(got.units, 3);
    assert!(merged.read.get(&"queue:out".to_owned()).is_none());
    assert!(merged.write.get(&"queue:in".to_owned()).is_none());
}

#[test]
fn min_duration_zero_is_treated_as_absent() {
    let mut acc = CondensedStats::new();
    acc.execution_stats.min_duration = 40;
    let zero_min = record(
        "bot:x",
        Some(exec_block(None, None, None, None, Some(0), None)),
        StatsOrEmpty::Empty {},
        StatsOrEmpty::Empty {},
    );
    acc.merge_execution_stats(&zero_min);
    assert_eq!(acc.execution_stats.min_duration, 40);
    // A strictly positive incoming minimum still lowers it.
    let low_min = record(
        "bot:x",
        Some(exec_block(None, None, None, None, Some(25), None)),
        StatsOrEmpty::Empty {},
        StatsOrEmpty::Empty {},
    );
    acc.merge_execution_stats(&low_min);
    assert_eq!(acc.execution_stats.min_duration, 25);
}

fn sample_records() -> Vec<DynamoStatsRecord> {
    vec![
        record(
            "bot:x",
            Some(exec_block(Some(2), Some(30), Some(1), Some(90), Some(10), Some(4))),
            map_of(&[("queue:in", stat(Some("r1"), 10, 11, 3))]),
            map_of(&[("queue:out", stat(Some("w1"), 20, 21, 5))]),
        ),
        record(
            "bot:x",
            Some(exec_block(Some(3), Some(50), None, Some(70), Some(5), Some(6))),
            map_of(&[("queue:in", stat(Some("r2"), 12, 9, 4))]),
            StatsOrEmpty::Empty {},
        ),
        record("bot:x", None, StatsOrEmpty::Empty {}, StatsOrEmpty::Empty {}),
    ]
}

#[test]
fn merged_totals_are_exact() {
    let merged = merge_bot_stats(&sample_records());
    assert_eq!(merged.execution_stats.completions, 5);
    assert_eq!(merged.execution_stats.duration, 80);
    assert_eq!(merged.execution_stats.errors, 1);
    assert_eq!(merged.execution_stats.units, 10);
    assert_eq!(merged.execution_stats.max_duration, 90);
    // The minimum of the strictly positive reported minimums.
    assert_eq!(merged.execution_stats.min_duration, 5);

    let read_in = merged.read.get(&"queue:in".to_owned()).unwrap();
    assert_eq!(read_in.units, 7);
    assert_eq!(read_in.source_timestamp, 12);
    assert_eq!(read_in.timestamp, 11);
    assert_eq!(read_in.checkpoint.as_deref(), Some("r2"));
    let write_out = merged.write.get(&"queue:out".to_owned()).unwrap();
    assert_eq!(write_out.units, 5);
    assert_eq!(write_out.checkpoint.as_deref(), Some("w1"));
}

#[test]
fn merged_numbers_ignore_row_order() {
    let rows = sample_records();
    let mut reversed = sample_records();
    reversed.reverse();
    let a = merge_bot_stats(&rows);
    let b = merge_bot_stats(&reversed);
    assert_eq!(a.execution_stats, b.execution_stats);
    // Unit sums per queue are order-free too.
    assert_eq!(
        a.read.get(&"queue:in".to_owned()).unwrap().units,
        b.read.get(&"queue:in".to_owned()).unwrap().units,
    );
    // The checkpoint is not: it keeps the last write.
    assert_eq!(a.read.get(&"queue:in".to_owned()).unwrap().checkpoint.as_deref(), Some("r2"));
    assert_eq!(b.read.get(&"queue:in".to_owned()).unwrap().checkpoint.as_deref(), Some("r1"));
}

#[test]
fn queue_map_merges_existing_keys() {
    let mut m = QueueStatsMap::new();
    m.merge_entry(&"queue:a".to_owned(), &stat(Some("c1"), 1, 1, 2));
    m.merge_entry(&"queue:a".to_owned(), &stat(None, 5, 0, 3));
    let got = m.get(&"queue:a".to_owned()).unwrap();
    assert_eq!(got.units, 5);
    assert_eq!(got.source_timestamp, 5);
    assert_eq!(got.timestamp, 1);
    assert_eq!(got.checkpoint.as_deref(), Some("c1"));
    assert_eq!(m.entry_count(), 1);
}
