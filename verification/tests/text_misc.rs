use botmon::bot_stats::{DynamoStatsRecord, ExecutionStats, QueueStats, QueueStatsMap,
    StatsOrEmpty};
use botmon::pages::bot::BotViewState;
use botmon::text::{parse_i64, replace_str, sort_strings, str_contains, str_lex_le,
    u32_to_dec_string};
use botmon::ui::TableData;

#[test]
fn replace_removes_every_occurrence() {
    assert_eq!(replace_str("queue:orders", "queue:", ""), "orders");
    assert_eq!(replace_str("queue:a-queue:b", "queue:", ""), "a-b");
    assert_eq!(replace_str("orders", "queue:", ""), "orders");
    assert_eq!(replace_str("", "queue:", ""), "");
    assert_eq!(replace_str("aaa", "aa", "b"), "ba");
    assert_eq!(replace_str("abcabc", "b", "xy"), "axycaxyc");
}

#[test]
fn lexicographic_compare_matches_std() {
    let cases = [
        ("", "a"),
        ("a", "a"),
        ("a", "b"),
        ("abc", "abd"),
        ("abc", "ab"),
        ("minute_15_2024", "minute_15_2025"),
    ];
    for (a, b) in cases {
        assert_eq!(str_lex_le(a, b), a <= b, "compare {a:?} {b:?}");
        assert_eq!(str_lex_le(b, a), b <= a, "compare {b:?} {a:?}");
    }
}

#[test]
fn substring_search_finds_infixes() {
    assert!(str_contains("bot:alpha-bot", "alpha"));
    assert!(str_contains("bot:alpha", ""));
    assert!(str_contains("bot:alpha", "bot:alpha"));
    assert!(!str_contains("bot:alpha", "beta"));
    assert!(!str_contains("ab", "abc"));
}

#[test]
fn sorting_orders_names() {
    let names = vec![
        "staging".to_owned(),
        "prod".to_owned(),
        "dev".to_owned(),
        "prod".to_owned(),
    ];
    let sorted = sort_strings(&names);
    assert_eq!(
        sorted,
        vec!["dev".to_owned(), "prod".to_owned(), "prod".to_owned(), "staging".to_owned()]
    );
}

#[test]
fn decimal_rendering_matches_std() {
    for n in [0u32, 7, 10, 42, 999, 1000, u32::MAX] {
        assert_eq!(u32_to_dec_string(n), n.to_string());
    }
}

#[test]
fn integer_parsing_matches_std() {
    let cases = [
        "0",
        "42",
        "-42",
        "+42",
        "009",
        "",
        "-",
        "+",
        "4 2",
        "abc",
        "9223372036854775807",
        "9223372036854775808",
        "-9223372036854775808",
        "-9223372036854775809",
        "99999999999999999999999999999",
    ];
    for s in cases {
        assert_eq!(parse_i64(s), s.parse::<i64>().ok(), "parsing {s:?}");
    }
}

fn stat(units: u32) -> QueueStats {
    QueueStats { checkpoint: None, source_timestamp: 0, timestamp: 0, units }
}

#[test]
fn table_row_sums_the_three_most_recent_buckets() {
    let events = vec![stat(100), stat(1), stat(2), stat(3)];
    let row = TableData::new("queue:orders", &events);
    let cells = row.ref_array();
    assert_eq!(cells[0], "orders");
    assert_eq!(cells[1], "6");
    let short = TableData::new("queue:x", &[stat(4), stat(5)]);
    assert_eq!(short.ref_array()[1], "9");
    let empty = TableData::new("queue:x", &[]);
    assert_eq!(empty.ref_array()[1], "0");
}

fn rec(id: &str, read: StatsOrEmpty, write: StatsOrEmpty) -> DynamoStatsRecord {
    DynamoStatsRecord {
        id: id.to_owned(),
        bucket: "minute_15_2024-03-07 09:05".to_owned(),
        current: ExecutionStats { execution: None, read, write },
        period: "minute_15".to_owned(),
        start_eid: None,
        time: 0,
    }
}

fn map_of(entries: &[(&str, u32)]) -> StatsOrEmpty {
    let mut m = QueueStatsMap::new();
    for (k, u) in entries {
        m.merge_entry(&(*k).to_owned(), &stat(*u));
    }
    StatsOrEmpty::NotEmpty(m)
}

#[test]
fn grouping_collects_per_queue_histories_in_row_order() {
    let rows = vec![
        rec("bot:x", StatsOrEmpty::Empty {}, map_of(&[("queue:a", 1)])),
        rec("bot:x", map_of(&[("queue:b", 7)]), map_of(&[("queue:a", 2), ("queue:c", 9)])),
        rec("bot:x", StatsOrEmpty::Empty {}, map_of(&[("queue:a", 3)])),
    ];
    let grouped = BotViewState::write_stats_from_all_stats(&rows);
    let mut seen = std::collections::BTreeMap::new();
    for (k, vs) in &grouped.entries {
        seen.insert(k.clone(), vs.iter().map(|s| s.units).collect::<Vec<_>>());
    }
    assert_eq!(seen.len(), 2);
    assert_eq!(seen["queue:a"], vec![1, 2, 3]);
    assert_eq!(seen["queue:c"], vec![9]);
    let read_grouped = BotViewState::read_stats_from_all_stats(&rows);
    assert_eq!(read_grouped.entries.len(), 1);
    assert_eq!(read_grouped.entries[0].0, "queue:b");
    assert_eq!(read_grouped.entries[0].1.len(), 1);
    assert_eq!(read_grouped.entries[0].1[0].units, 7);
}
