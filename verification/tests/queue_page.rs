use botmon::app::Key;
use botmon::bot_stats::{DynamoStatsRecord, ExecutionStats, QueueStats, QueueStatsMap,
    StatsOrEmpty};
use botmon::dynamo::QueueDetails;
use botmon::pages::bot::BotViewState;
use botmon::pages::queue::{QueueSearchState, QueueViewState};

fn queue_row(event: &str) -> QueueDetails {
    QueueDetails {
        archive: None,
        clone: None,
        event: event.to_owned(),
        max_eid: None,
        timestamp: None,
        v: None,
    }
}

#[test]
fn queue_names_lose_their_marker() {
    let mut page = QueueSearchState::default();
    page.all_queues = Some(vec![queue_row("queue:orders"), queue_row("returns")]);
    page.queue_names();
    assert_eq!(page.queues, vec!["orders".to_owned(), "returns".to_owned()]);
}

#[test]
fn queue_search_ranks_like_the_bot_search() {
    let mut page = QueueSearchState::default();
    page.all_queues = Some(vec![
        queue_row("queue:orders"),
        queue_row("queue:order-errors"),
        queue_row("queue:shipments"),
    ]);
    page.queue_names();
    page.search = "ord".to_owned();
    page.search_queues();
    let once = page.search_results.clone();
    page.search_queues();
    assert_eq!(page.search_results, once);
    assert_eq!(once.len(), 2);
    assert!(!once.contains(&"shipments".to_owned()));
}

fn rec(id: &str, read: StatsOrEmpty, write: StatsOrEmpty) -> DynamoStatsRecord {
    DynamoStatsRecord {
        id: id.to_owned(),
        bucket: "minute_15_2024-03-07 09:05".to_owned(),
        current: ExecutionStats { execution: None, read, write },
        period: "minute_15".to_owned(),
        start_eid: None,
        time: 0,
    }
}

fn map_of(entries: &[(&str, u32)]) -> StatsOrEmpty {
    let mut m = QueueStatsMap::new();
    for (k, u) in entries {
        m.merge_entry(
            &(*k).to_owned(),
            &QueueStats { checkpoint: None, source_timestamp: 0, timestamp: 0, units: *u },
        );
    }
    StatsOrEmpty::NotEmpty(m)
}

#[test]
fn queue_view_groups_by_bot() {
    let rows = vec![
        rec("queue:orders", map_of(&[("bot:a", 2)]), StatsOrEmpty::Empty {}),
        rec("queue:orders", map_of(&[("bot:a", 4), ("bot:b", 1)]), StatsOrEmpty::Empty {}),
    ];
    let grouped = QueueViewState::read_stats_from_all_stats(&rows);
    let mut units: Vec<(String, Vec<u32>)> = grouped
        .entries
        .iter()
        .map(|(k, vs)| (k.clone(), vs.iter().map(|s| s.units).collect()))
        .collect();
    units.sort();
    assert_eq!(
        units,
        vec![("bot:a".to_owned(), vec![2, 4]), ("bot:b".to_owned(), vec![1])]
    );
    let empty = QueueViewState::write_stats_from_all_stats(&rows);
    assert!(empty.entries.is_empty());
}

#[test]
fn detail_scroll_saturates_at_the_top() {
    let mut view = BotViewState::new(
        botmon::pages::bot::BotSettings {
            id: "bot:a".to_owned(),
            checkpoints: None,
            description: None,
            error_count: None,
            execution_type: None,
            instances: None,
            invoke_time: None,
            lambda_name: None,
            message: None,
            name: None,
            paused: None,
            progress: None,
            requested_kinesis: None,
            scheduled_trigger: None,
            tags: None,
            token: None,
            trigger: None,
            triggers: None,
            r_type: None,
        },
        vec![],
    );
    assert_eq!(view.vertical_scroll, 0);
    view.navigate(Key::Up).unwrap();
    assert_eq!(view.vertical_scroll, 0);
    view.navigate(Key::Down).unwrap();
    view.navigate(Key::Down).unwrap();
    assert_eq!(view.vertical_scroll, 2);
    view.navigate(Key::Up).unwrap();
    assert_eq!(view.vertical_scroll, 1);
    let e = view.navigate(Key::Enter).unwrap_err();
    assert_eq!(e.message(), "invalid key pressed");
}
