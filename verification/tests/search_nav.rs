use botmon::app::{AppState, AppTab, Key, NavAction};
use botmon::app_params::AppParams;
use botmon::leo_config::LeoConfig;
use botmon::pages::bot::{BotPageState, BotSettings};
use botmon::search::rank_names;

fn config(tag: &str) -> LeoConfig {
    LeoConfig {
        leo_cron: format!("{tag}-cron"),
        leo_event: format!("{tag}-event"),
        leo_firehose_stream: format!("{tag}-firehose"),
        leo_kinesis_stream: format!("{tag}-kinesis"),
        leo_s3: format!("{tag}-s3"),
        leo_settings: format!("{tag}-settings"),
        leo_stats: format!("{tag}-stats"),
        leo_stream: format!("{tag}-stream"),
        leo_system: format!("{tag}-system"),
        region: "us-east-1".to_owned(),
    }
}

fn params(bus: Option<&str>, debug: bool) -> AppParams {
    AppParams {
        refresh_time: 10,
        config_path: None,
        bus: bus.map(|b| b.to_owned()),
        debug,
    }
}

fn buses() -> Vec<(String, LeoConfig)> {
    vec![
        ("staging".to_owned(), config("staging")),
        ("prod".to_owned(), config("prod")),
    ]
}

fn settings(id: &str) -> BotSettings {
    BotSettings {
        id: id.to_owned(),
        checkpoints: None,
        description: None,
        error_count: None,
        execution_type: None,
        instances: None,
        invoke_time: None,
        lambda_name: None,
        message: None,
        name: None,
        paused: None,
        progress: None,
        requested_kinesis: None,
        scheduled_trigger: None,
        tags: None,
        token: None,
        trigger: None,
        triggers: None,
        r_type: None,
    }
}

#[test]
fn fuzzy_search_is_deterministic_and_drops_non_matches() {
    let corpus = vec![
        "alpha-bot".to_owned(),
        "beta-bot".to_owned(),
        "alphabetizer".to_owned(),
    ];
    let first = rank_names(&corpus, "alph");
    let second = rank_names(&corpus, "alph");
    assert_eq!(first, second);
    assert_eq!(first.len(), 2);
    assert!(first.contains(&"alpha-bot".to_owned()));
    assert!(first.contains(&"alphabetizer".to_owned()));
    assert!(!first.contains(&"beta-bot".to_owned()));
    // No fuzzy overlap at all yields an empty result.
    let none = rank_names(&corpus, "zzz");
    assert!(none.is_empty());
}

#[test]
fn empty_query_returns_the_whole_corpus_in_order() {
    // The matcher scores an empty pattern as a match on every name, so an
    // empty search box shows all names, ties kept in corpus order.
    let corpus = vec!["b".to_owned(), "a".to_owned(), "c".to_owned()];
    let all = rank_names(&corpus, "");
    assert_eq!(all, corpus);
}

#[test]
fn startup_with_bus_lands_on_main() {
    let st = AppState::new(&params(Some("prod"), false), buses()).unwrap();
    assert_eq!(st.mode, AppTab::Main);
    assert_eq!(st.selected_bus.as_deref(), Some("prod"));
    assert_eq!(st.loaded_config.as_ref().unwrap().leo_cron, "prod-cron");
    assert_eq!(st.tab_index, 0);
    assert!(!st.exit);
}

#[test]
fn startup_without_bus_lands_on_bus_select() {
    let st = AppState::new(&params(None, false), buses()).unwrap();
    assert_eq!(st.mode, AppTab::BusSelect);
    assert!(st.selected_bus.is_none());
    assert!(st.loaded_config.is_none());
    // Bus names are listed in lexicographic order.
    assert_eq!(st.bus_select.buses, vec!["prod".to_owned(), "staging".to_owned()]);
}

#[test]
fn startup_with_unknown_bus_is_refused() {
    let r = AppState::new(&params(Some("nowhere"), false), buses());
    assert_eq!(r.unwrap_err().message(), "unable to find bus in leo config");
}

#[test]
fn main_menu_wraps_both_directions() {
    let mut st = AppState::new(&params(Some("prod"), false), buses()).unwrap();
    assert_eq!(st.tab_index, 0);
    st.handle_key_event(Key::Up).unwrap();
    assert_eq!(st.tab_index, 1);
    st.handle_key_event(Key::Down).unwrap();
    assert_eq!(st.tab_index, 0);
    st.handle_key_event(Key::Down).unwrap();
    assert_eq!(st.tab_index, 1);
    let err = st.handle_key_event(Key::Tab).unwrap_err();
    assert_eq!(err.message(), "invalid key pressed");
    assert_eq!(st.tab_index, 1);
}

#[test]
fn enter_opens_the_tabbed_page() {
    let mut st = AppState::new(&params(Some("prod"), false), buses()).unwrap();
    st.handle_key_event(Key::Enter).unwrap();
    assert_eq!(st.mode, AppTab::Bot);
    st.handle_key_event(Key::Home).unwrap();
    assert_eq!(st.mode, AppTab::Main);
    st.handle_key_event(Key::Up).unwrap();
    st.handle_key_event(Key::Enter).unwrap();
    assert_eq!(st.mode, AppTab::Queue);
    // The queue page is an explicit dead end, not silent behaviour.
    let err = st.handle_key_event(Key::Up).unwrap_err();
    assert_eq!(err.message(), "queue mode is not implemented");
}

#[test]
fn quit_keys_set_the_exit_flag() {
    let mut st = AppState::new(&params(Some("prod"), false), buses()).unwrap();
    st.handle_key_event(Key::CharQ).unwrap();
    assert!(st.exit);
    let mut st2 = AppState::new(&params(Some("prod"), false), buses()).unwrap();
    st2.handle_key_event(Key::Esc).unwrap();
    assert!(st2.exit);
}

#[test]
fn debug_hotkey_only_works_in_debug_mode() {
    let mut plain = AppState::new(&params(Some("prod"), false), buses()).unwrap();
    plain.handle_key_event(Key::F5).unwrap();
    assert_eq!(plain.mode, AppTab::Main);
    let mut dbg = AppState::new(&params(Some("prod"), true), buses()).unwrap();
    dbg.handle_key_event(Key::F5).unwrap();
    assert_eq!(dbg.mode, AppTab::StateView);
    dbg.handle_key_event(Key::Tab).unwrap();
    assert_eq!(dbg.mode, AppTab::Main);
}

#[test]
fn empty_result_list_leaves_the_cursor_alone() {
    let mut st = AppState::new(&params(Some("prod"), false), buses()).unwrap();
    st.handle_key_event(Key::Enter).unwrap();
    assert_eq!(st.mode, AppTab::Bot);
    assert!(st.bot_page.search_results.is_empty());
    st.handle_key_event(Key::Up).unwrap();
    assert_eq!(st.bot_page.current_select_index, 0);
    st.handle_key_event(Key::Down).unwrap();
    assert_eq!(st.bot_page.current_select_index, 0);
    // Enter with no results is inert too.
    let r = st.handle_key_event(Key::Enter).unwrap();
    assert!(matches!(r, NavAction::Idle));
    assert_eq!(st.mode, AppTab::Bot);
}

#[test]
fn bot_selection_cycles_and_fetches() {
    let mut st = AppState::new(&params(Some("prod"), false), buses()).unwrap();
    st.apply_bot_settings(vec![settings("bot:alpha"), settings("bot:beta")]);
    assert_eq!(st.bot_page.bots, vec!["alpha".to_owned(), "beta".to_owned()]);
    st.handle_key_event(Key::Enter).unwrap();
    assert_eq!(st.mode, AppTab::Bot);
    // Typing is forwarded to the search box; the driver then hands the new
    // text back.
    let fwd = st.handle_key_event(Key::Other).unwrap();
    assert!(matches!(fwd, NavAction::ForwardToSearch));
    st.bot_page.set_search("alp".to_owned());
    assert_eq!(st.bot_page.search_results, vec!["alpha".to_owned()]);
    st.bot_page.set_search("".to_owned());
    assert_eq!(st.bot_page.search_results.len(), 2);
    st.handle_key_event(Key::Down).unwrap();
    assert_eq!(st.bot_page.current_select_index, 1);
    st.handle_key_event(Key::Down).unwrap();
    assert_eq!(st.bot_page.current_select_index, 0);
    st.handle_key_event(Key::Up).unwrap();
    assert_eq!(st.bot_page.current_select_index, 1);
    let action = st.handle_key_event(Key::Enter).unwrap();
    match action {
        NavAction::FetchBotStats { bot_name, bot_id, table } => {
            assert_eq!(bot_name, "beta");
            assert_eq!(bot_id, "bot:beta");
            assert_eq!(table, "prod-stats");
        },
        other => panic!("unexpected action {other:?}"),
    }
    // The name travels in the action; nothing is committed until the
    // fetch lands, so a failed fetch leaves the whole state intact.
    assert!(st.bot_page.selected_bot_name.is_none());
}

#[test]
fn bus_selection_commits_and_fetches_settings() {
    let mut st = AppState::new(&params(None, false), buses()).unwrap();
    assert_eq!(st.mode, AppTab::BusSelect);
    st.handle_key_event(Key::Down).unwrap();
    assert_eq!(st.bus_select.bus_selected_index, 1);
    assert_eq!(st.bus_select.vertical_scroll, 1);
    st.handle_key_event(Key::Down).unwrap();
    assert_eq!(st.bus_select.bus_selected_index, 0);
    st.handle_key_event(Key::Up).unwrap();
    assert_eq!(st.bus_select.bus_selected_index, 1);
    let action = st.handle_key_event(Key::Enter).unwrap();
    match action {
        NavAction::FetchBotSettings { table } => assert_eq!(table, "staging-cron"),
        other => panic!("unexpected action {other:?}"),
    }
    assert_eq!(st.selected_bus.as_deref(), Some("staging"));
    assert_eq!(st.loaded_config.as_ref().unwrap().leo_stats, "staging-stats");
    // The mode moves on only once the settings fetch lands.
    assert_eq!(st.mode, AppTab::BusSelect);
    st.apply_bot_settings(vec![settings("bot:gamma")]);
    assert_eq!(st.mode, AppTab::Main);
    assert_eq!(st.bot_page.bots, vec!["gamma".to_owned()]);
}

#[test]
fn detail_navigation_needs_a_loaded_detail() {
    let mut st = AppState::new(&params(Some("prod"), false), buses()).unwrap();
    st.mode = AppTab::BotView;
    let err = st.handle_key_event(Key::Up).unwrap_err();
    assert_eq!(err.message(), "cannot navigate a non-existant bot");
}

#[test]
fn loading_waits_for_both_lists() {
    let mut st = AppState::new(&params(Some("prod"), false), buses()).unwrap();
    st.mode = AppTab::Loading;
    st.handle_key_event(Key::Other).unwrap();
    assert_eq!(st.mode, AppTab::Loading);
    st.bot_page.all_bots = Some(vec![settings("bot:alpha")]);
    st.handle_key_event(Key::Other).unwrap();
    assert_eq!(st.mode, AppTab::Loading);
    st.bot_page.stats = vec![];
    st.bot_page.all_bots = Some(vec![settings("bot:alpha")]);
    st.bot_page.stats.push(sample_record("bot:alpha"));
    st.handle_key_event(Key::Other).unwrap();
    assert_eq!(st.mode, AppTab::Main);
}

fn sample_record(id: &str) -> botmon::bot_stats::DynamoStatsRecord {
    botmon::bot_stats::DynamoStatsRecord {
        id: id.to_owned(),
        bucket: "minute_15_2024-03-07 09:05".to_owned(),
        current: botmon::bot_stats::ExecutionStats {
            execution: None,
            read: botmon::bot_stats::StatsOrEmpty::Empty {},
            write: botmon::bot_stats::StatsOrEmpty::Empty {},
        },
        period: "minute_15".to_owned(),
        start_eid: None,
        time: 0,
    }
}

#[test]
fn finished_stats_fetch_opens_the_detail_view() {
    let mut st = AppState::new(&params(Some("prod"), false), buses()).unwrap();
    st.apply_bot_settings(vec![settings("bot:alpha"), settings("bot:beta")]);
    st.handle_key_event(Key::Enter).unwrap();
    st.bot_page.set_search("alpha".to_owned());
    let action = st.handle_key_event(Key::Enter).unwrap();
    let NavAction::FetchBotStats { bot_name, .. } = action else {
        panic!("expected a stats fetch");
    };
    assert_eq!(bot_name, "alpha");
    let mut other = sample_record("bot:other");
    other.period = "minute_15".to_owned();
    let rows = vec![
        sample_record("bot:alpha"),
        other,
        {
            let mut hourly = sample_record("bot:alpha");
            hourly.period = "hour".to_owned();
            hourly
        },
    ];
    st.apply_bot_stats(bot_name, rows).unwrap();
    assert_eq!(st.mode, AppTab::BotView);
    assert_eq!(st.bot_page.selected_bot_name.as_deref(), Some("alpha"));
    assert!(st.bot_page.search.is_empty());
    assert!(st.bot_page.search_results.is_empty());
    let view = st.bot_page.selected_bot.as_ref().unwrap();
    assert_eq!(view.setting.id, "bot:alpha");
    // Only the fifteen-minute rows of the selected bot survive the filter.
    assert_eq!(view.full_stats.len(), 1);
    assert_eq!(view.full_stats[0].id, "bot:alpha");
    // Scrolling works now, and tab returns to the search page.
    st.handle_key_event(Key::Down).unwrap();
    assert_eq!(st.bot_page.selected_bot.as_ref().unwrap().vertical_scroll, 1);
    st.handle_key_event(Key::Up).unwrap();
    assert_eq!(st.bot_page.selected_bot.as_ref().unwrap().vertical_scroll, 0);
    st.handle_key_event(Key::Up).unwrap();
    assert_eq!(st.bot_page.selected_bot.as_ref().unwrap().vertical_scroll, 0);
    st.handle_key_event(Key::Tab).unwrap();
    assert_eq!(st.mode, AppTab::Bot);
}

#[test]
fn detail_lookup_reports_whats_missing() {
    let mut page = BotPageState::default();
    let e = page.get_bot_details().unwrap_err();
    assert_eq!(e.message(), "no bots loaded AND no bot selected");
    page.selected_bot_name = Some("alpha".to_owned());
    let e = page.get_bot_details().unwrap_err();
    assert_eq!(e.message(), "no bots loaded");
    page.all_bots = Some(vec![settings("bot:beta")]);
    page.selected_bot_name = None;
    let e = page.get_bot_details().unwrap_err();
    assert_eq!(e.message(), "no bot selected when attempting to get bot details");
    page.selected_bot_name = Some("alpha".to_owned());
    let e = page.get_bot_details().unwrap_err();
    assert_eq!(e.message(), "unable to locate settings for selected bot");
}

#[test]
fn key_legend_follows_mode_and_debug_flag() {
    let main_keys = AppTab::Main.get_keys(&false);
    assert_eq!(
        main_keys,
        vec![
            ("Home", "Main Menu"),
            ("Esc|Q", "Quit"),
            ("↑", "Up"),
            ("↓", "Down"),
            ("Enter", "Select"),
        ]
    );
    let debug_view_keys = AppTab::BotView.get_keys(&true);
    assert_eq!(
        debug_view_keys,
        vec![
            ("Home", "Main Menu"),
            ("Esc|Q", "Quit"),
            ("State View", "F5"),
            ("↑", "Scroll Up"),
            ("↓", "Scroll Down"),
            ("Tab", "Back"),
        ]
    );
    assert_eq!(
        AppTab::Loading.get_keys(&false),
        vec![("Home", "Main Menu"), ("Esc|Q", "Quit")]
    );
}

#[test]
fn failed_detail_build_leaves_the_selection_alone() {
    let mut st = AppState::new(&params(Some("prod"), false), buses()).unwrap();
    st.apply_bot_settings(vec![settings("bot:alpha")]);
    // No settings row matches the fetched name: the action aborts and the
    // selection name stays as it was.
    let e = st
        .apply_bot_stats("stranger".to_owned(), vec![sample_record("bot:stranger")])
        .unwrap_err();
    assert_eq!(e.message(), "unable to locate settings for selected bot");
    assert_eq!(st.mode, AppTab::Main);
    assert!(st.bot_page.selected_bot_name.is_none());
    assert!(st.bot_page.selected_bot.is_none());
}

#[test]
fn narrowing_the_search_pulls_the_cursor_back() {
    let mut st = AppState::new(&params(Some("prod"), false), buses()).unwrap();
    st.apply_bot_settings(vec![settings("bot:alpha"), settings("bot:beta")]);
    st.handle_key_event(Key::Enter).unwrap();
    st.bot_page.set_search("".to_owned());
    st.handle_key_event(Key::Down).unwrap();
    assert_eq!(st.bot_page.current_select_index, 1);
    // The narrowed list no longer reaches the cursor: it returns to the top.
    st.bot_page.set_search("beta".to_owned());
    assert_eq!(st.bot_page.search_results, vec!["beta".to_owned()]);
    assert_eq!(st.bot_page.current_select_index, 0);
}
