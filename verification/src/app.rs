//! The navigation state machine: one mode per page, key presses drive
//! mode transitions and selection changes, and the transitions that need a
//! data fetch hand an action back to the driver instead of blocking.

use vstd::prelude::*;
use vstd::string::StringExecFns;

use crate::app_params::AppParams;
use crate::error::AppError;
use crate::leo_config::{clone_config, LeoConfig};
use crate::bot_stats::{rec_views, DynamoStatsRecord};
use crate::pages::bot::{BotPageState, BotSettings};
use crate::pages::bus_select::{bus_keys, BusSelectState};
use crate::text::{sort_lex, string_views};

verus! {

/// The key presses the state machine reads. Anything else arrives as
/// `Other` and is meaningful only to the search box.
#[derive(Debug, Clone, Copy, PartialEq, Eq, Structural)]
pub enum Key {
    Up,
    Down,
    Enter,
    Tab,
    Home,
    Esc,
    CharQ,
    F5,
    Other,
}

/// Which page is showing.
#[derive(Debug, Clone, Copy, PartialEq, Eq, Structural)]
pub enum AppTab {
    Main,
    BusSelect,
    Bot,
    Queue,
    BotView,
    Loading,
    StateView,
}

/// The key legend a page shows in its bottom bar.
pub trait Page {
    fn get_keys(&self) -> Vec<(&'static str, &'static str)>;
}

/// A page that reacts to key presses on its own.
pub trait Navigate {
    fn navigate(&mut self, key: Key) -> Result<(), crate::error::AppError>;
}

/// The page a main-menu tab position leads to.
pub open spec fn spec_tab_from(v: int) -> AppTab {
    if v == 0 {
        AppTab::Bot
    } else if v == 1 {
        AppTab::Queue
    } else {
        AppTab::Main
    }
}

impl From<usize> for AppTab {
    /// The page a main-menu tab position leads to.
    fn from(value: usize) -> (r: Self)
        ensures
            r == spec_tab_from(value as int),
    {
        if value == 0 {
            Self::Bot
        } else if value == 1 {
            Self::Queue
        } else {
            Self::Main
        }
    }
}

impl vstd::std_specs::convert::FromSpecImpl<usize> for AppTab {
    open spec fn obeys_from_spec() -> bool {
        true
    }

    open spec fn from_spec(value: usize) -> Self {
        spec_tab_from(value as int)
    }
}

impl Default for AppTab {
    /// The landing page.
    fn default() -> (r: Self)
        ensures
            r is Main,
    {
        Self::Main
    }
}

/// The view of a key-legend pair.
pub open spec fn key_pair_view(p: (&'static str, &'static str)) -> (Seq<char>, Seq<char>) {
    (p.0@, p.1@)
}

/// The views of a key legend.
pub open spec fn key_views(v: Seq<(&'static str, &'static str)>) -> Seq<(Seq<char>, Seq<char>)> {
    v.map_values(|p: (&'static str, &'static str)| key_pair_view(p))
}

/// The key legend each page owes its bottom bar, as character sequences.
pub open spec fn spec_get_keys(tab: AppTab, debug_mode: bool) -> Seq<(Seq<char>, Seq<char>)> {
    let base = seq![("Home"@, "Main Menu"@), ("Esc|Q"@, "Quit"@)];
    let with_debug = if debug_mode {
        base.push(("State View"@, "F5"@))
    } else {
        base
    };
    match tab {
        AppTab::Main | AppTab::Bot | AppTab::Queue | AppTab::BusSelect => with_debug
            + seq![("↑"@, "Up"@), ("↓"@, "Down"@), ("Enter"@, "Select"@)],
        AppTab::BotView | AppTab::StateView => with_debug
            + seq![("↑"@, "Scroll Up"@), ("↓"@, "Scroll Down"@), ("Tab"@, "Back"@)],
        AppTab::Loading => with_debug,
    }
}

impl AppTab {
    /// The key legend this page shows in its bottom bar: the global keys,
    /// the debug hotkey when debug mode is on, and the page's own keys.
    pub fn get_keys(&self, debug_mode: &bool) -> (r: Vec<(&'static str, &'static str)>)
        ensures
            key_views(r@) == spec_get_keys(*self, *debug_mode),
    {
        let mut keys: Vec<(&'static str, &'static str)> = Vec::new();
        keys.push(("Home", "Main Menu"));
        keys.push(("Esc|Q", "Quit"));
        if *debug_mode {
            keys.push(("State View", "F5"));
        }
        let ghost with_debug = key_views(keys@);
        proof {
            if *debug_mode {
                assert(with_debug =~= seq![("Home"@, "Main Menu"@), ("Esc|Q"@, "Quit"@)].push(
                    ("State View"@, "F5"@),
                ));
            } else {
                assert(with_debug =~= seq![("Home"@, "Main Menu"@), ("Esc|Q"@, "Quit"@)]);
            }
        }
        match self {
            AppTab::Main | AppTab::Bot | AppTab::Queue | AppTab::BusSelect => {
                keys.push(("↑", "Up"));
                keys.push(("↓", "Down"));
                keys.push(("Enter", "Select"));
                proof {
                    assert(key_views(keys@) =~= with_debug + seq![
                        ("↑"@, "Up"@),
                        ("↓"@, "Down"@),
                        ("Enter"@, "Select"@),
                    ]);
                }
            },
            AppTab::BotView | AppTab::StateView => {
                keys.push(("↑", "Scroll Up"));
                keys.push(("↓", "Scroll Down"));
                keys.push(("Tab", "Back"));
                proof {
                    assert(key_views(keys@) =~= with_debug + seq![
                        ("↑"@, "Scroll Up"@),
                        ("↓"@, "Scroll Down"@),
                        ("Tab"@, "Back"@),
                    ]);
                }
            },
            AppTab::Loading => {},
        }
        keys
    }
}

/// What the driver must do after a transition: nothing, fetch one bot's
/// statistics rows from the named table, or fetch the bot settings of the
/// committed bus, or feed the pressed key to the search box and rerun the
/// search.
#[derive(Debug)]
pub enum NavAction {
    Idle,
    FetchBotStats { bot_name: String, bot_id: String, table: String },
    FetchBotSettings { table: String },
    ForwardToSearch,
}

/// The first configuration held under the given bus name.
pub open spec fn bus_lookup(buses: Seq<(String, LeoConfig)>, key: Seq<char>) -> Option<LeoConfig>
    decreases buses.len(),
{
    if buses.len() == 0 {
        None
    } else if buses[0].0@ == key {
        Some(buses[0].1)
    } else {
        bus_lookup(buses.drop_first(), key)
    }
}

/// Looks the given bus name up in the configuration list.
fn bus_lookup_exec(buses: &Vec<(String, LeoConfig)>, key: &String) -> (r: Option<LeoConfig>)
    ensures
        match r {
            Some(c) => bus_lookup(buses@, key@) == Some(c),
            None => bus_lookup(buses@, key@) is None,
        },
{
    let n = buses.len();
    let mut i: usize = 0;
    proof {
        assert(buses@.skip(0) =~= buses@);
    }
    while i < n
        invariant
            i <= n,
            n == buses@.len(),
            bus_lookup(buses@, key@) == bus_lookup(buses@.skip(i as int), key@),
        decreases n - i,
    {
        proof {
            assert(buses@.skip(i as int)[0] == buses@[i as int]);
        }
        if buses[i].0.eq(key) {
            return Some(clone_config(&buses[i].1));
        }
        proof {
            assert(buses@.skip(i as int).drop_first() =~= buses@.skip(i + 1));
        }
        i = i + 1;
    }
    proof {
        assert(buses@.skip(n as int) =~= Seq::<(String, LeoConfig)>::empty());
    }
    None
}

/// The whole navigation state the state machine owns: the current mode,
/// the per-page states, the configuration, and the quit flag. The driver
/// owns everything else: the terminal, the store client, and the clocks.
#[derive(Debug)]
pub struct AppState {
    pub mode: AppTab,
    pub bus_select: BusSelectState,
    pub tab_index: usize,
    pub bot_page: BotPageState,
    pub debug_mode: bool,
    pub selected_bus: Option<String>,
    pub buses: Vec<(String, LeoConfig)>,
    pub loaded_config: Option<LeoConfig>,
    pub vertical_scroll: usize,
    pub stop_scroll: bool,
    pub exit: bool,
}

impl AppState {
    /// Builds the initial state from the startup parameters and the loaded
    /// configuration: with a pre-selected bus the dashboard starts on the
    /// main page with that bus's configuration, otherwise on the bus
    /// selection page; an unknown pre-selected bus is refused.
    pub fn new(params: &AppParams, buses: Vec<(String, LeoConfig)>) -> (r: Result<
        Self,
        AppError,
    >)
        ensures
            match r {
                Ok(st) => {
                    &&& st.mode == (match params.bus {
                        Some(_) => AppTab::Main,
                        None => AppTab::BusSelect,
                    })
                    &&& st.selected_bus == params.bus
                    &&& st.loaded_config == (match params.bus {
                        Some(b) => bus_lookup(buses@, b@),
                        None => None,
                    })
                    &&& (params.bus matches Some(b) ==> bus_lookup(buses@, b@) is Some)
                    &&& st.buses == buses
                    &&& string_views(st.bus_select.buses@) == sort_lex(bus_keys(buses@))
                    &&& st.bus_select.bus_selected_index == 0
                    &&& st.tab_index == 0
                    &&& st.debug_mode == params.debug
                    &&& st.vertical_scroll == 0
                    &&& !st.stop_scroll
                    &&& !st.exit
                    &&& st.bot_page.all_bots is None
                    &&& st.bot_page.selected_bot is None
                    &&& st.bot_page.search_results@.len() == 0
                    &&& st.bot_page.current_select_index == 0
                },
                Err(e) => e is UnknownBus && (params.bus matches Some(b) && bus_lookup(
                    buses@,
                    b@,
                ) is None),
            },
    {
        let (selected_bus, loaded_bus): (Option<String>, Option<LeoConfig>) = match &params.bus {
            Some(bus) => {
                match bus_lookup_exec(&buses, bus) {
                    Some(value) => (Some(bus.clone()), Some(value)),
                    None => {
                        return Err(AppError::UnknownBus);
                    },
                }
            },
            None => (None, None),
        };
        let mode = match &loaded_bus {
            Some(_) => AppTab::Main,
            None => AppTab::BusSelect,
        };
        Ok(Self {
            mode,
            tab_index: 0,
            bot_page: Default::default(),
            exit: false,
            bus_select: BusSelectState::new(&buses),
            buses,
            selected_bus,
            loaded_config: loaded_bus,
            debug_mode: params.debug,
            vertical_scroll: 0,
            stop_scroll: false,
        })
    }

    /// Resets the dashboard to the main page with the first tab selected.
    fn return_home(&mut self)
        ensures
            *final(self) == (Self { tab_index: 0, mode: AppTab::Main, ..*old(self) }),
    {
        self.tab_index = 0;
        self.mode = AppTab::Main;
    }

    /// Asks the event loop to stop.
    fn exit(&mut self)
        ensures
            *final(self) == (Self { exit: true, ..*old(self) }),
    {
        self.exit = true;
    }

    /// Cycles the main menu: up and down both step the two-entry tab list
    /// with wrap-around, enter opens the page of the current tab, and any
    /// other key is refused.
    pub fn navigate(&mut self, key: Key) -> (r: Result<(), AppError>)
        requires
            old(self).tab_index < 2,
        ensures
            match r {
                Ok(()) => match key {
                    Key::Down | Key::Up => *final(self) == (Self {
                        tab_index: if old(self).tab_index == 0 {
                            1
                        } else {
                            0
                        },
                        ..*old(self)
                    }),
                    Key::Enter => *final(self) == (Self {
                        mode: spec_tab_from(old(self).tab_index as int),
                        ..*old(self)
                    }),
                    _ => false,
                },
                Err(e) => !(key is Down || key is Up || key is Enter) && e is InvalidKey
                    && *final(self) == *old(self),
            },
    {
        match key {
            Key::Down => {
                let index = self.tab_index + 2;
                self.tab_index = (index + 1) % 2;
                Ok(())
            },
            Key::Up => {
                let index = self.tab_index + 2;
                self.tab_index = (index - 1) % 2;
                Ok(())
            },
            Key::Enter => {
                self.mode = AppTab::from(self.tab_index);
                Ok(())
            },
            _ => Err(AppError::InvalidKey),
        }
    }
}

/// Whether the loading page has everything it waits for: a non-empty bot
/// settings list and at least one statistics row.
pub open spec fn loading_ready(bp: BotPageState) -> bool {
    (bp.all_bots matches Some(l) && l@.len() > 0) && bp.stats@.len() > 0
}

/// The cursor after one step down a list of the given length, wrapping
/// from the end to the start.
pub open spec fn cycle_down(idx: int, len: int) -> int {
    ((idx % len) + 1) % len
}

/// The cursor after one step up a list of the given length, wrapping from
/// the start to the end.
pub open spec fn cycle_up(idx: int, len: int) -> int {
    ((idx % len) + len - 1) % len
}

/// Steps a cursor down, wrapping.
fn cycle_down_exec(idx: usize, len: usize) -> (r: usize)
    requires
        len > 0,
    ensures
        r == cycle_down(idx as int, len as int),
        r < len,
{
    let cur = idx % len;
    (cur + 1) % len
}

/// Steps a cursor up, wrapping.
fn cycle_up_exec(idx: usize, len: usize) -> (r: usize)
    requires
        len > 0,
    ensures
        r == cycle_up(idx as int, len as int),
        r < len,
{
    let cur = idx % len;
    if cur == 0 {
        proof {
            vstd::arithmetic::div_mod::lemma_small_mod((len - 1) as nat, len as nat);
        }
        len - 1
    } else {
        proof {
            vstd::arithmetic::div_mod::lemma_mod_multiples_vanish(1, cur - 1, len as int);
            vstd::arithmetic::div_mod::lemma_small_mod((cur - 1) as nat, len as nat);
        }
        cur - 1
    }
}

impl AppState {
    /// One step of the state machine: the pressed key, read against the
    /// current mode, moves selections, switches modes, asks the driver for
    /// a fetch, or is refused. Quit, home and the debug hotkey work in
    /// every mode. A refused key reports an error and changes nothing.
    pub fn handle_key_event(&mut self, key: Key) -> (r: Result<NavAction, AppError>)
        requires
            old(self).tab_index < 2,
            old(self).mode is Bot && key is Enter && old(self).bot_page.search_results@.len() > 0
                ==> old(self).bot_page.current_select_index < old(self).bot_page.search_results@.len() && old(self).loaded_config is Some,
            old(self).mode is BusSelect && key is Enter && old(self).bus_select.buses@.len() > 0
                ==> old(self).bus_select.bus_selected_index < old(self).bus_select.buses@.len(),
        ensures
            final(self).tab_index < 2,
            match key {
                Key::CharQ | Key::Esc => r matches Ok(a) && a is Idle && *final(self) == (Self {
                    exit: true,
                    ..*old(self)
                }),
                Key::Home => r matches Ok(a) && a is Idle && *final(self) == (Self {
                    tab_index: 0,
                    mode: AppTab::Main,
                    ..*old(self)
                }),
                Key::F5 => r matches Ok(a) && a is Idle && *final(self) == (if old(self).debug_mode {
                    (Self { mode: AppTab::StateView, ..*old(self) })
                } else {
                    *old(self)
                }),
                _ => match old(self).mode {
                    AppTab::Loading => r matches Ok(a) && a is Idle && *final(self) == (if
                    loading_ready(old(self).bot_page) {
                        (Self { mode: AppTab::Main, ..*old(self) })
                    } else {
                        *old(self)
                    }),
                    AppTab::Main => match r {
                        Ok(a) => a is Idle && match key {
                            Key::Down | Key::Up => *final(self) == (Self {
                                tab_index: if old(self).tab_index == 0 {
                                    1
                                } else {
                                    0
                                },
                                ..*old(self)
                            }),
                            Key::Enter => *final(self) == (Self {
                                mode: spec_tab_from(old(self).tab_index as int),
                                ..*old(self)
                            }),
                            _ => false,
                        },
                        Err(e) => !(key is Down || key is Up || key is Enter) && e is InvalidKey
                            && *final(self) == *old(self),
                    },
                    AppTab::Bot => {
                        let len = old(self).bot_page.search_results@.len() as int;
                        match key {
                            Key::Down => r matches Ok(a) && a is Idle && (if len > 0 {
                                let ni = cycle_down(
                                    old(self).bot_page.current_select_index as int,
                                    len,
                                );
                                *final(self) == (Self {
                                    bot_page: (BotPageState {
                                        current_select_index: ni as usize,
                                        ..old(self).bot_page
                                    }),
                                    ..*old(self)
                                })
                            } else {
                                *final(self) == *old(self)
                            }),
                            Key::Up => r matches Ok(a) && a is Idle && (if len > 0 {
                                let ni = cycle_up(
                                    old(self).bot_page.current_select_index as int,
                                    len,
                                );
                                *final(self) == (Self {
                                    bot_page: (BotPageState {
                                        current_select_index: ni as usize,
                                        ..old(self).bot_page
                                    }),
                                    ..*old(self)
                                })
                            } else {
                                *final(self) == *old(self)
                            }),
                            Key::Enter => (if len > 0 {
                                r matches Ok(a) && a matches NavAction::FetchBotStats {
                                    bot_name,
                                    bot_id,
                                    table,
                                } && bot_name == old(self).bot_page.search_results@[old(self).bot_page.current_select_index as int] && bot_id@ == "bot:"@ + bot_name@ && table@ == old(self).loaded_config->Some_0.leo_stats@ && *final(self) == *old(self)
                            } else {
                                r matches Ok(a) && a is Idle && *final(self) == *old(self)
                            }),
                            _ => r matches Ok(a) && a is ForwardToSearch && *final(self) == *old(self),
                        }
                    },
                    AppTab::BusSelect => {
                        let len = old(self).bus_select.buses@.len() as int;
                        match key {
                            Key::Down => r matches Ok(a) && a is Idle && (if len > 0 {
                                let ni = cycle_down(
                                    old(self).bus_select.bus_selected_index as int,
                                    len,
                                );
                                *final(self) == (Self {
                                    bus_select: (BusSelectState {
                                        bus_selected_index: ni as usize,
                                        vertical_scroll: if old(self).bus_select.vertical_scroll
                                            < usize::MAX {
                                            (old(self).bus_select.vertical_scroll + 1) as usize
                                        } else {
                                            usize::MAX
                                        },
                                        ..old(self).bus_select
                                    }),
                                    ..*old(self)
                                })
                            } else {
                                *final(self) == *old(self)
                            }),
                            Key::Up => r matches Ok(a) && a is Idle && (if len > 0 {
                                let ni = cycle_up(
                                    old(self).bus_select.bus_selected_index as int,
                                    len,
                                );
                                *final(self) == (Self {
                                    bus_select: (BusSelectState {
                                        bus_selected_index: ni as usize,
                                        vertical_scroll: if old(self).bus_select.vertical_scroll
                                            > 0 {
                                            (old(self).bus_select.vertical_scroll - 1) as usize
                                        } else {
                                            0
                                        },
                                        ..old(self).bus_select
                                    }),
                                    ..*old(self)
                                })
                            } else {
                                *final(self) == *old(self)
                            }),
                            Key::Enter => (if len > 0 {
                                let name = old(self).bus_select.buses@[old(self).bus_select.bus_selected_index as int];
                                match bus_lookup(old(self).buses@, name@) {
                                    Some(cfg) => r matches Ok(a) && a
                                        matches NavAction::FetchBotSettings { table } && table@
                                        == cfg.leo_cron@ && *final(self) == (Self {
                                        selected_bus: Some(name),
                                        loaded_config: Some(cfg),
                                        ..*old(self)
                                    }),
                                    None => r matches Err(e) && e is UnknownBus && *final(self)
                                        == *old(self),
                                }
                            } else {
                                r matches Ok(a) && a is Idle && *final(self) == *old(self)
                            }),
                            _ => r matches Err(e) && e is InvalidKey && *final(self) == *old(self),
                        }
                    },
                    AppTab::Queue => r matches Err(e) && e is UnimplementedQueueMode && *final(self) == *old(self),
                    AppTab::BotView => match old(self).bot_page.selected_bot {
                        Some(v) => match key {
                            Key::Up => r matches Ok(a) && a is Idle && *final(self) == (Self {
                                bot_page: (BotPageState {
                                    selected_bot: Some(
                                        (crate::pages::bot::BotViewState {
                                            vertical_scroll: if v.vertical_scroll > 0 {
                                                (v.vertical_scroll - 1) as usize
                                            } else {
                                                0
                                            },
                                            ..v
                                        }),
                                    ),
                                    ..old(self).bot_page
                                }),
                                ..*old(self)
                            }),
                            Key::Down => r matches Ok(a) && a is Idle && *final(self) == (Self {
                                bot_page: (BotPageState {
                                    selected_bot: Some(
                                        (crate::pages::bot::BotViewState {
                                            vertical_scroll: if v.vertical_scroll < usize::MAX {
                                                (v.vertical_scroll + 1) as usize
                                            } else {
                                                usize::MAX
                                            },
                                            ..v
                                        }),
                                    ),
                                    ..old(self).bot_page
                                }),
                                ..*old(self)
                            }),
                            Key::Tab => r matches Ok(a) && a is Idle && *final(self) == (Self {
                                mode: AppTab::Bot,
                                ..*old(self)
                            }),
                            _ => r matches Err(e) && e is InvalidKey && *final(self) == *old(self),
                        },
                        None => r matches Err(e) && e is NonExistentBot && *final(self) == *old(self),
                    },
                    AppTab::StateView => match key {
                        Key::Up => r matches Ok(a) && a is Idle && *final(self) == (Self {
                            vertical_scroll: if old(self).vertical_scroll > 0 {
                                (old(self).vertical_scroll - 1) as usize
                            } else {
                                0
                            },
                            ..*old(self)
                        }),
                        Key::Down => r matches Ok(a) && a is Idle && *final(self) == (if !old(self).stop_scroll {
                            (Self {
                                vertical_scroll: if old(self).vertical_scroll < usize::MAX {
                                    (old(self).vertical_scroll + 1) as usize
                                } else {
                                    usize::MAX
                                },
                                ..*old(self)
                            })
                        } else {
                            *old(self)
                        }),
                        Key::Tab => r matches Ok(a) && a is Idle && *final(self) == (Self {
                            mode: AppTab::Main,
                            ..*old(self)
                        }),
                        _ => r matches Err(e) && e is InvalidKey && *final(self) == *old(self),
                    },
                },
            },
    {
        match key {
            Key::CharQ | Key::Esc => {
                self.exit();
                Ok(NavAction::Idle)
            },
            Key::Home => {
                self.return_home();
                Ok(NavAction::Idle)
            },
            Key::F5 => {
                if self.debug_mode {
                    self.mode = AppTab::StateView;
                }
                Ok(NavAction::Idle)
            },
            _ => {
                match self.mode {
                    AppTab::Loading => {
                        let ready = match &self.bot_page.all_bots {
                            Some(l) => l.len() > 0,
                            None => false,
                        };
                        if ready && self.bot_page.stats.len() > 0 {
                            self.mode = AppTab::Main;
                        }
                        Ok(NavAction::Idle)
                    },
                    AppTab::Main => {
                        match self.navigate(key) {
                            Ok(()) => Ok(NavAction::Idle),
                            Err(e) => Err(e),
                        }
                    },
                    AppTab::Bot => {
                        let list_len = self.bot_page.search_results.len();
                        match key {
                            Key::Down => {
                                if list_len > 0 {
                                    self.bot_page.current_select_index = cycle_down_exec(
                                        self.bot_page.current_select_index,
                                        list_len,
                                    );
                                }
                                Ok(NavAction::Idle)
                            },
                            Key::Up => {
                                if list_len > 0 {
                                    self.bot_page.current_select_index = cycle_up_exec(
                                        self.bot_page.current_select_index,
                                        list_len,
                                    );
                                }
                                Ok(NavAction::Idle)
                            },
                            Key::Enter => {
                                if list_len > 0 {
                                    let bot_name =
                                        self.bot_page.search_results[self.bot_page.current_select_index].clone();
                                    let bot_id = String::from_str("bot:").concat(
                                        bot_name.as_str(),
                                    );
                                    let table = match &self.loaded_config {
                                        Some(cfg) => cfg.leo_stats.clone(),
                                        None => {
                                            proof {
                                                assert(false);
                                            }
                                            String::new()
                                        },
                                    };
                                    Ok(NavAction::FetchBotStats { bot_name, bot_id, table })
                                } else {
                                    Ok(NavAction::Idle)
                                }
                            },
                            _ => Ok(NavAction::ForwardToSearch),
                        }
                    },
                    AppTab::BusSelect => {
                        let bus_len = self.bus_select.buses.len();
                        match key {
                            Key::Down => {
                                if bus_len > 0 {
                                    self.bus_select.bus_selected_index = cycle_down_exec(
                                        self.bus_select.bus_selected_index,
                                        bus_len,
                                    );
                                    if self.bus_select.vertical_scroll < usize::MAX {
                                        self.bus_select.vertical_scroll =
                                            self.bus_select.vertical_scroll + 1;
                                    }
                                }
                                Ok(NavAction::Idle)
                            },
                            Key::Up => {
                                if bus_len > 0 {
                                    self.bus_select.bus_selected_index = cycle_up_exec(
                                        self.bus_select.bus_selected_index,
                                        bus_len,
                                    );
                                    if self.bus_select.vertical_scroll > 0 {
                                        self.bus_select.vertical_scroll =
                                            self.bus_select.vertical_scroll - 1;
                                    }
                                }
                                Ok(NavAction::Idle)
                            },
                            Key::Enter => {
                                if bus_len > 0 {
                                    let name =
                                        self.bus_select.buses[self.bus_select.bus_selected_index].clone();
                                    match bus_lookup_exec(&self.buses, &name) {
                                        Some(cfg) => {
                                            let table = cfg.leo_cron.clone();
                                            self.selected_bus = Some(name);
                                            self.loaded_config = Some(cfg);
                                            Ok(NavAction::FetchBotSettings { table })
                                        },
                                        None => Err(AppError::UnknownBus),
                                    }
                                } else {
                                    Ok(NavAction::Idle)
                                }
                            },
                            _ => Err(AppError::InvalidKey),
                        }
                    },
                    AppTab::Queue => Err(AppError::UnimplementedQueueMode),
                    AppTab::BotView => {
                        match self.bot_page.selected_bot.take() {
                            Some(mut view_state) => {
                                match key {
                                    Key::Up => {
                                        if view_state.vertical_scroll > 0 {
                                            view_state.vertical_scroll =
                                                view_state.vertical_scroll - 1;
                                        }
                                        self.bot_page.selected_bot = Some(view_state);
                                        Ok(NavAction::Idle)
                                    },
                                    Key::Down => {
                                        if view_state.vertical_scroll < usize::MAX {
                                            view_state.vertical_scroll =
                                                view_state.vertical_scroll + 1;
                                        }
                                        self.bot_page.selected_bot = Some(view_state);
                                        Ok(NavAction::Idle)
                                    },
                                    Key::Tab => {
                                        self.bot_page.selected_bot = Some(view_state);
                                        self.mode = AppTab::Bot;
                                        Ok(NavAction::Idle)
                                    },
                                    _ => {
                                        self.bot_page.selected_bot = Some(view_state);
                                        Err(AppError::InvalidKey)
                                    },
                                }
                            },
                            None => Err(AppError::NonExistentBot),
                        }
                    },
                    AppTab::StateView => {
                        match key {
                            Key::Up => {
                                if self.vertical_scroll > 0 {
                                    self.vertical_scroll = self.vertical_scroll - 1;
                                }
                                Ok(NavAction::Idle)
                            },
                            Key::Down => {
                                if !self.stop_scroll {
                                    if self.vertical_scroll < usize::MAX {
                                        self.vertical_scroll = self.vertical_scroll + 1;
                                    }
                                }
                                Ok(NavAction::Idle)
                            },
                            Key::Tab => {
                                self.mode = AppTab::Main;
                                Ok(NavAction::Idle)
                            },
                            _ => Err(AppError::InvalidKey),
                        }
                    },
                }
            },
        }
    }

    /// Applies a finished bot-settings fetch for the committed bus: the
    /// settings replace any held ones, the bot name list is rebuilt from
    /// them with the `bot:` marker removed, and the dashboard lands on the
    /// main page.
    pub fn apply_bot_settings(&mut self, settings: Vec<BotSettings>)
        ensures
            final(self).bot_page.all_bots == Some(settings),
            final(self).bot_page.bots@.len() == settings@.len(),
            forall|i: int|
                0 <= i < settings@.len() ==> (#[trigger] final(self).bot_page.bots@[i])@
                    == crate::text::replace_seq(settings@[i].id@, "bot:"@, ""@),
            final(self).mode is Main,
            *final(self) == (Self {
                mode: AppTab::Main,
                bot_page: (BotPageState {
                    all_bots: Some(settings),
                    bots: final(self).bot_page.bots,
                    ..old(self).bot_page
                }),
                ..*old(self)
            }),
    {
        self.bot_page.all_bots = Some(settings);
        self.bot_page.bot_names();
        self.mode = AppTab::Main;
    }

    /// Applies a finished statistics fetch for one bot: the fetched name
    /// is committed as the selection, the rows replace any held ones, the
    /// search box and its results are cleared, the detail view is built,
    /// and the dashboard lands on it. A failed detail build is reported
    /// with the prior selection name restored and the mode left in place,
    /// and it fails exactly when no settings are loaded or no settings row
    /// matches the name.
    pub fn apply_bot_stats(&mut self, bot_name: String, stats: Vec<DynamoStatsRecord>) -> (r:
        Result<NavAction, AppError>)
        requires
            forall|i: int| 0 <= i < stats@.len() ==> (#[trigger] stats@[i]).wf(),
        ensures
            final(self).bot_page.stats == stats,
            final(self).bot_page.search@.len() == 0,
            final(self).bot_page.search_results@.len() == 0,
            *final(self) == (Self {
                mode: final(self).mode,
                bot_page: (BotPageState {
                    stats: final(self).bot_page.stats,
                    search: final(self).bot_page.search,
                    search_results: final(self).bot_page.search_results,
                    selected_bot: final(self).bot_page.selected_bot,
                    selected_bot_name: final(self).bot_page.selected_bot_name,
                    ..old(self).bot_page
                }),
                ..*old(self)
            }),
            match r {
                Ok(a) => a is Idle && final(self).mode is BotView && final(self).bot_page.selected_bot_name == Some(bot_name) && (final(self).bot_page.selected_bot matches Some(v) && {
                    &&& old(self).bot_page.all_bots is Some
                    &&& crate::pages::bot::first_settings_match(
                        old(self).bot_page.all_bots->Some_0@,
                        bot_name@,
                        0,
                    ) matches Some(idx) && v.setting@ == old(self).bot_page.all_bots->Some_0@[idx]@
                    &&& rec_views(v.full_stats@) == crate::pages::bot::filtered_recs(
                        rec_views(stats@),
                        bot_name@,
                    )
                }),
                Err(e) => {
                    &&& final(self).mode == old(self).mode
                    &&& final(self).bot_page.selected_bot == old(self).bot_page.selected_bot
                    &&& final(self).bot_page.selected_bot_name == old(self).bot_page.selected_bot_name
                    &&& match e {
                        AppError::NoBotsLoaded => old(self).bot_page.all_bots is None,
                        AppError::SettingsNotFound => old(self).bot_page.all_bots is Some
                            && crate::pages::bot::first_settings_match(
                            old(self).bot_page.all_bots->Some_0@,
                            bot_name@,
                            0,
                        ) is None,
                        _ => false,
                    }
                },
            },
    {
        let previous = self.bot_page.selected_bot_name.take();
        self.bot_page.selected_bot_name = Some(bot_name);
        self.bot_page.stats = stats;
        self.bot_page.search = String::new();
        self.bot_page.search_results = Vec::new();
        match self.bot_page.get_bot_details() {
            Ok(()) => {
                self.mode = AppTab::BotView;
                Ok(NavAction::Idle)
            },
            Err(e) => {
                self.bot_page.selected_bot_name = previous;
                Err(e)
            },
        }
    }
}

} // verus!
