//! The bot page: the searchable list of bots, the per-bot settings rows,
//! and the detail view of one selected bot with its grouped read and write
//! statistics.

use vstd::prelude::*;

use crate::bot_stats::{
    clone_record, dir_has, group_stats, grouped_dir, qs_views, rec_views, DynamoStatsRecord,
    GroupedQueueStats, StatsRecordView,
};
use crate::error::AppError;
use crate::search::{rank_names, spec_rank, strs_view};
use crate::text::{contains_sub, replace_seq, string_views};

verus! {

/// A value that rows encode either as text or as a number.
#[derive(Debug, Clone)]
pub enum StrOrNum {
    Str(String),
    Num(i64),
}

/// A field-by-field copy whose value is known, unlike the derived clone.
pub fn clone_str_or_num(v: &StrOrNum) -> (r: StrOrNum)
    ensures
        r == *v,
{
    match v {
        StrOrNum::Str(s) => StrOrNum::Str(s.clone()),
        StrOrNum::Num(n) => StrOrNum::Num(*n),
    }
}

/// One checkpoint cursor of a bot, per queue.
#[derive(Debug, Clone)]
pub struct CheckpointDetail {
    pub checkpoint: Option<StrOrNum>,
    pub ended_timestamp: Option<StrOrNum>,
    pub records: Option<u32>,
    pub source_timestamp: Option<StrOrNum>,
}

/// A field-by-field copy whose value is known.
pub fn clone_checkpoint_detail(v: &CheckpointDetail) -> (r: CheckpointDetail)
    ensures
        r == *v,
{
    CheckpointDetail {
        checkpoint: match &v.checkpoint {
            Some(c) => Some(clone_str_or_num(c)),
            None => None,
        },
        ended_timestamp: match &v.ended_timestamp {
            Some(c) => Some(clone_str_or_num(c)),
            None => None,
        },
        records: v.records,
        source_timestamp: match &v.source_timestamp {
            Some(c) => Some(clone_str_or_num(c)),
            None => None,
        },
    }
}

/// The checkpoint cursors a bot holds, per direction and queue.
#[derive(Debug, Clone)]
pub struct Checkpoints {
    pub read: Option<Vec<(String, CheckpointDetail)>>,
    pub write: Option<Vec<(String, CheckpointDetail)>>,
}

/// The mathematical value of a [`Checkpoints`].
pub ghost struct CheckpointsView {
    pub read: Option<Seq<(String, CheckpointDetail)>>,
    pub write: Option<Seq<(String, CheckpointDetail)>>,
}

impl View for Checkpoints {
    type V = CheckpointsView;

    open spec fn view(&self) -> CheckpointsView {
        CheckpointsView {
            read: match self.read {
                Some(v) => Some(v@),
                None => None,
            },
            write: match self.write {
                Some(v) => Some(v@),
                None => None,
            },
        }
    }
}

/// A copy of a checkpoint list whose entries are known to match.
fn clone_checkpoint_list(v: &Vec<(String, CheckpointDetail)>) -> (r: Vec<(String, CheckpointDetail)>)
    ensures
        r@ == v@,
{
    let n = v.len();
    let mut out: Vec<(String, CheckpointDetail)> = Vec::new();
    let mut i: usize = 0;
    while i < n
        invariant
            i <= n,
            n == v@.len(),
            out@.len() == i,
            forall|j: int| 0 <= j < i ==> #[trigger] out@[j] == v@[j],
        decreases n - i,
    {
        out.push((v[i].0.clone(), clone_checkpoint_detail(&v[i].1)));
        i = i + 1;
    }
    proof {
        assert(out@ =~= v@);
    }
    out
}

/// A copy of a checkpoints block whose view is known to match.
pub fn clone_checkpoints(v: &Checkpoints) -> (r: Checkpoints)
    ensures
        r@ == v@,
{
    Checkpoints {
        read: match &v.read {
            Some(l) => Some(clone_checkpoint_list(l)),
            None => None,
        },
        write: match &v.write {
            Some(l) => Some(clone_checkpoint_list(l)),
            None => None,
        },
    }
}

/// One recorded run of a bot.
#[derive(Debug, Clone)]
pub struct Instance {
    pub completed_time: Option<i64>,
    pub invoke_time: Option<i64>,
    pub max_duration: Option<u32>,
    pub request_id: Option<StrOrNum>,
    pub result: Option<String>,
    pub start_time: Option<i64>,
    pub status: Option<String>,
    pub token: Option<i64>,
}

/// A field-by-field copy whose value is known.
pub fn clone_instance(v: &Instance) -> (r: Instance)
    ensures
        r == *v,
{
    Instance {
        completed_time: v.completed_time,
        invoke_time: v.invoke_time,
        max_duration: v.max_duration,
        request_id: match &v.request_id {
            Some(c) => Some(clone_str_or_num(c)),
            None => None,
        },
        result: match &v.result {
            Some(s) => Some(s.clone()),
            None => None,
        },
        start_time: v.start_time,
        status: match &v.status {
            Some(s) => Some(s.clone()),
            None => None,
        },
        token: v.token,
    }
}

/// The deploy-time settings of a lambda worker.
#[derive(Debug)]
pub struct Lambda {
    pub settings: Vec<Vec<(String, String)>>,
}

/// One bot's settings row: identity and mostly-optional descriptive
/// metadata, loaded wholesale and never merged.
#[derive(Debug, Clone)]
pub struct BotSettings {
    pub id: String,
    pub checkpoints: Option<Checkpoints>,
    pub description: Option<String>,
    pub error_count: Option<u32>,
    pub execution_type: Option<String>,
    pub instances: Option<Vec<(String, Instance)>>,
    pub invoke_time: Option<i64>,
    pub lambda_name: Option<String>,
    pub message: Option<String>,
    pub name: Option<String>,
    pub paused: Option<bool>,
    pub progress: Option<Vec<(String, String)>>,
    pub requested_kinesis: Option<Vec<(String, String)>>,
    pub scheduled_trigger: Option<i64>,
    pub tags: Option<String>,
    pub token: Option<i64>,
    pub trigger: Option<i64>,
    pub triggers: Option<Vec<String>>,
    pub r_type: Option<String>,
}

/// The mathematical value of a [`BotSettings`].
pub ghost struct BotSettingsView {
    pub id: Seq<char>,
    pub checkpoints: Option<CheckpointsView>,
    pub description: Option<String>,
    pub error_count: Option<u32>,
    pub execution_type: Option<String>,
    pub instances: Option<Seq<(String, Instance)>>,
    pub invoke_time: Option<i64>,
    pub lambda_name: Option<String>,
    pub message: Option<String>,
    pub name: Option<String>,
    pub paused: Option<bool>,
    pub progress: Option<Seq<(String, String)>>,
    pub requested_kinesis: Option<Seq<(String, String)>>,
    pub scheduled_trigger: Option<i64>,
    pub tags: Option<String>,
    pub token: Option<i64>,
    pub trigger: Option<i64>,
    pub triggers: Option<Seq<String>>,
    pub r_type: Option<String>,
}

impl View for BotSettings {
    type V = BotSettingsView;

    open spec fn view(&self) -> BotSettingsView {
        BotSettingsView {
            id: self.id@,
            checkpoints: match self.checkpoints {
                Some(c) => Some(c@),
                None => None,
            },
            description: self.description,
            error_count: self.error_count,
            execution_type: self.execution_type,
            instances: match self.instances {
                Some(v) => Some(v@),
                None => None,
            },
            invoke_time: self.invoke_time,
            lambda_name: self.lambda_name,
            message: self.message,
            name: self.name,
            paused: self.paused,
            progress: match self.progress {
                Some(v) => Some(v@),
                None => None,
            },
            requested_kinesis: match self.requested_kinesis {
                Some(v) => Some(v@),
                None => None,
            },
            scheduled_trigger: self.scheduled_trigger,
            tags: self.tags,
            token: self.token,
            trigger: self.trigger,
            triggers: match self.triggers {
                Some(v) => Some(v@),
                None => None,
            },
            r_type: self.r_type,
        }
    }
}

/// A copy of a string-pair list whose entries are known to match.
fn clone_pair_list(v: &Vec<(String, String)>) -> (r: Vec<(String, String)>)
    ensures
        r@ == v@,
{
    let n = v.len();
    let mut out: Vec<(String, String)> = Vec::new();
    let mut i: usize = 0;
    while i < n
        invariant
            i <= n,
            n == v@.len(),
            out@.len() == i,
            forall|j: int| 0 <= j < i ==> #[trigger] out@[j] == v@[j],
        decreases n - i,
    {
        out.push((v[i].0.clone(), v[i].1.clone()));
        i = i + 1;
    }
    proof {
        assert(out@ =~= v@);
    }
    out
}

/// A copy of an instance list whose entries are known to match.
fn clone_instance_list(v: &Vec<(String, Instance)>) -> (r: Vec<(String, Instance)>)
    ensures
        r@ == v@,
{
    let n = v.len();
    let mut out: Vec<(String, Instance)> = Vec::new();
    let mut i: usize = 0;
    while i < n
        invariant
            i <= n,
            n == v@.len(),
            out@.len() == i,
            forall|j: int| 0 <= j < i ==> #[trigger] out@[j] == v@[j],
        decreases n - i,
    {
        out.push((v[i].0.clone(), clone_instance(&v[i].1)));
        i = i + 1;
    }
    proof {
        assert(out@ =~= v@);
    }
    out
}

/// A copy of a string list whose entries are known to match.
fn clone_string_list(v: &Vec<String>) -> (r: Vec<String>)
    ensures
        r@ == v@,
{
    let n = v.len();
    let mut out: Vec<String> = Vec::new();
    let mut i: usize = 0;
    while i < n
        invariant
            i <= n,
            n == v@.len(),
            out@.len() == i,
            forall|j: int| 0 <= j < i ==> #[trigger] out@[j] == v@[j],
        decreases n - i,
    {
        out.push(v[i].clone());
        i = i + 1;
    }
    proof {
        assert(out@ =~= v@);
    }
    out
}

/// A copy of a settings row whose view is known to match.
pub fn clone_settings(v: &BotSettings) -> (r: BotSettings)
    ensures
        r@ == v@,
{
    BotSettings {
        id: v.id.clone(),
        checkpoints: match &v.checkpoints {
            Some(c) => Some(clone_checkpoints(c)),
            None => None,
        },
        description: match &v.description {
            Some(s) => Some(s.clone()),
            None => None,
        },
        error_count: v.error_count,
        execution_type: match &v.execution_type {
            Some(s) => Some(s.clone()),
            None => None,
        },
        instances: match &v.instances {
            Some(l) => Some(clone_instance_list(l)),
            None => None,
        },
        invoke_time: v.invoke_time,
        lambda_name: match &v.lambda_name {
            Some(s) => Some(s.clone()),
            None => None,
        },
        message: match &v.message {
            Some(s) => Some(s.clone()),
            None => None,
        },
        name: match &v.name {
            Some(s) => Some(s.clone()),
            None => None,
        },
        paused: v.paused,
        progress: match &v.progress {
            Some(l) => Some(clone_pair_list(l)),
            None => None,
        },
        requested_kinesis: match &v.requested_kinesis {
            Some(l) => Some(clone_pair_list(l)),
            None => None,
        },
        scheduled_trigger: v.scheduled_trigger,
        tags: match &v.tags {
            Some(s) => Some(s.clone()),
            None => None,
        },
        token: v.token,
        trigger: v.trigger,
        triggers: match &v.triggers {
            Some(l) => Some(clone_string_list(l)),
            None => None,
        },
        r_type: match &v.r_type {
            Some(s) => Some(s.clone()),
            None => None,
        },
    }
}

/// A queue connection of a bot and how many actions ran over it.
#[derive(Debug)]
pub struct Connection {
    name: String,
    num_actions: u32,
}

/// The detail view of one selected bot: its settings row, the rows that
/// matched it, and those rows' per-queue stats grouped by queue.
#[derive(Debug)]
pub struct BotViewState {
    pub vertical_scroll: usize,
    pub setting: BotSettings,
    pub full_stats: Vec<DynamoStatsRecord>,
    pub write_stats: GroupedQueueStats,
    pub read_stats: GroupedQueueStats,
}

impl BotViewState {
    /// Builds the detail view: the write and read stats of the given rows
    /// are grouped by queue, and the scroll starts at the top.
    pub fn new(setting: BotSettings, stats: Vec<DynamoStatsRecord>) -> (r: Self)
        requires
            forall|i: int| 0 <= i < stats@.len() ==> (#[trigger] stats@[i]).wf(),
        ensures
            r.vertical_scroll == 0,
            r.setting == setting,
            r.full_stats == stats,
            r.write_stats.wf(),
            r.read_stats.wf(),
            forall|k: Seq<char>|
                #[trigger] r.write_stats@.contains_key(k) <==> dir_has(
                    rec_views(stats@),
                    stats@.len() as int,
                    k,
                    true,
                ),
            forall|k: Seq<char>|
                #[trigger] r.write_stats@.contains_key(k) ==> r.write_stats@[k] == grouped_dir(
                    rec_views(stats@),
                    k,
                    true,
                ),
            forall|k: Seq<char>|
                #[trigger] r.read_stats@.contains_key(k) <==> dir_has(
                    rec_views(stats@),
                    stats@.len() as int,
                    k,
                    false,
                ),
            forall|k: Seq<char>|
                #[trigger] r.read_stats@.contains_key(k) ==> r.read_stats@[k] == grouped_dir(
                    rec_views(stats@),
                    k,
                    false,
                ),
    {
        let write_stats = Self::write_stats_from_all_stats(stats.as_slice());
        let read_stats = Self::read_stats_from_all_stats(stats.as_slice());
        Self { vertical_scroll: 0, setting, write_stats, read_stats, full_stats: stats }
    }

    /// Groups the write stats of the given rows by queue.
    pub fn write_stats_from_all_stats(stats: &[DynamoStatsRecord]) -> (r: GroupedQueueStats)
        requires
            forall|i: int| 0 <= i < stats@.len() ==> (#[trigger] stats@[i]).wf(),
        ensures
            r.wf(),
            forall|k: Seq<char>|
                #[trigger] r@.contains_key(k) <==> dir_has(
                    rec_views(stats@),
                    stats@.len() as int,
                    k,
                    true,
                ),
            forall|k: Seq<char>|
                #[trigger] r@.contains_key(k) ==> r@[k] == grouped_dir(rec_views(stats@), k, true),
    {
        group_stats(stats, true)
    }

    /// Groups the read stats of the given rows by queue.
    pub fn read_stats_from_all_stats(stats: &[DynamoStatsRecord]) -> (r: GroupedQueueStats)
        requires
            forall|i: int| 0 <= i < stats@.len() ==> (#[trigger] stats@[i]).wf(),
        ensures
            r.wf(),
            forall|k: Seq<char>|
                #[trigger] r@.contains_key(k) <==> dir_has(
                    rec_views(stats@),
                    stats@.len() as int,
                    k,
                    false,
                ),
            forall|k: Seq<char>|
                #[trigger] r@.contains_key(k) ==> r@[k] == grouped_dir(rec_views(stats@), k, false),
    {
        group_stats(stats, false)
    }

    /// Scrolls the detail view: up and down move the offset by one,
    /// saturating at the bounds; any other key is refused.
    pub fn navigate(&mut self, key: crate::app::Key) -> (r: Result<(), AppError>)
        ensures
            match r {
                Ok(()) => (key is Up || key is Down) && *final(self) == (Self {
                    vertical_scroll: if key is Up {
                        if old(self).vertical_scroll > 0 {
                            (old(self).vertical_scroll - 1) as usize
                        } else {
                            0
                        }
                    } else {
                        if old(self).vertical_scroll < usize::MAX {
                            (old(self).vertical_scroll + 1) as usize
                        } else {
                            usize::MAX
                        }
                    },
                    ..*old(self)
                }),
                Err(e) => !(key is Up || key is Down) && e is InvalidKey && *final(self) == *old(self),
            },
    {
        match key {
            crate::app::Key::Up => {
                if self.vertical_scroll > 0 {
                    self.vertical_scroll = self.vertical_scroll - 1;
                }
                Ok(())
            },
            crate::app::Key::Down => {
                if self.vertical_scroll < usize::MAX {
                    self.vertical_scroll = self.vertical_scroll + 1;
                }
                Ok(())
            },
            _ => Err(AppError::InvalidKey),
        }
    }
}

/// The searchable bot list page: the loaded settings rows, the bot names
/// derived from them, the live search box with its ranked results, and the
/// selection.
#[derive(Debug)]
pub struct BotPageState {
    pub bots: Vec<String>,
    pub stats: Vec<DynamoStatsRecord>,
    pub selected_bot_name: Option<String>,
    pub current_select_index: usize,
    pub selected_bot: Option<BotViewState>,
    pub all_bots: Option<Vec<BotSettings>>,
    pub search: String,
    pub search_results: Vec<String>,
}

impl Default for BotPageState {
    /// The empty page: nothing loaded, nothing selected, empty search.
    fn default() -> (r: Self)
        ensures
            r.bots@.len() == 0,
            r.stats@.len() == 0,
            r.selected_bot_name is None,
            r.current_select_index == 0,
            r.selected_bot is None,
            r.all_bots is None,
            r.search@.len() == 0,
            r.search_results@.len() == 0,
    {
        BotPageState {
            bots: Vec::new(),
            stats: Vec::new(),
            selected_bot_name: None,
            current_select_index: 0,
            selected_bot: None,
            all_bots: None,
            search: String::new(),
            search_results: Vec::new(),
        }
    }
}

/// The first settings row whose id contains the selection, scanning from
/// the given position.
pub open spec fn first_settings_match(
    list: Seq<BotSettings>,
    sel: Seq<char>,
    from: int,
) -> Option<int>
    decreases list.len() - from,
        when 0 <= from <= list.len()
{
    if from >= list.len() {
        None
    } else if contains_sub(list[from].id@, sel) {
        Some(from)
    } else {
        first_settings_match(list, sel, from + 1)
    }
}

/// The rows whose entity id contains the selection and whose period tag is
/// the fifteen-minute bucket.
pub open spec fn matches_selected(r: StatsRecordView, sel: Seq<char>) -> bool {
    contains_sub(r.id, sel) && r.period == "minute_15"@
}

/// Those of the given rows that match the selection, in row order.
pub open spec fn filtered_recs(rs: Seq<StatsRecordView>, sel: Seq<char>) -> Seq<StatsRecordView>
    decreases rs.len(),
{
    if rs.len() == 0 {
        Seq::empty()
    } else {
        filtered_recs(rs.drop_last(), sel) + (if matches_selected(rs.last(), sel) {
            seq![rs.last()]
        } else {
            Seq::empty()
        })
    }
}

impl BotPageState {
    /// Rebuilds the bot name list from the loaded settings rows, with the
    /// `bot:` marker removed from each id.
    pub fn bot_names(&mut self)
        requires
            old(self).all_bots is Some,
        ensures
            final(self).bots@.len() == old(self).all_bots->Some_0@.len(),
            forall|i: int|
                0 <= i < final(self).bots@.len() ==> (#[trigger] final(self).bots@[i])@
                    == replace_seq(old(self).all_bots->Some_0@[i].id@, "bot:"@, ""@),
            *final(self) == (Self { bots: final(self).bots, ..*old(self) }),
    {
        proof {
            reveal_strlit("bot:");
        }
        let mut names: Vec<String> = Vec::new();
        match &self.all_bots {
            Some(list) => {
                let n = list.len();
                let mut i: usize = 0;
                while i < n
                    invariant
                        i <= n,
                        n == list@.len(),
                        "bot:"@.len() > 0,
                        names@.len() == i,
                        forall|j: int|
                            0 <= j < i ==> (#[trigger] names@[j])@ == replace_seq(
                                list@[j].id@,
                                "bot:"@,
                                ""@,
                            ),
                    decreases n - i,
                {
                    names.push(crate::text::replace_str(list[i].id.as_str(), "bot:", ""));
                    i = i + 1;
                }
            },
            None => {
                proof {
                    assert(false);
                }
            },
        }
        self.bots = names;
    }

    /// Re-runs the fuzzy search of the bot names against the search box.
    pub fn search_bots(&mut self)
        ensures
            strs_view(final(self).search_results@) == spec_rank(
                strs_view(old(self).bots@),
                old(self).search@,
            ),
            *final(self) == (Self { search_results: final(self).search_results, ..*old(self) }),
    {
        self.search_results = rank_names(&self.bots, self.search.as_str());
    }

    /// Replaces the search box content, re-runs the fuzzy search, and
    /// pulls the selection cursor back to the top when the rebuilt result
    /// list no longer reaches it.
    pub fn set_search(&mut self, value: String)
        ensures
            final(self).search == value,
            strs_view(final(self).search_results@) == spec_rank(
                strs_view(old(self).bots@),
                value@,
            ),
            final(self).current_select_index == if old(self).current_select_index < final(self).search_results@.len() {
                old(self).current_select_index
            } else {
                0
            },
            *final(self) == (Self {
                search: final(self).search,
                search_results: final(self).search_results,
                current_select_index: final(self).current_select_index,
                ..*old(self)
            }),
    {
        self.search = value;
        self.search_bots();
        if self.current_select_index >= self.search_results.len() {
            self.current_select_index = 0;
        }
    }

    /// Builds the detail view for the selected bot: the held rows are
    /// filtered to the selection at fifteen-minute granularity, and the
    /// first settings row whose id contains the selection is copied in.
    /// Missing prerequisites are reported, leaving the page unchanged.
    pub fn get_bot_details(&mut self) -> (r: Result<(), AppError>)
        requires
            forall|i: int|
                0 <= i < old(self).stats@.len() ==> (#[trigger] old(self).stats@[i]).wf(),
        ensures
            match r {
                Ok(()) => {
                    &&& old(self).all_bots is Some
                    &&& old(self).selected_bot_name is Some
                    &&& first_settings_match(
                        old(self).all_bots->Some_0@,
                        old(self).selected_bot_name->Some_0@,
                        0,
                    ) matches Some(idx) && {
                        &&& final(self).selected_bot matches Some(v)
                        &&& v.setting@ == old(self).all_bots->Some_0@[idx]@
                        &&& rec_views(v.full_stats@) == filtered_recs(
                            rec_views(old(self).stats@),
                            old(self).selected_bot_name->Some_0@,
                        )
                        &&& v.vertical_scroll == 0
                        &&& v.write_stats.wf()
                        &&& v.read_stats.wf()
                        &&& (forall|k: Seq<char>|
                            #[trigger] v.write_stats@.contains_key(k) <==> dir_has(
                                rec_views(v.full_stats@),
                                v.full_stats@.len() as int,
                                k,
                                true,
                            ))
                        &&& (forall|k: Seq<char>|
                            #[trigger] v.write_stats@.contains_key(k) ==> v.write_stats@[k]
                                == grouped_dir(rec_views(v.full_stats@), k, true))
                        &&& (forall|k: Seq<char>|
                            #[trigger] v.read_stats@.contains_key(k) <==> dir_has(
                                rec_views(v.full_stats@),
                                v.full_stats@.len() as int,
                                k,
                                false,
                            ))
                        &&& (forall|k: Seq<char>|
                            #[trigger] v.read_stats@.contains_key(k) ==> v.read_stats@[k]
                                == grouped_dir(rec_views(v.full_stats@), k, false))
                    }
                    &&& *final(self) == (Self {
                        selected_bot: final(self).selected_bot,
                        ..*old(self)
                    })
                },
                Err(e) => {
                    &&& *final(self) == *old(self)
                    &&& match e {
                        AppError::NoBotsLoadedAndNoBotSelected => old(self).all_bots is None && old(self).selected_bot_name is None,
                        AppError::NoBotsLoaded => old(self).all_bots is None && old(self).selected_bot_name is Some,
                        AppError::NoBotSelected => old(self).all_bots is Some && old(self).selected_bot_name is None,
                        AppError::SettingsNotFound => old(self).all_bots is Some && old(self).selected_bot_name is Some && first_settings_match(
                            old(self).all_bots->Some_0@,
                            old(self).selected_bot_name->Some_0@,
                            0,
                        ) is None,
                        _ => false,
                    }
                },
            },
    {
        let (has_bots, has_sel) = (self.all_bots.is_some(), self.selected_bot_name.is_some());
        if !has_bots && !has_sel {
            return Err(AppError::NoBotsLoadedAndNoBotSelected);
        }
        if !has_bots {
            return Err(AppError::NoBotsLoaded);
        }
        if !has_sel {
            return Err(AppError::NoBotSelected);
        }
        let ghost rv = rec_views(self.stats@);
        let ghost selv = self.selected_bot_name->Some_0@;
        let mut bot_stats: Vec<DynamoStatsRecord> = Vec::new();
        match (&self.all_bots, &self.selected_bot_name) {
            (Some(all_bots), Some(selected)) => {
                let n = self.stats.len();
                let mut i: usize = 0;
                proof {
                    reveal_strlit("minute_15");
                    assert(rv.take(0) =~= Seq::<StatsRecordView>::empty());
                    assert(rec_views(bot_stats@) =~= filtered_recs(rv.take(0), selv));
                }
                while i < n
                    invariant
                        i <= n,
                        n == self.stats@.len(),
                        rv == rec_views(self.stats@),
                        rv.len() == n,
                        selv == selected@,
                        forall|j: int|
                            0 <= j < n ==> (#[trigger] self.stats@[j]).wf() && rv[j]
                                == self.stats@[j]@,
                        forall|j: int|
                            0 <= j < bot_stats@.len() ==> (#[trigger] bot_stats@[j]).wf(),
                        rec_views(bot_stats@) == filtered_recs(rv.take(i as int), selv),
                    decreases n - i,
                {
                    let rec = &self.stats[i];
                    let ghost pre = bot_stats@;
                    proof {
                        assert(rv.take(i + 1).drop_last() =~= rv.take(i as int));
                        assert(rv.take(i + 1).last() == rv[i as int]);
                    }
                    let keep = crate::text::str_contains(rec.id.as_str(), selected.as_str())
                        && crate::text::str_eq_str(rec.period.as_str(), "minute_15");
                    proof {
                        assert(keep == matches_selected(rv[i as int], selv));
                    }
                    if keep {
                        bot_stats.push(clone_record(rec));
                        proof {
                            assert(rec_views(bot_stats@) =~= rec_views(pre).push(rv[i as int]));
                            assert(filtered_recs(rv.take(i + 1), selv) =~= filtered_recs(
                                rv.take(i as int),
                                selv,
                            ).push(rv[i as int]));
                        }
                    } else {
                        proof {
                            assert(filtered_recs(rv.take(i + 1), selv) =~= filtered_recs(
                                rv.take(i as int),
                                selv,
                            ));
                        }
                    }
                    i = i + 1;
                }
                proof {
                    assert(rv.take(n as int) =~= rv);
                }
                let bn = all_bots.len();
                let mut s: usize = 0;
                let mut found: Option<usize> = None;
                while s < bn
                    invariant_except_break
                        found is None,
                    invariant
                        s <= bn,
                        bn == all_bots@.len(),
                        selv == selected@,
                        first_settings_match(all_bots@, selv, 0) == first_settings_match(
                            all_bots@,
                            selv,
                            s as int,
                        ),
                    ensures
                        s <= bn,
                        bn == all_bots@.len(),
                        match found {
                            Some(idx) => idx < bn && first_settings_match(all_bots@, selv, 0)
                                == Some(idx as int),
                            None => first_settings_match(all_bots@, selv, 0) is None,
                        },
                    decreases bn - s,
                {
                    if crate::text::str_contains(all_bots[s].id.as_str(), selected.as_str()) {
                        found = Some(s);
                        break ;
                    }
                    s = s + 1;
                }
                match found {
                    Some(idx) => {
                        let settings = clone_settings(&all_bots[idx]);
                        let view_state = BotViewState::new(settings, bot_stats);
                        self.selected_bot = Some(view_state);
                        Ok(())
                    },
                    None => Err(AppError::SettingsNotFound),
                }
            },
            _ => {
                proof {
                    assert(false);
                }
                Err(AppError::NoBotsLoaded)
            },
        }
    }
}

} // verus!
