//! The queue page: the searchable list of queues and the per-queue detail
//! grouping. The page itself is a placeholder in the navigation, but its
//! search and grouping logic is live.

use vstd::prelude::*;

use crate::bot_stats::{dir_has, group_stats, grouped_dir, rec_views, DynamoStatsRecord,
    GroupedQueueStats};
use crate::dynamo::QueueDetails;
use crate::search::{rank_names, spec_rank, strs_view};
use crate::text::replace_seq;

verus! {

/// The searchable queue list page: the loaded queue definitions, the
/// queue names derived from them, the live search box with its ranked
/// results, and the selection.
#[derive(Debug)]
pub struct QueueSearchState {
    pub all_queues: Option<Vec<QueueDetails>>,
    pub current_select_index: usize,
    pub queues: Vec<String>,
    pub search: String,
    pub search_results: Vec<String>,
    pub selected_queue_name: Option<String>,
    pub selected_queue: Option<QueueViewState>,
    pub stats: Vec<DynamoStatsRecord>,
}

impl Default for QueueSearchState {
    /// The empty page: nothing loaded, nothing selected, empty search.
    fn default() -> (r: Self)
        ensures
            r.all_queues is None,
            r.current_select_index == 0,
            r.queues@.len() == 0,
            r.search@.len() == 0,
            r.search_results@.len() == 0,
            r.selected_queue_name is None,
            r.selected_queue is None,
            r.stats@.len() == 0,
    {
        QueueSearchState {
            all_queues: None,
            current_select_index: 0,
            queues: Vec::new(),
            search: String::new(),
            search_results: Vec::new(),
            selected_queue_name: None,
            selected_queue: None,
            stats: Vec::new(),
        }
    }
}

impl QueueSearchState {
    /// Rebuilds the queue name list from the loaded queue definitions,
    /// with the `queue:` marker removed from each event name.
    pub fn queue_names(&mut self)
        requires
            old(self).all_queues is Some,
        ensures
            final(self).queues@.len() == old(self).all_queues->Some_0@.len(),
            forall|i: int|
                0 <= i < final(self).queues@.len() ==> (#[trigger] final(self).queues@[i])@
                    == replace_seq(old(self).all_queues->Some_0@[i].event@, "queue:"@, ""@),
            *final(self) == (Self { queues: final(self).queues, ..*old(self) }),
    {
        proof {
            reveal_strlit("queue:");
        }
        let mut names: Vec<String> = Vec::new();
        match &self.all_queues {
            Some(list) => {
                let n = list.len();
                let mut i: usize = 0;
                while i < n
                    invariant
                        i <= n,
                        n == list@.len(),
                        "queue:"@.len() > 0,
                        names@.len() == i,
                        forall|j: int|
                            0 <= j < i ==> (#[trigger] names@[j])@ == replace_seq(
                                list@[j].event@,
                                "queue:"@,
                                ""@,
                            ),
                    decreases n - i,
                {
                    names.push(crate::text::replace_str(list[i].event.as_str(), "queue:", ""));
                    i = i + 1;
                }
            },
            None => {
                proof {
                    assert(false);
                }
            },
        }
        self.queues = names;
    }

    /// Re-runs the fuzzy search of the queue names against the search box.
    pub fn search_queues(&mut self)
        ensures
            strs_view(final(self).search_results@) == spec_rank(
                strs_view(old(self).queues@),
                old(self).search@,
            ),
            *final(self) == (Self { search_results: final(self).search_results, ..*old(self) }),
    {
        self.search_results = rank_names(&self.queues, self.search.as_str());
    }
}

/// The detail view of one selected queue: the rows that matched it, with
/// their per-queue stats grouped by the bots on each side.
#[derive(Debug)]
pub struct QueueViewState {
    pub vertical_scroll: usize,
    pub full_stats: Vec<DynamoStatsRecord>,
    pub write_stats: GroupedQueueStats,
    pub read_stats: GroupedQueueStats,
}

impl QueueViewState {
    /// Groups the write stats of the given rows by writer.
    pub fn write_stats_from_all_stats(stats: &[DynamoStatsRecord]) -> (r: GroupedQueueStats)
        requires
            forall|i: int| 0 <= i < stats@.len() ==> (#[trigger] stats@[i]).wf(),
        ensures
            r.wf(),
            forall|k: Seq<char>|
                #[trigger] r@.contains_key(k) <==> dir_has(
                    rec_views(stats@),
                    stats@.len() as int,
                    k,
                    true,
                ),
            forall|k: Seq<char>|
                #[trigger] r@.contains_key(k) ==> r@[k] == grouped_dir(rec_views(stats@), k, true),
    {
        group_stats(stats, true)
    }

    /// Groups the read stats of the given rows by reader.
    pub fn read_stats_from_all_stats(stats: &[DynamoStatsRecord]) -> (r: GroupedQueueStats)
        requires
            forall|i: int| 0 <= i < stats@.len() ==> (#[trigger] stats@[i]).wf(),
        ensures
            r.wf(),
            forall|k: Seq<char>|
                #[trigger] r@.contains_key(k) <==> dir_has(
                    rec_views(stats@),
                    stats@.len() as int,
                    k,
                    false,
                ),
            forall|k: Seq<char>|
                #[trigger] r@.contains_key(k) ==> r@[k] == grouped_dir(rec_views(stats@), k, false),
    {
        group_stats(stats, false)
    }
}

} // verus!
