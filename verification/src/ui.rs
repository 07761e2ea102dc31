//! The row model of the read/write tables in the detail view: one row per
//! queue, showing the queue name without its marker prefix and the events
//! written over the three most recent buckets.

use vstd::prelude::*;

use crate::bot_stats::{qs_views, QueueStats, QueueStatsView};
use crate::text::{dec_seq, replace_seq};

verus! {

/// The units held in a stretch of per-queue stats.
pub open spec fn units_sum_seq(s: Seq<QueueStatsView>) -> int
    decreases s.len(),
{
    if s.len() == 0 {
        0
    } else {
        units_sum_seq(s.drop_last()) + s.last().units
    }
}

/// Where the three most recent entries of a stretch begin.
pub open spec fn recent_start(len: int) -> int {
    if len >= 3 {
        len - 3
    } else {
        0
    }
}

/// The units of the three most recent entries of a stretch.
pub open spec fn recent_units(s: Seq<QueueStatsView>) -> int {
    units_sum_seq(s.skip(recent_start(s.len() as int)))
}

/// One rendered table row: a queue and its recent event count.
pub struct TableData {
    queue: String,
    events_written: u32,
}

impl TableData {
    /// The displayed queue name.
    pub closed spec fn queue_name(self) -> Seq<char> {
        self.queue@
    }

    /// The displayed event count.
    pub closed spec fn events_count(self) -> int {
        self.events_written as int
    }

    /// Builds the row for one queue: the name loses every `queue:` marker,
    /// and the events of the three most recent stats are added up.
    pub fn new(queue: &str, events: &[QueueStats]) -> (r: Self)
        requires
            recent_units(qs_views(events@)) <= u32::MAX,
        ensures
            r.queue_name() == replace_seq(queue@, "queue:"@, ""@),
            r.events_count() == recent_units(qs_views(events@)),
    {
        proof {
            reveal_strlit("queue:");
        }
        let ghost evs = qs_views(events@);
        let len = events.len();
        let start: usize = if len >= 3 {
            len - 3
        } else {
            0
        };
        let mut event_count: u32 = 0;
        let mut i: usize = start;
        proof {
            assert(evs.skip(start as int).take(0) =~= Seq::<QueueStatsView>::empty());
            assert forall|j: int|
                start <= j < len implies evs.skip(start as int)[j - start] == #[trigger] evs[j] by {}
            assert forall|t: int| 0 <= t <= len - start implies units_sum_seq(
                evs.skip(start as int).take(t),
            ) >= 0 by {
                Self::lemma_units_sum_nonneg_real(evs, start as int, t);
            }
            assert forall|t: int| 0 <= t <= len - start implies units_sum_seq(
                evs.skip(start as int).take(t),
            ) <= units_sum_seq(evs.skip(start as int)) by {
                Self::lemma_units_sum_take_le(evs.skip(start as int), t);
            }
        }
        while i < len
            invariant
                start <= i <= len,
                len == evs.len(),
                start == recent_start(len as int),
                evs == qs_views(events@),
                recent_units(evs) <= u32::MAX,
                forall|j: int| 0 <= j < evs.len() ==> (#[trigger] evs[j]).units >= 0,
                event_count == units_sum_seq(evs.skip(start as int).take(i - start)),
                forall|t: int|
                    0 <= t <= len - start ==> units_sum_seq(
                        #[trigger] evs.skip(start as int).take(t),
                    ) <= units_sum_seq(evs.skip(start as int)),
            decreases len - i,
        {
            proof {
                assert(evs.skip(start as int).take(i - start + 1).drop_last() =~= evs.skip(
                    start as int,
                ).take(i - start));
                assert(evs.skip(start as int).take(i - start + 1).last() == evs[i as int]);
                assert(evs.skip(start as int).take((len - start) as int) =~= evs.skip(
                    start as int,
                ));
                assert(evs[i as int] == qs_views(events@)[i as int]);
            }
            event_count = event_count + events[i].units;
            i = i + 1;
        }
        proof {
            assert(evs.skip(start as int).take((len - start) as int) =~= evs.skip(start as int));
        }
        Self { queue: crate::text::replace_str(queue, "queue:", ""), events_written: event_count }
    }

    /// Unit counts of real stats are never negative.
    proof fn lemma_units_sum_nonneg_real(evs: Seq<QueueStatsView>, start: int, t: int)
        requires
            forall|j: int| 0 <= j < evs.len() ==> (#[trigger] evs[j]).units >= 0,
            0 <= start <= evs.len(),
            0 <= t <= evs.len() - start,
        ensures
            units_sum_seq(evs.skip(start).take(t)) >= 0,
        decreases t,
    {
        let s = evs.skip(start).take(t);
        if t > 0 {
            assert(s.drop_last() =~= evs.skip(start).take(t - 1));
            assert(s.last() == evs[start + t - 1]);
            Self::lemma_units_sum_nonneg_real(evs, start, t - 1);
        }
    }

    /// A prefix of a non-negative unit sum is at most the whole sum.
    proof fn lemma_units_sum_take_le(s: Seq<QueueStatsView>, t: int)
        requires
            0 <= t <= s.len(),
            forall|j: int| 0 <= j < s.len() ==> (#[trigger] s[j]).units >= 0,
        ensures
            units_sum_seq(s.take(t)) <= units_sum_seq(s),
        decreases s.len() - t,
    {
        if t == s.len() {
            assert(s.take(t) =~= s);
        } else {
            assert(s.take(t + 1).drop_last() =~= s.take(t));
            assert(s.take(t + 1).last() == s[t]);
            Self::lemma_units_sum_take_le(s, t + 1);
        }
    }

    /// The two cells of the rendered row: the queue name and the decimal
    /// event count.
    pub fn ref_array(&self) -> (r: [String; 2])
        ensures
            r@.len() == 2,
            r@[0]@ == self.queue_name(),
            r@[1]@ == dec_seq(self.events_count()),
    {
        [self.queue.clone(), crate::text::u32_to_dec_string(self.events_written)]
    }
}

} // verus!
