//! The statistics merge engine: raw per-bucket statistics rows are folded
//! into one condensed summary with summed counters, a running maximum and a
//! guarded running minimum, plus per-queue read and write summaries merged
//! key by key.

use vstd::prelude::*;

use crate::error::AppError;

verus! {

/// The per-queue slice of one statistics row, and the accumulator its
/// merges produce: merging keeps the later timestamps, sums the units, and
/// lets an incoming checkpoint overwrite the held one (last write wins).
#[derive(Debug, Clone)]
pub struct QueueStats {
    pub checkpoint: Option<String>,
    pub source_timestamp: i64,
    pub timestamp: i64,
    pub units: u32,
}

/// The mathematical value of a [`QueueStats`].
pub ghost struct QueueStatsView {
    pub checkpoint: Option<Seq<char>>,
    pub source_timestamp: int,
    pub timestamp: int,
    pub units: int,
}

impl View for QueueStats {
    type V = QueueStatsView;

    open spec fn view(&self) -> QueueStatsView {
        QueueStatsView {
            checkpoint: match self.checkpoint {
                Some(c) => Some(c@),
                None => None,
            },
            source_timestamp: self.source_timestamp as int,
            timestamp: self.timestamp as int,
            units: self.units as int,
        }
    }
}

/// What merging an incoming per-queue stat into a held one yields:
/// timestamps step to the maximum, units add up, and the incoming
/// checkpoint, when present, replaces the held one.
pub open spec fn spec_merge_queue(a: QueueStatsView, b: QueueStatsView) -> QueueStatsView {
    QueueStatsView {
        checkpoint: if b.checkpoint is Some {
            b.checkpoint
        } else {
            a.checkpoint
        },
        source_timestamp: if a.source_timestamp >= b.source_timestamp {
            a.source_timestamp
        } else {
            b.source_timestamp
        },
        timestamp: if a.timestamp >= b.timestamp {
            a.timestamp
        } else {
            b.timestamp
        },
        units: a.units + b.units,
    }
}

impl QueueStats {
    /// Folds `other` into `self` per [`spec_merge_queue`]. The unit counters
    /// must not add past the counter width.
    pub fn merge(&mut self, other: &Self)
        requires
            old(self).units + other.units <= u32::MAX,
        ensures
            final(self)@ == spec_merge_queue(old(self)@, other@),
    {
        if other.source_timestamp > self.source_timestamp {
            self.source_timestamp = other.source_timestamp;
        }
        if other.timestamp > self.timestamp {
            self.timestamp = other.timestamp;
        }
        self.units = self.units + other.units;
        match &other.checkpoint {
            Some(other_check) => {
                self.checkpoint = Some(other_check.clone());
            },
            None => {},
        }
    }
}

/// A field-by-field copy whose value is known, unlike the derived clone.
fn clone_stat(s: &QueueStats) -> (r: QueueStats)
    ensures
        r@ == s@,
{
    QueueStats {
        checkpoint: match &s.checkpoint {
            Some(c) => Some(c.clone()),
            None => None,
        },
        source_timestamp: s.source_timestamp,
        timestamp: s.timestamp,
        units: s.units,
    }
}

/// The finite map that a sequence of key-value pairs spells out, later
/// entries winning.
pub open spec fn kv_map(s: Seq<(Seq<char>, QueueStatsView)>) -> Map<Seq<char>, QueueStatsView>
    decreases s.len(),
{
    if s.len() == 0 {
        Map::empty()
    } else {
        kv_map(s.drop_last()).insert(s.last().0, s.last().1)
    }
}

/// A map from queue identifier to per-queue stats, held as an association
/// list with pairwise distinct keys.
#[derive(Debug, Clone)]
pub struct QueueStatsMap {
    entries: Vec<(String, QueueStats)>,
}

impl View for QueueStatsMap {
    type V = Map<Seq<char>, QueueStatsView>;

    closed spec fn view(&self) -> Map<Seq<char>, QueueStatsView> {
        kv_map(self.kv_seq())
    }
}

impl QueueStatsMap {
    /// The held entries, as key-value pairs in insertion order.
    pub closed spec fn kv_seq(self) -> Seq<(Seq<char>, QueueStatsView)> {
        self.entries@.map_values(|e: (String, QueueStats)| (e.0@, e.1@))
    }

    /// Keys are pairwise distinct, so the entry list and the map carry the
    /// same information.
    pub open spec fn wf(self) -> bool {
        forall|i: int, j: int|
            0 <= i < j < self.kv_seq().len() ==> (#[trigger] self.kv_seq()[i]).0 != (
            #[trigger] self.kv_seq()[j]).0
    }

    /// An empty map.
    pub fn new() -> (r: Self)
        ensures
            r.wf(),
            r@ == Map::<Seq<char>, QueueStatsView>::empty(),
            r.kv_seq() == Seq::<(Seq<char>, QueueStatsView)>::empty(),
    {
        let r = Self { entries: Vec::new() };
        proof {
            assert(r.kv_seq() =~= Seq::<(Seq<char>, QueueStatsView)>::empty());
        }
        r
    }

    /// How many entries the map holds.
    pub fn entry_count(&self) -> (r: usize)
        ensures
            r == self.kv_seq().len(),
    {
        self.entries.len()
    }

    /// The entry at a position of the insertion order.
    pub fn entry_at(&self, i: usize) -> (r: (&String, &QueueStats))
        requires
            i < self.kv_seq().len(),
        ensures
            r.0@ == self.kv_seq()[i as int].0,
            r.1@ == self.kv_seq()[i as int].1,
    {
        let e = &self.entries[i];
        (&e.0, &e.1)
    }

    /// Every listed entry is in the map, at its listed value when keys are
    /// distinct, and nothing else is.
    pub proof fn lemma_kv_map(s: Seq<(Seq<char>, QueueStatsView)>)
        ensures
            forall|k: Seq<char>|
                #[trigger] kv_map(s).contains_key(k) <==> exists|i: int|
                    0 <= i < s.len() && (#[trigger] s[i]).0 == k,
            (forall|i: int, j: int|
                0 <= i < j < s.len() ==> (#[trigger] s[i]).0 != (#[trigger] s[j]).0) ==> forall|
                i: int,
            |
                0 <= i < s.len() ==> kv_map(s).contains_key((#[trigger] s[i]).0) && kv_map(s)[s[i].0]
                    == s[i].1,
        decreases s.len(),
    {
        if s.len() > 0 {
            Self::lemma_kv_map(s.drop_last());
            assert forall|k: Seq<char>| #[trigger]
                kv_map(s).contains_key(k) implies exists|i: int|
                0 <= i < s.len() && (#[trigger] s[i]).0 == k by {
                if k == s.last().0 {
                    assert(s[s.len() - 1].0 == k);
                } else {
                    assert(kv_map(s.drop_last()).contains_key(k));
                    let i = choose|i: int|
                        0 <= i < s.drop_last().len() && (#[trigger] s.drop_last()[i]).0 == k;
                    assert(s.drop_last()[i] == s[i]);
                    assert(s[i].0 == k);
                }
            }
            assert forall|k: Seq<char>|
                (exists|i: int| 0 <= i < s.len() && (#[trigger] s[i]).0 == k) implies #[trigger]
                kv_map(s).contains_key(k) by {
                let i = choose|i: int| 0 <= i < s.len() && (#[trigger] s[i]).0 == k;
                if i < s.len() - 1 {
                    assert(s.drop_last()[i] == s[i]);
                    assert((s.drop_last()[i]).0 == k);
                    assert(kv_map(s.drop_last()).contains_key(k));
                } else {
                    assert(k == s.last().0);
                }
            }
            if forall|i: int, j: int|
                0 <= i < j < s.len() ==> (#[trigger] s[i]).0 != (#[trigger] s[j]).0 {
                assert forall|i: int|
                    0 <= i < s.len() implies kv_map(s).contains_key((#[trigger] s[i]).0) && kv_map(
                    s,
                )[s[i].0] == s[i].1 by {
                    if i < s.len() - 1 {
                        assert(s.drop_last()[i] == s[i]);
                        assert(s[i].0 != s[s.len() - 1].0);
                    }
                }
            }
        }
    }

    /// Updating an entry in place rewrites the map at that entry's key.
    proof fn lemma_kv_map_update(s: Seq<(Seq<char>, QueueStatsView)>, i: int, v: QueueStatsView)
        requires
            forall|p: int, q: int| 0 <= p < q < s.len() ==> (#[trigger] s[p]).0 != (#[trigger] s[q]).0,
            0 <= i < s.len(),
        ensures
            kv_map(s.update(i, (s[i].0, v))) == kv_map(s).insert(s[i].0, v),
        decreases s.len(),
    {
        let s2 = s.update(i, (s[i].0, v));
        if i == s.len() - 1 {
            assert(s2.drop_last() =~= s.drop_last());
            assert(s2.last() == (s[i].0, v));
            assert(kv_map(s.drop_last()).insert(s[i].0, s[i].1).insert(s[i].0, v) =~= kv_map(
                s.drop_last(),
            ).insert(s[i].0, v));
        } else {
            assert(s2.drop_last() =~= s.drop_last().update(i, (s[i].0, v)));
            assert(s.drop_last()[i] == s[i]);
            Self::lemma_kv_map_update(s.drop_last(), i, v);
            assert(s2.last() == s.last());
            assert(s[i].0 != s.last().0);
            assert(kv_map(s.drop_last()).insert(s[i].0, v).insert(s.last().0, s.last().1) =~= kv_map(
                s.drop_last(),
            ).insert(s.last().0, s.last().1).insert(s[i].0, v));
        }
    }

    /// The position a key is held at, if any.
    fn find_idx(&self, key: &String) -> (r: Option<usize>)
        ensures
            match r {
                Some(i) => i < self.kv_seq().len() && self.kv_seq()[i as int].0 == key@,
                None => forall|j: int|
                    0 <= j < self.kv_seq().len() ==> (#[trigger] self.kv_seq()[j]).0 != key@,
            },
    {
        let n = self.entries.len();
        let mut i: usize = 0;
        while i < n
            invariant
                i <= n,
                n == self.kv_seq().len(),
                forall|j: int| 0 <= j < i ==> (#[trigger] self.kv_seq()[j]).0 != key@,
            decreases n - i,
        {
            if self.entries[i].0.eq(key) {
                assert(self.kv_seq()[i as int].0 == key@);
                return Some(i);
            }
            assert(self.kv_seq()[i as int].0 != key@);
            i = i + 1;
        }
        None
    }

    /// Folds one incoming per-queue stat into the map: merged into the held
    /// stat when the key is present, inserted as a copy otherwise.
    pub fn merge_entry(&mut self, key: &String, stat: &QueueStats)
        requires
            old(self).wf(),
            old(self)@.contains_key(key@) ==> old(self)@[key@].units + stat@.units <= u32::MAX,
        ensures
            final(self).wf(),
            final(self)@ == if old(self)@.contains_key(key@) {
                old(self)@.insert(key@, spec_merge_queue(old(self)@[key@], stat@))
            } else {
                old(self)@.insert(key@, stat@)
            },
    {
        proof {
            Self::lemma_kv_map(self.kv_seq());
        }
        match self.find_idx(key) {
            Some(i) => {
                assert(self@.contains_key(key@) && self@[key@] == self.kv_seq()[i as int].1);
                let key_copy = self.entries[i].0.clone();
                let mut cur = clone_stat(&self.entries[i].1);
                cur.merge(stat);
                let ghost s = self.kv_seq();
                self.entries[i] = (key_copy, cur);
                proof {
                    assert(self.kv_seq() =~= s.update(
                        i as int,
                        (key@, spec_merge_queue(old(self)@[key@], stat@)),
                    ));
                    assert(s[i as int].0 == key@);
                    Self::lemma_kv_map_update(
                        s,
                        i as int,
                        spec_merge_queue(old(self)@[key@], stat@),
                    );
                    assert forall|p: int, q: int|
                        0 <= p < q < self.kv_seq().len() implies (#[trigger] self.kv_seq()[p]).0
                        != (#[trigger] self.kv_seq()[q]).0 by {
                        assert(s[p].0 == self.kv_seq()[p].0);
                        assert(s[q].0 == self.kv_seq()[q].0);
                    }
                }
            },
            None => {
                assert(!self@.contains_key(key@));
                let ghost s = self.kv_seq();
                self.entries.push((key.clone(), clone_stat(stat)));
                proof {
                    assert(self.kv_seq() =~= s.push((key@, stat@)));
                    assert(self.kv_seq().drop_last() =~= s);
                    assert forall|p: int, q: int|
                        0 <= p < q < self.kv_seq().len() implies (#[trigger] self.kv_seq()[p]).0
                        != (#[trigger] self.kv_seq()[q]).0 by {
                        if q < s.len() {
                            assert(s[p].0 == self.kv_seq()[p].0);
                            assert(s[q].0 == self.kv_seq()[q].0);
                        } else {
                            assert(s[p].0 == self.kv_seq()[p].0);
                            assert(self.kv_seq()[q].0 == key@);
                        }
                    }
                }
            },
        }
    }

    /// Looks a key up.
    pub fn get(&self, key: &String) -> (r: Option<&QueueStats>)
        requires
            self.wf(),
        ensures
            match r {
                Some(v) => self@.contains_key(key@) && v@ == self@[key@],
                None => !self@.contains_key(key@),
            },
    {
        proof {
            Self::lemma_kv_map(self.kv_seq());
        }
        let n = self.entries.len();
        let mut i: usize = 0;
        while i < n
            invariant
                i <= n,
                n == self.kv_seq().len(),
                self.wf(),
                forall|j: int| 0 <= j < i ==> (#[trigger] self.kv_seq()[j]).0 != key@,
                forall|k: Seq<char>|
                    #[trigger] self@.contains_key(k) <==> exists|j: int|
                        0 <= j < self.kv_seq().len() && (#[trigger] self.kv_seq()[j]).0 == k,
                forall|j: int|
                    0 <= j < self.kv_seq().len() ==> self@.contains_key(
                        (#[trigger] self.kv_seq()[j]).0,
                    ) && self@[self.kv_seq()[j].0] == self.kv_seq()[j].1,
            decreases n - i,
        {
            if self.entries[i].0.eq(key) {
                assert(self.kv_seq()[i as int].0 == key@);
                return Some(&self.entries[i].1);
            }
            assert(self.kv_seq()[i as int].0 != key@);
            i = i + 1;
        }
        proof {
            if self@.contains_key(key@) {
                let j = choose|j: int|
                    0 <= j < self.kv_seq().len() && (#[trigger] self.kv_seq()[j]).0 == key@;
            }
        }
        None
    }
}

/// What both queue maps of a merge must satisfy so that no per-key unit sum
/// overflows its counter.
pub open spec fn maps_fit(
    a: Map<Seq<char>, QueueStatsView>,
    b: Map<Seq<char>, QueueStatsView>,
) -> bool {
    forall|k: Seq<char>|
        #[trigger] a.contains_key(k) && #[trigger] b.contains_key(k) ==> a[k].units + b[k].units
            <= u32::MAX
}

/// The key-by-key merge of two queue maps: keys of either side survive, and
/// a key held on both sides carries the merge of its two stats.
pub open spec fn spec_merge_maps(
    a: Map<Seq<char>, QueueStatsView>,
    b: Map<Seq<char>, QueueStatsView>,
) -> Map<Seq<char>, QueueStatsView> {
    Map::new(
        |k: Seq<char>| a.contains_key(k) || b.contains_key(k),
        |k: Seq<char>|
            if b.contains_key(k) {
                if a.contains_key(k) {
                    spec_merge_queue(a[k], b[k])
                } else {
                    b[k]
                }
            } else {
                a[k]
            },
    )
}

impl QueueStatsMap {
    /// Every held stat keeps its unit counter within the counter width.
    pub proof fn lemma_values_in_range(self)
        requires
            self.wf(),
        ensures
            forall|k: Seq<char>|
                #[trigger] self@.contains_key(k) ==> 0 <= self@[k].units <= u32::MAX,
    {
        Self::lemma_kv_map(self.kv_seq());
        assert forall|k: Seq<char>| #[trigger]
            self@.contains_key(k) implies 0 <= self@[k].units <= u32::MAX by {
            let i = choose|i: int|
                0 <= i < self.kv_seq().len() && (#[trigger] self.kv_seq()[i]).0 == k;
            assert(self@[k] == self.kv_seq()[i].1);
            assert(self.kv_seq()[i].1 == self.entries@[i].1@);
        }
    }

    /// Folds every entry of `other` into `self`, per [`spec_merge_maps`].
    pub fn merge_from(&mut self, other: &QueueStatsMap)
        requires
            old(self).wf(),
            other.wf(),
            maps_fit(old(self)@, other@),
        ensures
            final(self).wf(),
            final(self)@ == spec_merge_maps(old(self)@, other@),
    {
        proof {
            Self::lemma_kv_map(other.kv_seq());
        }
        let n = other.entry_count();
        let mut i: usize = 0;
        proof {
            assert(other.kv_seq().subrange(0, 0) =~= Seq::<(Seq<char>, QueueStatsView)>::empty());
            assert(self@ =~= spec_merge_maps(old(self)@, kv_map(other.kv_seq().subrange(0, 0))));
        }
        while i < n
            invariant
                i <= n,
                n == other.kv_seq().len(),
                other.wf(),
                self.wf(),
                maps_fit(old(self)@, other@),
                forall|j: int|
                    0 <= j < other.kv_seq().len() ==> other@.contains_key(
                        (#[trigger] other.kv_seq()[j]).0,
                    ) && other@[other.kv_seq()[j].0] == other.kv_seq()[j].1,
                self@ == spec_merge_maps(old(self)@, kv_map(other.kv_seq().subrange(0, i as int))),
            decreases n - i,
        {
            let (key, stat) = other.entry_at(i);
            let ghost pre = kv_map(other.kv_seq().subrange(0, i as int));
            proof {
                Self::lemma_kv_map(other.kv_seq().subrange(0, i as int));
                assert forall|j: int|
                    0 <= j < i implies (#[trigger] other.kv_seq()[j]).0 != key@ by {}
                if pre.contains_key(key@) {
                    let j = choose|j: int|
                        0 <= j < other.kv_seq().subrange(0, i as int).len() && (#[trigger] other.kv_seq().subrange(
                            0,
                            i as int,
                        )[j]).0 == key@;
                    assert(other.kv_seq().subrange(0, i as int)[j] == other.kv_seq()[j]);
                    assert(false);
                }
                assert(!pre.contains_key(key@));
                if self@.contains_key(key@) {
                    assert(old(self)@.contains_key(key@) || pre.contains_key(key@));
                    assert(self@[key@] == old(self)@[key@]);
                    assert(other@.contains_key(key@) && other@[key@] == stat@);
                }
            }
            self.merge_entry(key, stat);
            proof {
                let pre2 = kv_map(other.kv_seq().subrange(0, i + 1 as int));
                assert(other.kv_seq().subrange(0, i + 1 as int).drop_last() =~= other.kv_seq()
                    .subrange(0, i as int));
                assert(pre2 == pre.insert(key@, stat@));
                assert(self@ =~= spec_merge_maps(old(self)@, pre2));
            }
            i = i + 1;
        }
        proof {
            assert(other.kv_seq().subrange(0, n as int) =~= other.kv_seq());
        }
    }
}

/// A read or write block as a statistics row carries it: either a map of
/// per-queue entries or an explicitly empty object. Both are legal and both
/// merge as a map, the empty block as the empty map.
#[derive(Debug, Clone)]
pub enum StatsOrEmpty {
    NotEmpty(QueueStatsMap),
    Empty {},
}

/// The entries a read or write block holds.
pub open spec fn stats_entries(s: StatsOrEmpty) -> Map<Seq<char>, QueueStatsView> {
    match s {
        StatsOrEmpty::NotEmpty(m) => m@,
        StatsOrEmpty::Empty {  } => Map::empty(),
    }
}

impl StatsOrEmpty {
    /// A populated block keeps its key list consistent.
    pub open spec fn wf(self) -> bool {
        match self {
            StatsOrEmpty::NotEmpty(m) => m.wf(),
            StatsOrEmpty::Empty {  } => true,
        }
    }
}

/// The execution block and the two per-queue blocks of one statistics row.
#[derive(Debug, Clone)]
pub struct ExecutionStats {
    pub execution: Option<BaseExecutionStats>,
    pub read: StatsOrEmpty,
    pub write: StatsOrEmpty,
}

impl ExecutionStats {
    pub open spec fn wf(self) -> bool {
        self.read.wf() && self.write.wf()
    }
}

/// The optional counters of one row's execution block.
#[derive(Debug, Clone, Copy)]
pub struct BaseExecutionStats {
    pub completions: Option<u32>,
    pub duration: Option<u32>,
    pub errors: Option<u32>,
    pub max_duration: Option<u32>,
    pub min_duration: Option<u32>,
    pub units: Option<u32>,
}

/// The summed execution counters of a condensed summary.
#[derive(Debug, Clone, Copy, PartialEq, Eq, Structural)]
pub struct Stats {
    pub completions: u32,
    pub duration: u32,
    pub errors: u32,
    pub max_duration: u32,
    pub min_duration: u32,
    pub units: u32,
}

/// The mathematical value of a [`Stats`].
#[verifier::ext_equal]
pub ghost struct StatsView {
    pub completions: int,
    pub duration: int,
    pub errors: int,
    pub max_duration: int,
    pub min_duration: int,
    pub units: int,
}

impl View for Stats {
    type V = StatsView;

    open spec fn view(&self) -> StatsView {
        StatsView {
            completions: self.completions as int,
            duration: self.duration as int,
            errors: self.errors as int,
            max_duration: self.max_duration as int,
            min_duration: self.min_duration as int,
            units: self.units as int,
        }
    }
}

/// One statistics row as the store returns it: entity id, bucket key,
/// period tag, and the current execution block.
#[derive(Debug, Clone)]
pub struct DynamoStatsRecord {
    pub id: String,
    pub bucket: String,
    pub current: ExecutionStats,
    pub period: String,
    pub start_eid: Option<String>,
    pub time: i64,
}

/// The mathematical value of a [`DynamoStatsRecord`].
pub ghost struct StatsRecordView {
    pub id: Seq<char>,
    pub bucket: Seq<char>,
    pub execution: Option<BaseExecutionStats>,
    pub read: Map<Seq<char>, QueueStatsView>,
    pub write: Map<Seq<char>, QueueStatsView>,
    pub period: Seq<char>,
    pub start_eid: Option<Seq<char>>,
    pub time: int,
}

impl View for DynamoStatsRecord {
    type V = StatsRecordView;

    open spec fn view(&self) -> StatsRecordView {
        StatsRecordView {
            id: self.id@,
            bucket: self.bucket@,
            execution: self.current.execution,
            read: stats_entries(self.current.read),
            write: stats_entries(self.current.write),
            period: self.period@,
            start_eid: match self.start_eid {
                Some(e) => Some(e@),
                None => None,
            },
            time: self.time as int,
        }
    }
}

impl DynamoStatsRecord {
    pub open spec fn wf(self) -> bool {
        self.current.wf()
    }
}

/// A record view whose per-queue unit counters lie within the counter
/// width, as every decoded row's do.
pub open spec fn rec_view_wf(r: StatsRecordView) -> bool {
    &&& forall|k: Seq<char>| #[trigger] r.read.contains_key(k) ==> 0 <= r.read[k].units <= u32::MAX
    &&& forall|k: Seq<char>| #[trigger] r.write.contains_key(k) ==> 0 <= r.write[k].units
        <= u32::MAX
}

/// A raw per-bucket statistics block, keyed under `_current` in older rows.
#[derive(Debug, Clone)]
pub struct BotStats {
    _current: ExecutionStats,
}

/// An optional counter, read as zero when absent.
pub open spec fn opt_int(o: Option<u32>) -> int {
    match o {
        Some(v) => v as int,
        None => 0,
    }
}

/// What folding one row's execution block into the summed counters yields:
/// an absent block changes nothing; present counters add up, the maximum
/// duration steps up, and the minimum duration tracks the smallest
/// strictly positive value seen, zero meaning "no data" on either side.
pub open spec fn spec_merge_exec_block(s: StatsView, e: Option<BaseExecutionStats>) -> StatsView {
    match e {
        None => s,
        Some(b) => StatsView {
            completions: s.completions + opt_int(b.completions),
            units: s.units + opt_int(b.units),
            duration: s.duration + opt_int(b.duration),
            errors: s.errors + opt_int(b.errors),
            max_duration: match b.max_duration {
                Some(m) => if s.max_duration >= m {
                    s.max_duration
                } else {
                    m as int
                },
                None => s.max_duration,
            },
            min_duration: match b.min_duration {
                Some(m) => if m > 0 {
                    if s.min_duration == 0 || m < s.min_duration {
                        m as int
                    } else {
                        s.min_duration
                    }
                } else {
                    s.min_duration
                },
                None => s.min_duration,
            },
        },
    }
}

/// Whether folding one execution block into the summed counters stays
/// within the counter width.
pub open spec fn exec_block_fits(s: StatsView, e: Option<BaseExecutionStats>) -> bool {
    match e {
        None => true,
        Some(b) => {
            &&& s.completions + opt_int(b.completions) <= u32::MAX
            &&& s.units + opt_int(b.units) <= u32::MAX
            &&& s.duration + opt_int(b.duration) <= u32::MAX
            &&& s.errors + opt_int(b.errors) <= u32::MAX
        },
    }
}

/// The mathematical value of a [`CondensedStats`].
pub ghost struct CondensedStatsView {
    pub execution_stats: StatsView,
    pub read: Map<Seq<char>, QueueStatsView>,
    pub write: Map<Seq<char>, QueueStatsView>,
}

/// The condensed summary of many statistics rows: summed execution
/// counters and one merged per-queue map for each direction.
#[derive(Debug, Clone)]
pub struct CondensedStats {
    pub execution_stats: Stats,
    pub read: QueueStatsMap,
    pub write: QueueStatsMap,
}

impl View for CondensedStats {
    type V = CondensedStatsView;

    open spec fn view(&self) -> CondensedStatsView {
        CondensedStatsView { execution_stats: self.execution_stats@, read: self.read@, write: self.write@ }
    }
}

/// What folding one whole row into a condensed summary yields.
pub open spec fn spec_merge_record(c: CondensedStatsView, r: StatsRecordView) -> CondensedStatsView {
    CondensedStatsView {
        execution_stats: spec_merge_exec_block(c.execution_stats, r.execution),
        read: spec_merge_maps(c.read, r.read),
        write: spec_merge_maps(c.write, r.write),
    }
}

/// The all-zero summary every fold starts from.
pub open spec fn zero_condensed() -> CondensedStatsView {
    CondensedStatsView {
        execution_stats: StatsView {
            completions: 0,
            duration: 0,
            errors: 0,
            max_duration: 0,
            min_duration: 0,
            units: 0,
        },
        read: Map::empty(),
        write: Map::empty(),
    }
}

/// The summary that folding a sequence of rows into the zero summary, in
/// order, yields.
pub open spec fn spec_condense(rs: Seq<StatsRecordView>) -> CondensedStatsView
    decreases rs.len(),
{
    if rs.len() == 0 {
        zero_condensed()
    } else {
        spec_merge_record(spec_condense(rs.drop_last()), rs.last())
    }
}

impl CondensedStats {
    pub open spec fn wf(self) -> bool {
        self.read.wf() && self.write.wf()
    }

    /// An all-zero summary with empty queue maps.
    pub fn new() -> (r: Self)
        ensures
            r.wf(),
            r@ == zero_condensed(),
    {
        Self {
            execution_stats: Stats {
                completions: 0,
                duration: 0,
                errors: 0,
                max_duration: 0,
                min_duration: 0,
                units: 0,
            },
            read: QueueStatsMap::new(),
            write: QueueStatsMap::new(),
        }
    }

    /// Folds both per-queue blocks of one row into the summary, leaving the
    /// execution counters alone.
    pub fn merge_stats(&mut self, other_read: &StatsOrEmpty, other_write: &StatsOrEmpty)
        requires
            old(self).wf(),
            other_read.wf(),
            other_write.wf(),
            maps_fit(old(self)@.read, stats_entries(*other_read)),
            maps_fit(old(self)@.write, stats_entries(*other_write)),
        ensures
            final(self).wf(),
            final(self)@.read == spec_merge_maps(old(self)@.read, stats_entries(*other_read)),
            final(self)@.write == spec_merge_maps(old(self)@.write, stats_entries(*other_write)),
            final(self)@.execution_stats == old(self)@.execution_stats,
    {
        match other_read {
            StatsOrEmpty::NotEmpty(o_read) => {
                self.read.merge_from(o_read);
            },
            StatsOrEmpty::Empty {  } => {
                proof {
                    assert(spec_merge_maps(self@.read, stats_entries(*other_read)) =~= self@.read);
                }
            },
        }
        match other_write {
            StatsOrEmpty::NotEmpty(o_write) => {
                self.write.merge_from(o_write);
            },
            StatsOrEmpty::Empty {  } => {
                proof {
                    assert(spec_merge_maps(self@.write, stats_entries(*other_write))
                        =~= self@.write);
                }
            },
        }
    }

    /// Folds one whole row into the summary: execution counters first, then
    /// both per-queue blocks.
    pub fn merge_execution_stats(&mut self, other: &DynamoStatsRecord)
        requires
            old(self).wf(),
            other.wf(),
            exec_block_fits(old(self)@.execution_stats, other@.execution),
            maps_fit(old(self)@.read, other@.read),
            maps_fit(old(self)@.write, other@.write),
        ensures
            final(self).wf(),
            final(self)@ == spec_merge_record(old(self)@, other@),
    {
        match &other.current.execution {
            Some(other_execution_stats) => {
                match other_execution_stats.completions {
                    Some(o_completions) => {
                        self.execution_stats.completions = self.execution_stats.completions
                            + o_completions;
                    },
                    None => {},
                }
                match other_execution_stats.units {
                    Some(o_units) => {
                        self.execution_stats.units = self.execution_stats.units + o_units;
                    },
                    None => {},
                }
                match other_execution_stats.duration {
                    Some(o_duration) => {
                        self.execution_stats.duration = self.execution_stats.duration + o_duration;
                    },
                    None => {},
                }
                match other_execution_stats.max_duration {
                    Some(o_max_duration) => {
                        if o_max_duration > self.execution_stats.max_duration {
                            self.execution_stats.max_duration = o_max_duration;
                        }
                    },
                    None => {},
                }
                match other_execution_stats.errors {
                    Some(o_errors) => {
                        self.execution_stats.errors = self.execution_stats.errors + o_errors;
                    },
                    None => {},
                }
                match other_execution_stats.min_duration {
                    Some(o_min_duration) => {
                        if o_min_duration > 0 {
                            if self.execution_stats.min_duration == 0 || o_min_duration
                                < self.execution_stats.min_duration {
                                self.execution_stats.min_duration = o_min_duration;
                            }
                        }
                    },
                    None => {},
                }
            },
            None => {},
        }
        self.merge_stats(&other.current.read, &other.current.write)
    }
}

/// The record views of a sequence of rows.
pub open spec fn rec_views(s: Seq<DynamoStatsRecord>) -> Seq<StatsRecordView> {
    s.map_values(|r: DynamoStatsRecord| r@)
}

/// The sum of one counter over a sequence of rows.
pub open spec fn sum_rec(rs: Seq<StatsRecordView>, f: spec_fn(StatsRecordView) -> int) -> int
    decreases rs.len(),
{
    if rs.len() == 0 {
        0
    } else {
        sum_rec(rs.drop_last(), f) + f(rs.last())
    }
}

/// The largest value of one counter over a sequence of rows, at least zero.
pub open spec fn max_rec(rs: Seq<StatsRecordView>, f: spec_fn(StatsRecordView) -> int) -> int
    decreases rs.len(),
{
    if rs.len() == 0 {
        0
    } else {
        let m = max_rec(rs.drop_last(), f);
        if m >= f(rs.last()) {
            m
        } else {
            f(rs.last())
        }
    }
}

/// The completion count one row contributes.
pub open spec fn completions_of(r: StatsRecordView) -> int {
    match r.execution {
        Some(b) => opt_int(b.completions),
        None => 0,
    }
}

/// The unit count one row contributes.
pub open spec fn units_of(r: StatsRecordView) -> int {
    match r.execution {
        Some(b) => opt_int(b.units),
        None => 0,
    }
}

/// The duration one row contributes.
pub open spec fn duration_of(r: StatsRecordView) -> int {
    match r.execution {
        Some(b) => opt_int(b.duration),
        None => 0,
    }
}

/// The error count one row contributes.
pub open spec fn errors_of(r: StatsRecordView) -> int {
    match r.execution {
        Some(b) => opt_int(b.errors),
        None => 0,
    }
}

/// The maximum duration one row reports, zero when absent.
pub open spec fn max_duration_of(r: StatsRecordView) -> int {
    match r.execution {
        Some(b) => opt_int(b.max_duration),
        None => 0,
    }
}

/// Combines two minimum-duration summaries, zero meaning "no data yet" on
/// either side.
pub open spec fn merge_pos_min(a: int, b: int) -> int {
    if b == 0 {
        a
    } else if a == 0 {
        b
    } else if a <= b {
        a
    } else {
        b
    }
}

/// The strictly positive minimum duration one row reports, zero when it
/// reports none.
pub open spec fn pos_min_of(r: StatsRecordView) -> int {
    match r.execution {
        Some(b) => match b.min_duration {
            Some(m) => if m > 0 {
                m as int
            } else {
                0
            },
            None => 0,
        },
        None => 0,
    }
}

/// The smallest strictly positive counter over a sequence of rows, zero
/// when none is reported.
pub open spec fn minpos_rec(rs: Seq<StatsRecordView>, f: spec_fn(StatsRecordView) -> int) -> int
    decreases rs.len(),
{
    if rs.len() == 0 {
        0
    } else {
        merge_pos_min(minpos_rec(rs.drop_last(), f), f(rs.last()))
    }
}

/// The read units one row reports for one queue, zero when the queue is
/// absent.
pub open spec fn read_units_of(r: StatsRecordView, k: Seq<char>) -> int {
    if r.read.contains_key(k) {
        r.read[k].units
    } else {
        0
    }
}

/// The write units one row reports for one queue.
pub open spec fn write_units_of(r: StatsRecordView, k: Seq<char>) -> int {
    if r.write.contains_key(k) {
        r.write[k].units
    } else {
        0
    }
}

/// The summed read units for one queue over a sequence of rows.
pub open spec fn read_units_sum(rs: Seq<StatsRecordView>, k: Seq<char>) -> int {
    sum_rec(rs, |r: StatsRecordView| read_units_of(r, k))
}

/// The summed write units for one queue over a sequence of rows.
pub open spec fn write_units_sum(rs: Seq<StatsRecordView>, k: Seq<char>) -> int {
    sum_rec(rs, |r: StatsRecordView| write_units_of(r, k))
}

/// Whether a whole fold of the given rows stays within the counter widths:
/// each summed execution counter fits, and so does every per-queue unit
/// sum, in both directions.
pub open spec fn no_overflow(rs: Seq<StatsRecordView>) -> bool {
    &&& sum_rec(rs, |r: StatsRecordView| completions_of(r)) <= u32::MAX
    &&& sum_rec(rs, |r: StatsRecordView| units_of(r)) <= u32::MAX
    &&& sum_rec(rs, |r: StatsRecordView| duration_of(r)) <= u32::MAX
    &&& sum_rec(rs, |r: StatsRecordView| errors_of(r)) <= u32::MAX
    &&& forall|k: Seq<char>| #[trigger] read_units_sum(rs, k) <= u32::MAX
    &&& forall|k: Seq<char>| #[trigger] write_units_sum(rs, k) <= u32::MAX
}

/// Summing one more row extends the sum by that row's counter.
proof fn lemma_sum_take_succ(rs: Seq<StatsRecordView>, f: spec_fn(StatsRecordView) -> int, i: int)
    requires
        0 <= i < rs.len(),
    ensures
        sum_rec(rs.take(i + 1), f) == sum_rec(rs.take(i), f) + f(rs[i]),
{
    assert(rs.take(i + 1).drop_last() =~= rs.take(i));
    assert(rs.take(i + 1).last() == rs[i]);
}

/// A prefix of a sum of non-negative counters is at most the whole sum.
proof fn lemma_sum_take_le(rs: Seq<StatsRecordView>, f: spec_fn(StatsRecordView) -> int, i: int)
    requires
        0 <= i <= rs.len(),
        forall|j: int| 0 <= j < rs.len() ==> f(#[trigger] rs[j]) >= 0,
    ensures
        sum_rec(rs.take(i), f) <= sum_rec(rs, f),
    decreases rs.len() - i,
{
    if i == rs.len() {
        assert(rs.take(i) =~= rs);
    } else {
        lemma_sum_take_succ(rs, f, i);
        lemma_sum_take_le(rs, f, i + 1);
    }
}

/// What the condensed execution counters are, in closed form: the four
/// sums, the running maximum, and the minimum of the strictly positive
/// reported minimum durations, zero when no row reports one.
pub proof fn lemma_condense_numeric(rs: Seq<StatsRecordView>)
    ensures
        spec_condense(rs).execution_stats.completions == sum_rec(
            rs,
            |r: StatsRecordView| completions_of(r),
        ),
        spec_condense(rs).execution_stats.units == sum_rec(rs, |r: StatsRecordView| units_of(r)),
        spec_condense(rs).execution_stats.duration == sum_rec(
            rs,
            |r: StatsRecordView| duration_of(r),
        ),
        spec_condense(rs).execution_stats.errors == sum_rec(rs, |r: StatsRecordView| errors_of(r)),
        spec_condense(rs).execution_stats.max_duration == max_rec(
            rs,
            |r: StatsRecordView| max_duration_of(r),
        ),
        spec_condense(rs).execution_stats.max_duration >= 0,
        spec_condense(rs).execution_stats.min_duration == minpos_rec(
            rs,
            |r: StatsRecordView| pos_min_of(r),
        ),
        spec_condense(rs).execution_stats.min_duration >= 0,
    decreases rs.len(),
{
    if rs.len() > 0 {
        lemma_condense_numeric(rs.drop_last());
    }
}

/// What the condensed read map holds, in closed form: a queue appears as
/// soon as one row reports it, carrying the sum of its reported units.
pub proof fn lemma_condense_read(rs: Seq<StatsRecordView>, k: Seq<char>)
    ensures
        spec_condense(rs).read.contains_key(k) <==> exists|j: int|
            0 <= j < rs.len() && (#[trigger] rs[j]).read.contains_key(k),
        spec_condense(rs).read.contains_key(k) ==> spec_condense(rs).read[k].units
            == read_units_sum(rs, k),
        !spec_condense(rs).read.contains_key(k) ==> read_units_sum(rs, k) == 0,
    decreases rs.len(),
{
    if rs.len() > 0 {
        lemma_condense_read(rs.drop_last(), k);
        assert(read_units_sum(rs, k) == read_units_sum(rs.drop_last(), k) + read_units_of(
            rs.last(),
            k,
        ));
        if spec_condense(rs).read.contains_key(k) {
            assert(spec_condense(rs.drop_last()).read.contains_key(k) || rs.last().read.contains_key(
                k,
            ));
            if spec_condense(rs.drop_last()).read.contains_key(k) {
                let j = choose|j: int|
                    0 <= j < rs.drop_last().len() && (#[trigger] rs.drop_last()[j]).read.contains_key(
                        k,
                    );
                assert(rs[j].read.contains_key(k));
            } else {
                assert(rs[rs.len() - 1].read.contains_key(k));
            }
        }
        if exists|j: int| 0 <= j < rs.len() && (#[trigger] rs[j]).read.contains_key(k) {
            let j = choose|j: int| 0 <= j < rs.len() && (#[trigger] rs[j]).read.contains_key(k);
            if j < rs.len() - 1 {
                assert(rs.drop_last()[j].read.contains_key(k));
            }
            assert(spec_condense(rs).read.contains_key(k));
        }
    }
}

/// What the condensed write map holds, in closed form.
pub proof fn lemma_condense_write(rs: Seq<StatsRecordView>, k: Seq<char>)
    ensures
        spec_condense(rs).write.contains_key(k) <==> exists|j: int|
            0 <= j < rs.len() && (#[trigger] rs[j]).write.contains_key(k),
        spec_condense(rs).write.contains_key(k) ==> spec_condense(rs).write[k].units
            == write_units_sum(rs, k),
        !spec_condense(rs).write.contains_key(k) ==> write_units_sum(rs, k) == 0,
    decreases rs.len(),
{
    if rs.len() > 0 {
        lemma_condense_write(rs.drop_last(), k);
        assert(write_units_sum(rs, k) == write_units_sum(rs.drop_last(), k) + write_units_of(
            rs.last(),
            k,
        ));
        if spec_condense(rs).write.contains_key(k) {
            if spec_condense(rs.drop_last()).write.contains_key(k) {
                let j = choose|j: int|
                    0 <= j < rs.drop_last().len() && (#[trigger] rs.drop_last()[j]).write.contains_key(
                        k,
                    );
                assert(rs[j].write.contains_key(k));
            } else {
                assert(rs[rs.len() - 1].write.contains_key(k));
            }
        }
        if exists|j: int| 0 <= j < rs.len() && (#[trigger] rs[j]).write.contains_key(k) {
            let j = choose|j: int| 0 <= j < rs.len() && (#[trigger] rs[j]).write.contains_key(k);
            if j < rs.len() - 1 {
                assert(rs.drop_last()[j].write.contains_key(k));
            }
            assert(spec_condense(rs).write.contains_key(k));
        }
    }
}

/// The view of a well-formed row keeps its per-queue counters within the
/// counter width.
proof fn lemma_record_view_wf(r: &DynamoStatsRecord)
    requires
        r.wf(),
    ensures
        rec_view_wf(r@),
{
    match &r.current.read {
        StatsOrEmpty::NotEmpty(m) => {
            m.lemma_values_in_range();
        },
        StatsOrEmpty::Empty {  } => {},
    }
    match &r.current.write {
        StatsOrEmpty::NotEmpty(m) => {
            m.lemma_values_in_range();
        },
        StatsOrEmpty::Empty {  } => {},
    }
}

/// Merges all of the given rows into a single condensed summary, folding
/// them in input order from the all-zero summary.
pub fn merge_bot_stats(bot_stats: &[DynamoStatsRecord]) -> (r: CondensedStats)
    requires
        forall|i: int| 0 <= i < bot_stats@.len() ==> (#[trigger] bot_stats@[i]).wf(),
        no_overflow(rec_views(bot_stats@)),
    ensures
        r.wf(),
        r@ == spec_condense(rec_views(bot_stats@)),
{
    let ghost rv = rec_views(bot_stats@);
    let mut stat = CondensedStats::new();
    let n = bot_stats.len();
    let mut i: usize = 0;
    proof {
        assert(rv.take(0) =~= Seq::<StatsRecordView>::empty());
        assert(forall|j: int| 0 <= j < rv.len() ==> rv[j] == bot_stats@[j]@);
        assert forall|j: int| 0 <= j < rv.len() implies rec_view_wf(#[trigger] rv[j]) by {
            lemma_record_view_wf(&bot_stats[j]);
        }
    }
    while i < n
        invariant
            i <= n,
            n == bot_stats@.len(),
            rv == rec_views(bot_stats@),
            rv.len() == n,
            forall|j: int| 0 <= j < n ==> (#[trigger] bot_stats@[j]).wf(),
            forall|j: int| 0 <= j < rv.len() ==> rv[j] == bot_stats@[j]@,
            forall|j: int| 0 <= j < rv.len() ==> rec_view_wf(#[trigger] rv[j]),
            no_overflow(rv),
            stat.wf(),
            stat@ == spec_condense(rv.take(i as int)),
        decreases n - i,
    {
        let rec = &bot_stats[i];
        proof {
            let pre = rv.take(i as int);
            lemma_condense_numeric(pre);
            assert(forall|j: int| 0 <= j < rv.len() ==> completions_of(#[trigger] rv[j]) >= 0);
            assert(forall|j: int| 0 <= j < rv.len() ==> units_of(#[trigger] rv[j]) >= 0);
            assert(forall|j: int| 0 <= j < rv.len() ==> duration_of(#[trigger] rv[j]) >= 0);
            assert(forall|j: int| 0 <= j < rv.len() ==> errors_of(#[trigger] rv[j]) >= 0);
            lemma_sum_take_succ(rv, |r: StatsRecordView| completions_of(r), i as int);
            lemma_sum_take_le(rv, |r: StatsRecordView| completions_of(r), i + 1);
            lemma_sum_take_succ(rv, |r: StatsRecordView| units_of(r), i as int);
            lemma_sum_take_le(rv, |r: StatsRecordView| units_of(r), i + 1);
            lemma_sum_take_succ(rv, |r: StatsRecordView| duration_of(r), i as int);
            lemma_sum_take_le(rv, |r: StatsRecordView| duration_of(r), i + 1);
            lemma_sum_take_succ(rv, |r: StatsRecordView| errors_of(r), i as int);
            lemma_sum_take_le(rv, |r: StatsRecordView| errors_of(r), i + 1);
            assert(exec_block_fits(stat@.execution_stats, rv[i as int].execution));
            assert forall|k: Seq<char>|
                #[trigger] stat@.read.contains_key(k) && #[trigger] rv[i as int].read.contains_key(
                    k,
                ) implies stat@.read[k].units + rv[i as int].read[k].units <= u32::MAX by {
                lemma_condense_read(pre, k);
                lemma_sum_take_succ(rv, |r: StatsRecordView| read_units_of(r, k), i as int);
                assert(forall|j: int|
                    0 <= j < rv.len() ==> read_units_of(#[trigger] rv[j], k) >= 0);
                lemma_sum_take_le(rv, |r: StatsRecordView| read_units_of(r, k), i + 1);
                assert(read_units_sum(rv, k) <= u32::MAX);
            }
            assert forall|k: Seq<char>|
                #[trigger] stat@.write.contains_key(k) && #[trigger] rv[i as int].write.contains_key(
                    k,
                ) implies stat@.write[k].units + rv[i as int].write[k].units <= u32::MAX by {
                lemma_condense_write(pre, k);
                lemma_sum_take_succ(rv, |r: StatsRecordView| write_units_of(r, k), i as int);
                assert(forall|j: int|
                    0 <= j < rv.len() ==> write_units_of(#[trigger] rv[j], k) >= 0);
                lemma_sum_take_le(rv, |r: StatsRecordView| write_units_of(r, k), i + 1);
                assert(write_units_sum(rv, k) <= u32::MAX);
            }
        }
        stat.merge_execution_stats(rec);
        proof {
            assert(rv.take(i + 1 as int).drop_last() =~= rv.take(i as int));
            assert(rv.take(i + 1 as int).last() == rv[i as int]);
            assert(stat@ == spec_condense(rv.take(i + 1 as int)));
        }
        i = i + 1;
    }
    proof {
        assert(rv.take(n as int) =~= rv);
    }
    stat
}

/// The views of a sequence of per-queue stats.
pub open spec fn qs_views(s: Seq<QueueStats>) -> Seq<QueueStatsView> {
    s.map_values(|q: QueueStats| q@)
}

/// One direction's per-queue map of a record view.
pub open spec fn dir_map(r: StatsRecordView, write: bool) -> Map<Seq<char>, QueueStatsView> {
    if write {
        r.write
    } else {
        r.read
    }
}

/// The per-queue stats that a stretch of rows reports for one queue in one
/// direction, in row order.
pub open spec fn grouped_dir(rs: Seq<StatsRecordView>, k: Seq<char>, write: bool) -> Seq<
    QueueStatsView,
>
    decreases rs.len(),
{
    if rs.len() == 0 {
        Seq::empty()
    } else {
        grouped_dir(rs.drop_last(), k, write) + (if dir_map(rs.last(), write).contains_key(k) {
            seq![dir_map(rs.last(), write)[k]]
        } else {
            Seq::empty()
        })
    }
}

/// The finite map that a sequence of grouped key-value pairs spells out.
pub open spec fn kv_map_grouped(s: Seq<(Seq<char>, Seq<QueueStatsView>)>) -> Map<
    Seq<char>,
    Seq<QueueStatsView>,
>
    decreases s.len(),
{
    if s.len() == 0 {
        Map::empty()
    } else {
        kv_map_grouped(s.drop_last()).insert(s.last().0, s.last().1)
    }
}

/// A map from queue identifier to the per-queue stats that each row
/// reported for it, held as an association list with distinct keys.
#[derive(Debug)]
pub struct GroupedQueueStats {
    pub entries: Vec<(String, Vec<QueueStats>)>,
}

impl View for GroupedQueueStats {
    type V = Map<Seq<char>, Seq<QueueStatsView>>;

    open spec fn view(&self) -> Map<Seq<char>, Seq<QueueStatsView>> {
        kv_map_grouped(self.kv_seq())
    }
}

impl GroupedQueueStats {
    /// The held entries, as key-value pairs in insertion order.
    pub open spec fn kv_seq(self) -> Seq<(Seq<char>, Seq<QueueStatsView>)> {
        self.entries@.map_values(|e: (String, Vec<QueueStats>)| (e.0@, qs_views(e.1@)))
    }

    /// Keys are pairwise distinct.
    pub open spec fn wf(self) -> bool {
        forall|i: int, j: int|
            0 <= i < j < self.kv_seq().len() ==> (#[trigger] self.kv_seq()[i]).0 != (
            #[trigger] self.kv_seq()[j]).0
    }

    /// Every listed entry is in the map, at its listed value when keys are
    /// distinct, and nothing else is.
    pub proof fn lemma_kv_map_grouped(s: Seq<(Seq<char>, Seq<QueueStatsView>)>)
        ensures
            forall|k: Seq<char>|
                #[trigger] kv_map_grouped(s).contains_key(k) <==> exists|i: int|
                    0 <= i < s.len() && (#[trigger] s[i]).0 == k,
            (forall|i: int, j: int|
                0 <= i < j < s.len() ==> (#[trigger] s[i]).0 != (#[trigger] s[j]).0) ==> forall|
                i: int,
            |
                0 <= i < s.len() ==> kv_map_grouped(s).contains_key((#[trigger] s[i]).0)
                    && kv_map_grouped(s)[s[i].0] == s[i].1,
        decreases s.len(),
    {
        if s.len() > 0 {
            Self::lemma_kv_map_grouped(s.drop_last());
            assert forall|k: Seq<char>| #[trigger]
                kv_map_grouped(s).contains_key(k) implies exists|i: int|
                0 <= i < s.len() && (#[trigger] s[i]).0 == k by {
                if k == s.last().0 {
                    assert(s[s.len() - 1].0 == k);
                } else {
                    assert(kv_map_grouped(s.drop_last()).contains_key(k));
                    let i = choose|i: int|
                        0 <= i < s.drop_last().len() && (#[trigger] s.drop_last()[i]).0 == k;
                    assert(s.drop_last()[i] == s[i]);
                    assert(s[i].0 == k);
                }
            }
            assert forall|k: Seq<char>|
                (exists|i: int| 0 <= i < s.len() && (#[trigger] s[i]).0 == k) implies #[trigger]
                kv_map_grouped(s).contains_key(k) by {
                let i = choose|i: int| 0 <= i < s.len() && (#[trigger] s[i]).0 == k;
                if i < s.len() - 1 {
                    assert(s.drop_last()[i] == s[i]);
                    assert((s.drop_last()[i]).0 == k);
                    assert(kv_map_grouped(s.drop_last()).contains_key(k));
                } else {
                    assert(k == s.last().0);
                }
            }
            if forall|i: int, j: int|
                0 <= i < j < s.len() ==> (#[trigger] s[i]).0 != (#[trigger] s[j]).0 {
                assert forall|i: int|
                    0 <= i < s.len() implies kv_map_grouped(s).contains_key((#[trigger] s[i]).0)
                    && kv_map_grouped(s)[s[i].0] == s[i].1 by {
                    if i < s.len() - 1 {
                        assert(s.drop_last()[i] == s[i]);
                        assert(s[i].0 != s[s.len() - 1].0);
                    }
                }
            }
        }
    }
}

/// A field-by-field copy of a queue map whose entry list is known to
/// match, unlike the derived clone.
pub fn clone_qmap(m: &QueueStatsMap) -> (r: QueueStatsMap)
    ensures
        r.kv_seq() == m.kv_seq(),
        r@ == m@,
        r.wf() == m.wf(),
{
    let n = m.entries.len();
    let mut entries: Vec<(String, QueueStats)> = Vec::new();
    let mut i: usize = 0;
    while i < n
        invariant
            i <= n,
            n == m.entries@.len(),
            entries@.len() == i,
            forall|j: int|
                0 <= j < i ==> (#[trigger] entries@[j]).0@ == m.entries@[j].0@ && entries@[j].1@
                    == m.entries@[j].1@,
        decreases n - i,
    {
        entries.push((m.entries[i].0.clone(), clone_stat(&m.entries[i].1)));
        i = i + 1;
    }
    let r = QueueStatsMap { entries };
    proof {
        assert(r.kv_seq() =~= m.kv_seq());
    }
    r
}

/// A copy of a read or write block whose entries are known to match.
pub fn clone_stats_or_empty(s: &StatsOrEmpty) -> (r: StatsOrEmpty)
    ensures
        stats_entries(r) == stats_entries(*s),
        r.wf() == s.wf(),
{
    match s {
        StatsOrEmpty::NotEmpty(m) => StatsOrEmpty::NotEmpty(clone_qmap(m)),
        StatsOrEmpty::Empty {  } => StatsOrEmpty::Empty {  },
    }
}

/// A copy of a statistics row whose view is known to match.
pub fn clone_record(rec: &DynamoStatsRecord) -> (r: DynamoStatsRecord)
    ensures
        r@ == rec@,
        r.wf() == rec.wf(),
{
    DynamoStatsRecord {
        id: rec.id.clone(),
        bucket: rec.bucket.clone(),
        current: ExecutionStats {
            execution: rec.current.execution,
            read: clone_stats_or_empty(&rec.current.read),
            write: clone_stats_or_empty(&rec.current.write),
        },
        period: rec.period.clone(),
        start_eid: match &rec.start_eid {
            Some(e) => Some(e.clone()),
            None => None,
        },
        time: rec.time,
    }
}

/// Whether a key vector holds one with the given characters.
pub open spec fn keys_has(keys: Seq<String>, k: Seq<char>) -> bool {
    exists|x: int| 0 <= x < keys.len() && (#[trigger] keys[x])@ == k
}

/// Whether one of the first `upto` rows reports the queue in the given
/// direction.
pub open spec fn dir_has(rv: Seq<StatsRecordView>, upto: int, k: Seq<char>, write: bool) -> bool {
    exists|j: int| 0 <= j < upto && dir_map(#[trigger] rv[j], write).contains_key(k)
}

/// Whether one of the first `upto` listed entries carries the key.
pub open spec fn kvs_has(s: Seq<(Seq<char>, QueueStatsView)>, upto: int, k: Seq<char>) -> bool {
    exists|x: int| 0 <= x < upto && (#[trigger] s[x]).0 == k
}

/// Whether a vector of keys holds one with the given characters.
fn contains_key_vec(keys: &Vec<String>, k: &String) -> (r: bool)
    ensures
        r == keys_has(keys@, k@),
{
    let n = keys.len();
    let mut i: usize = 0;
    while i < n
        invariant
            i <= n,
            n == keys@.len(),
            forall|j: int| 0 <= j < i ==> (#[trigger] keys@[j])@ != k@,
        decreases n - i,
    {
        if keys[i].eq(k) {
            assert(keys@[i as int]@ == k@);
            return true;
        }
        i = i + 1;
    }
    assert(!keys_has(keys@, k@));
    false
}

/// Groups the per-queue stats of the given rows by queue, in one
/// direction: a queue appears as soon as one row reports it, carrying the
/// stats of every row that does, in row order.
pub fn group_stats(stats: &[DynamoStatsRecord], write: bool) -> (r: GroupedQueueStats)
    requires
        forall|i: int| 0 <= i < stats@.len() ==> (#[trigger] stats@[i]).wf(),
    ensures
        r.wf(),
        forall|k: Seq<char>|
            #[trigger] r@.contains_key(k) <==> dir_has(
                rec_views(stats@),
                stats@.len() as int,
                k,
                write,
            ),
        forall|k: Seq<char>|
            #[trigger] r@.contains_key(k) ==> r@[k] == grouped_dir(rec_views(stats@), k, write),
{
    let ghost rv = rec_views(stats@);
    let n = stats.len();
    let mut keys: Vec<String> = Vec::new();
    let mut i: usize = 0;
    proof {
        assert(forall|j: int| 0 <= j < rv.len() ==> rv[j] == stats@[j]@);
    }
    while i < n
        invariant
            i <= n,
            n == stats@.len(),
            rv == rec_views(stats@),
            rv.len() == n,
            forall|j: int| 0 <= j < n ==> (#[trigger] stats@[j]).wf(),
            forall|j: int| 0 <= j < rv.len() ==> rv[j] == stats@[j]@,
            forall|p: int, q: int|
                0 <= p < q < keys@.len() ==> (#[trigger] keys@[p])@ != (#[trigger] keys@[q])@,
            forall|k: Seq<char>| #[trigger] keys_has(keys@, k) <==> dir_has(rv, i as int, k, write),
        decreases n - i,
    {
        let m = if write {
            match &stats[i].current.write {
                StatsOrEmpty::NotEmpty(m) => Some(m),
                StatsOrEmpty::Empty {  } => None,
            }
        } else {
            match &stats[i].current.read {
                StatsOrEmpty::NotEmpty(m) => Some(m),
                StatsOrEmpty::Empty {  } => None,
            }
        };
        match m {
            Some(qmap) => {
                proof {
                    assert(qmap@ == dir_map(rv[i as int], write));
                    QueueStatsMap::lemma_kv_map(qmap.kv_seq());
                }
                let cnt = qmap.entry_count();
                let mut t: usize = 0;
                while t < cnt
                    invariant
                        t <= cnt,
                        cnt == qmap.kv_seq().len(),
                        qmap.wf(),
                        qmap@ == dir_map(rv[i as int], write),
                        0 <= i < rv.len(),
                        forall|k: Seq<char>|
                            #[trigger] qmap@.contains_key(k) <==> kvs_has(
                                qmap.kv_seq(),
                                qmap.kv_seq().len() as int,
                                k,
                            ),
                        forall|p: int, q: int|
                            0 <= p < q < keys@.len() ==> (#[trigger] keys@[p])@ != (
                            #[trigger] keys@[q])@,
                        forall|k: Seq<char>|
                            #[trigger] keys_has(keys@, k) <==> dir_has(rv, i as int, k, write)
                                || kvs_has(qmap.kv_seq(), t as int, k),
                    decreases cnt - t,
                {
                    let (key, _stat) = qmap.entry_at(t);
                    let ghost keys_pre = keys@;
                    if !contains_key_vec(&keys, key) {
                        keys.push(key.clone());
                        proof {
                            assert(keys@.drop_last() =~= keys_pre);
                            assert(keys@[keys@.len() - 1]@ == key@);
                            assert forall|p: int, q: int|
                                0 <= p < q < keys@.len() implies (#[trigger] keys@[p])@ != (
                            #[trigger] keys@[q])@ by {
                                if q == keys@.len() - 1 {
                                    assert(keys@[p]@ == keys_pre[p]@);
                                    if keys@[p]@ == key@ {
                                        assert(keys_has(keys_pre, key@));
                                    }
                                } else {
                                    assert(keys@[p]@ == keys_pre[p]@);
                                    assert(keys@[q]@ == keys_pre[q]@);
                                }
                            }
                        }
                    }
                    proof {
                        assert(qmap.kv_seq()[t as int].0 == key@);
                        assert forall|k: Seq<char>| #[trigger]
                            keys_has(keys@, k) <==> (keys_has(keys_pre, k) || k == key@) by {
                            if keys_has(keys@, k) {
                                let x = choose|x: int|
                                    0 <= x < keys@.len() && (#[trigger] keys@[x])@ == k;
                                if x < keys_pre.len() {
                                    assert(keys_pre[x]@ == k);
                                }
                            }
                            if keys_has(keys_pre, k) {
                                let x = choose|x: int|
                                    0 <= x < keys_pre.len() && (#[trigger] keys_pre[x])@ == k;
                                assert(keys@[x]@ == k);
                            }
                            if k == key@ {
                                if keys@.len() > keys_pre.len() {
                                    assert(keys@[keys@.len() - 1]@ == k);
                                } else {
                                    assert(keys_has(keys_pre, key@));
                                }
                            }
                        }
                        assert forall|k: Seq<char>| #[trigger]
                            kvs_has(qmap.kv_seq(), t + 1, k) <==> (kvs_has(qmap.kv_seq(), t as int, k)
                                || k == key@) by {
                            if kvs_has(qmap.kv_seq(), t + 1, k) {
                                let x = choose|x: int|
                                    0 <= x < t + 1 && (#[trigger] qmap.kv_seq()[x]).0 == k;
                            }
                            if kvs_has(qmap.kv_seq(), t as int, k) {
                                let x = choose|x: int|
                                    0 <= x < t && (#[trigger] qmap.kv_seq()[x]).0 == k;
                                assert(0 <= x < t + 1 && qmap.kv_seq()[x].0 == k);
                            }
                            if k == key@ {
                                assert(0 <= t < t + 1 && qmap.kv_seq()[t as int].0 == k);
                            }
                        }
                    }
                    t = t + 1;
                }
                proof {
                    assert forall|k: Seq<char>| #[trigger]
                        keys_has(keys@, k) <==> dir_has(rv, i + 1, k, write) by {
                        if keys_has(keys@, k) {
                            if kvs_has(qmap.kv_seq(), cnt as int, k) {
                                assert(qmap@.contains_key(k));
                                assert(dir_map(rv[i as int], write).contains_key(k));
                            } else {
                                let j = choose|j: int|
                                    0 <= j < i && dir_map(#[trigger] rv[j], write).contains_key(k);
                                assert(0 <= j < i + 1 && dir_map(rv[j], write).contains_key(k));
                            }
                        }
                        if dir_has(rv, i + 1, k, write) {
                            let j = choose|j: int|
                                0 <= j < i + 1 && dir_map(#[trigger] rv[j], write).contains_key(k);
                            if j == i {
                                assert(qmap@.contains_key(k));
                                assert(kvs_has(qmap.kv_seq(), cnt as int, k));
                            } else {
                                assert(dir_has(rv, i as int, k, write));
                            }
                        }
                    }
                }
            },
            None => {
                proof {
                    assert(dir_map(rv[i as int], write) =~= Map::<Seq<char>, QueueStatsView>::empty());
                    assert forall|k: Seq<char>| #[trigger]
                        keys_has(keys@, k) <==> dir_has(rv, i + 1, k, write) by {
                        if dir_has(rv, i + 1, k, write) {
                            let j = choose|j: int|
                                0 <= j < i + 1 && dir_map(#[trigger] rv[j], write).contains_key(k);
                            assert(j != i);
                            assert(dir_has(rv, i as int, k, write));
                        }
                        if dir_has(rv, i as int, k, write) {
                            let j = choose|j: int|
                                0 <= j < i && dir_map(#[trigger] rv[j], write).contains_key(k);
                            assert(0 <= j < i + 1 && dir_map(rv[j], write).contains_key(k));
                        }
                    }
                }
            },
        }
        i = i + 1;
    }
    let kn = keys.len();
    let mut entries: Vec<(String, Vec<QueueStats>)> = Vec::new();
    let mut x: usize = 0;
    while x < kn
        invariant
            x <= kn,
            kn == keys@.len(),
            n == stats@.len(),
            rv == rec_views(stats@),
            rv.len() == n,
            forall|j: int| 0 <= j < n ==> (#[trigger] stats@[j]).wf(),
            forall|j: int| 0 <= j < rv.len() ==> rv[j] == stats@[j]@,
            forall|p: int, q: int|
                0 <= p < q < keys@.len() ==> (#[trigger] keys@[p])@ != (#[trigger] keys@[q])@,
            entries@.len() == x,
            forall|p: int|
                0 <= p < x ==> (#[trigger] entries@[p]).0@ == keys@[p]@ && qs_views(entries@[p].1@)
                    == grouped_dir(rv, keys@[p]@, write),
        decreases kn - x,
    {
        let key = keys[x].clone();
        let mut vals: Vec<QueueStats> = Vec::new();
        let mut j: usize = 0;
        proof {
            assert(rv.take(0) =~= Seq::<StatsRecordView>::empty());
            assert(qs_views(vals@) =~= grouped_dir(rv.take(0), key@, write));
        }
        while j < n
            invariant
                j <= n,
                n == stats@.len(),
                rv == rec_views(stats@),
                rv.len() == n,
                forall|p: int| 0 <= p < n ==> (#[trigger] stats@[p]).wf(),
                forall|p: int| 0 <= p < rv.len() ==> rv[p] == stats@[p]@,
                key@ == keys@[x as int]@,
                x < keys@.len(),
                qs_views(vals@) == grouped_dir(rv.take(j as int), key@, write),
            decreases n - j,
        {
            let m = if write {
                match &stats[j].current.write {
                    StatsOrEmpty::NotEmpty(m) => Some(m),
                    StatsOrEmpty::Empty {  } => None,
                }
            } else {
                match &stats[j].current.read {
                    StatsOrEmpty::NotEmpty(m) => Some(m),
                    StatsOrEmpty::Empty {  } => None,
                }
            };
            let ghost vals_pre = vals@;
            proof {
                assert(rv.take(j + 1).drop_last() =~= rv.take(j as int));
                assert(rv.take(j + 1).last() == rv[j as int]);
            }
            match m {
                Some(qmap) => {
                    proof {
                        assert(qmap@ == dir_map(rv[j as int], write));
                    }
                    match qmap.get(&key) {
                        Some(stat) => {
                            vals.push(clone_stat(stat));
                            proof {
                                assert(qs_views(vals@) =~= qs_views(vals_pre).push(stat@));
                                assert(grouped_dir(rv.take(j + 1), key@, write) =~= grouped_dir(
                                    rv.take(j as int),
                                    key@,
                                    write,
                                ).push(dir_map(rv[j as int], write)[key@]));
                            }
                        },
                        None => {
                            proof {
                                assert(grouped_dir(rv.take(j + 1), key@, write) =~= grouped_dir(
                                    rv.take(j as int),
                                    key@,
                                    write,
                                ));
                            }
                        },
                    }
                },
                None => {
                    proof {
                        assert(dir_map(rv[j as int], write)
                            =~= Map::<Seq<char>, QueueStatsView>::empty());
                        assert(grouped_dir(rv.take(j + 1), key@, write) =~= grouped_dir(
                            rv.take(j as int),
                            key@,
                            write,
                        ));
                    }
                },
            }
            j = j + 1;
        }
        proof {
            assert(rv.take(n as int) =~= rv);
        }
        let ghost entries_pre = entries@;
        entries.push((key, vals));
        proof {
            assert(entries@.drop_last() =~= entries_pre);
        }
        x = x + 1;
    }
    let r = GroupedQueueStats { entries };
    proof {
        assert(r.kv_seq().len() == keys@.len());
        assert forall|p: int|
            0 <= p < r.kv_seq().len() implies (#[trigger] r.kv_seq()[p]).0 == keys@[p]@
            && r.kv_seq()[p].1 == grouped_dir(rv, keys@[p]@, write) by {
            assert(r.kv_seq()[p] == (r.entries@[p].0@, qs_views(r.entries@[p].1@)));
        }
        assert(r.wf());
        GroupedQueueStats::lemma_kv_map_grouped(r.kv_seq());
        assert forall|k: Seq<char>| #[trigger]
            r@.contains_key(k) implies r@[k] == grouped_dir(rv, k, write) by {
            let p = choose|p: int| 0 <= p < r.kv_seq().len() && (#[trigger] r.kv_seq()[p]).0 == k;
            assert(r@[k] == r.kv_seq()[p].1);
        }
        assert forall|k: Seq<char>| #[trigger]
            r@.contains_key(k) <==> dir_has(rv, n as int, k, write) by {
            if r@.contains_key(k) {
                let p = choose|p: int|
                    0 <= p < r.kv_seq().len() && (#[trigger] r.kv_seq()[p]).0 == k;
                assert(keys@[p]@ == k);
                assert(keys_has(keys@, k));
            }
            if dir_has(rv, n as int, k, write) {
                assert(keys_has(keys@, k));
                let x2 = choose|x2: int| 0 <= x2 < keys@.len() && (#[trigger] keys@[x2])@ == k;
                assert(r.kv_seq()[x2].0 == k);
            }
        }
    }
    r
}

/// Removing one row takes exactly its contribution out of a sum.
proof fn lemma_sum_remove(rs: Seq<StatsRecordView>, f: spec_fn(StatsRecordView) -> int, j: int)
    requires
        0 <= j < rs.len(),
    ensures
        sum_rec(rs.remove(j), f) == sum_rec(rs, f) - f(rs[j]),
    decreases rs.len(),
{
    if j == rs.len() - 1 {
        assert(rs.remove(j) =~= rs.drop_last());
    } else {
        assert(rs.remove(j).drop_last() =~= rs.drop_last().remove(j));
        assert(rs.remove(j).last() == rs.last());
        lemma_sum_remove(rs.drop_last(), f, j);
        assert(rs.drop_last()[j] == rs[j]);
    }
}

/// Removing one row leaves the maximum of the rest and that row's value.
proof fn lemma_max_remove(rs: Seq<StatsRecordView>, f: spec_fn(StatsRecordView) -> int, j: int)
    requires
        0 <= j < rs.len(),
    ensures
        max_rec(rs, f) == if max_rec(rs.remove(j), f) >= f(rs[j]) {
            max_rec(rs.remove(j), f)
        } else {
            f(rs[j])
        },
    decreases rs.len(),
{
    if j == rs.len() - 1 {
        assert(rs.remove(j) =~= rs.drop_last());
    } else {
        assert(rs.remove(j).drop_last() =~= rs.drop_last().remove(j));
        assert(rs.remove(j).last() == rs.last());
        lemma_max_remove(rs.drop_last(), f, j);
        assert(rs.drop_last()[j] == rs[j]);
    }
}

/// Removing one row leaves the positive minimum of the rest and that
/// row's value.
proof fn lemma_minpos_remove(rs: Seq<StatsRecordView>, f: spec_fn(StatsRecordView) -> int, j: int)
    requires
        0 <= j < rs.len(),
    ensures
        minpos_rec(rs, f) == merge_pos_min(minpos_rec(rs.remove(j), f), f(rs[j])),
    decreases rs.len(),
{
    if j == rs.len() - 1 {
        assert(rs.remove(j) =~= rs.drop_last());
    } else {
        assert(rs.remove(j).drop_last() =~= rs.drop_last().remove(j));
        assert(rs.remove(j).last() == rs.last());
        lemma_minpos_remove(rs.drop_last(), f, j);
        assert(rs.drop_last()[j] == rs[j]);
    }
}

/// A positive minimum of row contributions does not depend on the order
/// of the rows.
proof fn lemma_minpos_permutation(
    rs1: Seq<StatsRecordView>,
    rs2: Seq<StatsRecordView>,
    f: spec_fn(StatsRecordView) -> int,
)
    requires
        rs1.to_multiset() == rs2.to_multiset(),
    ensures
        minpos_rec(rs1, f) == minpos_rec(rs2, f),
    decreases rs1.len(),
{
    rs1.to_multiset_ensures();
    rs2.to_multiset_ensures();
    if rs1.len() == 0 {
        assert(rs2.len() == 0);
    } else {
        let x = rs1.last();
        assert(rs1.contains(x));
        assert(rs2.to_multiset().count(x) > 0);
        assert(rs2.contains(x));
        let j = choose|j: int| 0 <= j < rs2.len() && rs2[j] == x;
        assert(rs1.remove(rs1.len() - 1) =~= rs1.drop_last());
        assert(rs1.drop_last().to_multiset() =~= rs1.to_multiset().remove(x));
        assert(rs2.remove(j).to_multiset() =~= rs2.to_multiset().remove(x));
        lemma_minpos_remove(rs2, f, j);
        lemma_minpos_permutation(rs1.drop_last(), rs2.remove(j), f);
    }
}

/// A sum of row contributions does not depend on the order of the rows.
proof fn lemma_sum_permutation(
    rs1: Seq<StatsRecordView>,
    rs2: Seq<StatsRecordView>,
    f: spec_fn(StatsRecordView) -> int,
)
    requires
        rs1.to_multiset() == rs2.to_multiset(),
    ensures
        sum_rec(rs1, f) == sum_rec(rs2, f),
    decreases rs1.len(),
{
    rs1.to_multiset_ensures();
    rs2.to_multiset_ensures();
    if rs1.len() == 0 {
        assert(rs2.len() == 0);
    } else {
        let x = rs1.last();
        assert(rs1.contains(x));
        assert(rs2.to_multiset().count(x) > 0);
        assert(rs2.contains(x));
        let j = choose|j: int| 0 <= j < rs2.len() && rs2[j] == x;
        assert(rs1.remove(rs1.len() - 1) =~= rs1.drop_last());
        assert(rs1.drop_last().to_multiset() =~= rs1.to_multiset().remove(x));
        assert(rs2.remove(j).to_multiset() =~= rs2.to_multiset().remove(x));
        lemma_sum_remove(rs2, f, j);
        lemma_sum_permutation(rs1.drop_last(), rs2.remove(j), f);
    }
}

/// A maximum of row contributions does not depend on the order of the
/// rows.
proof fn lemma_max_permutation(
    rs1: Seq<StatsRecordView>,
    rs2: Seq<StatsRecordView>,
    f: spec_fn(StatsRecordView) -> int,
)
    requires
        rs1.to_multiset() == rs2.to_multiset(),
    ensures
        max_rec(rs1, f) == max_rec(rs2, f),
    decreases rs1.len(),
{
    rs1.to_multiset_ensures();
    rs2.to_multiset_ensures();
    if rs1.len() == 0 {
        assert(rs2.len() == 0);
    } else {
        let x = rs1.last();
        assert(rs1.contains(x));
        assert(rs2.to_multiset().count(x) > 0);
        assert(rs2.contains(x));
        let j = choose|j: int| 0 <= j < rs2.len() && rs2[j] == x;
        assert(rs1.remove(rs1.len() - 1) =~= rs1.drop_last());
        assert(rs1.drop_last().to_multiset() =~= rs1.to_multiset().remove(x));
        assert(rs2.remove(j).to_multiset() =~= rs2.to_multiset().remove(x));
        lemma_max_remove(rs2, f, j);
        lemma_max_permutation(rs1.drop_last(), rs2.remove(j), f);
    }
}

/// One direction's map of a condensed summary.
pub open spec fn condensed_dir(c: CondensedStatsView, write: bool) -> Map<
    Seq<char>,
    QueueStatsView,
> {
    if write {
        c.write
    } else {
        c.read
    }
}

/// The checkpoint of the last row, in row order, that reports the queue
/// with a checkpoint in the given direction; nothing when no row does.
pub open spec fn last_checkpoint(rs: Seq<StatsRecordView>, k: Seq<char>, write: bool) -> Option<
    Seq<char>,
>
    decreases rs.len(),
{
    if rs.len() == 0 {
        None
    } else if dir_map(rs.last(), write).contains_key(k) && dir_map(rs.last(), write)[k].checkpoint
        is Some {
        dir_map(rs.last(), write)[k].checkpoint
    } else {
        last_checkpoint(rs.drop_last(), k, write)
    }
}

/// The condensed per-queue checkpoint keeps the last write: a held queue
/// carries the checkpoint of the last row, in input order, that reported
/// the queue with one. Folding the same rows in another order may
/// therefore end on a different checkpoint, unlike the numeric fields.
pub proof fn lemma_condense_checkpoint(rs: Seq<StatsRecordView>, k: Seq<char>, write: bool)
    ensures
        condensed_dir(spec_condense(rs), write).contains_key(k) ==> condensed_dir(
            spec_condense(rs),
            write,
        )[k].checkpoint == last_checkpoint(rs, k, write),
        !condensed_dir(spec_condense(rs), write).contains_key(k) ==> last_checkpoint(
            rs,
            k,
            write,
        ) is None,
    decreases rs.len(),
{
    if rs.len() > 0 {
        lemma_condense_checkpoint(rs.drop_last(), k, write);
    }
}

/// Folding the same rows in any order yields the same condensed execution
/// counters: the four sums, the running maximum and the positive minimum
/// are all order-free. Only the numeric side is order-free: a per-queue
/// checkpoint keeps the last write and so does depend on the order.
pub proof fn lemma_condense_numeric_permutation(
    rs1: Seq<StatsRecordView>,
    rs2: Seq<StatsRecordView>,
)
    requires
        rs1.to_multiset() == rs2.to_multiset(),
    ensures
        spec_condense(rs1).execution_stats == spec_condense(rs2).execution_stats,
{
    lemma_condense_numeric(rs1);
    lemma_condense_numeric(rs2);
    lemma_sum_permutation(rs1, rs2, |r: StatsRecordView| completions_of(r));
    lemma_sum_permutation(rs1, rs2, |r: StatsRecordView| units_of(r));
    lemma_sum_permutation(rs1, rs2, |r: StatsRecordView| duration_of(r));
    lemma_sum_permutation(rs1, rs2, |r: StatsRecordView| errors_of(r));
    lemma_max_permutation(rs1, rs2, |r: StatsRecordView| max_duration_of(r));
    lemma_minpos_permutation(rs1, rs2, |r: StatsRecordView| pos_min_of(r));
    assert(spec_condense(rs1).execution_stats =~= spec_condense(rs2).execution_stats);
}

} // verus!
