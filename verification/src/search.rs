//! The fuzzy search index: every corpus name is scored against the query
//! by the skim matcher, names without a match drop out, and the rest are
//! ranked by score, best first, with ties kept in corpus order so that one
//! input always yields one ranking.

use vstd::prelude::*;
use vstd::multiset::Multiset;

verus! {

/// The score the skim matcher assigns a choice string for a pattern, or
/// nothing when the pattern is no fuzzy match for the choice. The score is
/// a function of the two strings alone.
pub uninterp spec fn skim_score(choice: Seq<char>, pattern: Seq<char>) -> Option<int>;

/// Relies on `fuzzy_matcher::skim::SkimMatcherV2::fuzzy_match` with the
/// default configuration: the returned score depends on the two strings
/// alone, and an empty pattern always matches with score zero.
#[verifier::external_body]
fn fuzzy_match_score(choice: &str, pattern: &str) -> (r: Option<i64>)
    ensures
        match r {
            Some(v) => skim_score(choice@, pattern@) == Some(v as int),
            None => skim_score(choice@, pattern@) is None,
        },
        pattern@.len() == 0 ==> r == Some(0i64),
{
    let matcher = fuzzy_matcher::skim::SkimMatcherV2::default();
    fuzzy_matcher::FuzzyMatcher::fuzzy_match(&matcher, choice, pattern)
}

/// A scored corpus entry: the name, its score, and its corpus position.
pub ghost struct ScoredEntry {
    pub name: Seq<char>,
    pub score: int,
    pub index: int,
}

/// The ranking order: higher scores first, and corpus order within one
/// score. On entries with distinct corpus positions this orders any two
/// entries one way or the other.
pub open spec fn ranked_before(a: ScoredEntry, b: ScoredEntry) -> bool {
    a.score > b.score || (a.score == b.score && a.index <= b.index)
}

/// The matching entries of a corpus, in corpus order: one entry per name
/// the matcher scores, skipping the rest.
pub open spec fn scored_seq(corpus: Seq<Seq<char>>, q: Seq<char>) -> Seq<ScoredEntry>
    decreases corpus.len(),
{
    if corpus.len() == 0 {
        Seq::empty()
    } else {
        scored_seq(corpus.drop_last(), q) + (match skim_score(corpus.last(), q) {
            Some(s) => seq![
                ScoredEntry { name: corpus.last(), score: s, index: corpus.len() - 1 },
            ],
            None => Seq::empty(),
        })
    }
}

/// Inserts an entry into a ranked sequence, before the first entry it
/// outranks.
pub open spec fn insert_ranked(x: ScoredEntry, s: Seq<ScoredEntry>) -> Seq<ScoredEntry>
    decreases s.len(),
{
    if s.len() == 0 {
        seq![x]
    } else if ranked_before(x, s[0]) {
        seq![x] + s
    } else {
        seq![s[0]] + insert_ranked(x, s.drop_first())
    }
}

/// Ranks a sequence of scored entries by inserting them one by one.
pub open spec fn sort_ranked(s: Seq<ScoredEntry>) -> Seq<ScoredEntry>
    decreases s.len(),
{
    if s.len() == 0 {
        Seq::empty()
    } else {
        insert_ranked(s.last(), sort_ranked(s.drop_last()))
    }
}

/// The ranked names a search returns for a corpus and a query.
pub open spec fn spec_rank(corpus: Seq<Seq<char>>, q: Seq<char>) -> Seq<Seq<char>> {
    sort_ranked(scored_seq(corpus, q)).map_values(|t: ScoredEntry| t.name)
}

/// The ranking order is total on any two entries.
proof fn lemma_ranked_total(a: ScoredEntry, b: ScoredEntry)
    ensures
        ranked_before(a, b) || ranked_before(b, a),
{
}

/// Inserting keeps every held entry and adds the new one.
proof fn lemma_insert_ranked_multiset(x: ScoredEntry, s: Seq<ScoredEntry>)
    ensures
        insert_ranked(x, s).to_multiset() == s.to_multiset().insert(x),
    decreases s.len(),
{
    s.to_multiset_ensures();
    insert_ranked(x, s).to_multiset_ensures();
    if s.len() == 0 {
        assert(insert_ranked(x, s) =~= Seq::<ScoredEntry>::empty().push(x));
        Seq::<ScoredEntry>::empty().to_multiset_ensures();
        assert(Seq::<ScoredEntry>::empty().to_multiset() =~= Multiset::<ScoredEntry>::empty());
        assert(insert_ranked(x, s).to_multiset() =~= s.to_multiset().insert(x));
    } else if ranked_before(x, s[0]) {
        assert(insert_ranked(x, s) =~= seq![x] + s);
        crate::search::lemma_cons_to_multiset(x, s);
        assert(insert_ranked(x, s).to_multiset() =~= s.to_multiset().insert(x));
    } else {
        lemma_insert_ranked_multiset(x, s.drop_first());
        assert(insert_ranked(x, s) =~= seq![s[0]] + insert_ranked(x, s.drop_first()));
        lemma_cons_to_multiset(s[0], insert_ranked(x, s.drop_first()));
        lemma_cons_to_multiset(s[0], s.drop_first());
        assert(s =~= seq![s[0]] + s.drop_first());
        assert(insert_ranked(x, s).to_multiset() =~= s.to_multiset().insert(x));
    }
}

/// Prepending one entry inserts it into the multiset.
proof fn lemma_cons_to_multiset(x: ScoredEntry, s: Seq<ScoredEntry>)
    ensures
        (seq![x] + s).to_multiset() == s.to_multiset().insert(x),
{
    broadcast use vstd::multiset::group_multiset_axioms;

    let c = seq![x] + s;
    c.to_multiset_ensures();
    s.to_multiset_ensures();
    assert(c.remove(0) =~= s);
    assert(c[0] == x);
    assert(s.to_multiset() =~= c.to_multiset().remove(x));
    assert(c.contains(x));
    assert(c.to_multiset().count(x) > 0);
    assert forall|y: ScoredEntry|
        c.to_multiset().count(y) == #[trigger] s.to_multiset().insert(x).count(y) by {
        assert(s.to_multiset().count(y) == c.to_multiset().remove(x).count(y));
    }
    assert(c.to_multiset() =~= s.to_multiset().insert(x));
}

/// Whether a sequence is ranked: no later entry outranks an earlier one.
pub open spec fn is_ranked(s: Seq<ScoredEntry>) -> bool {
    forall|i: int, j: int|
        0 <= i < j < s.len() ==> ranked_before(#[trigger] s[i], #[trigger] s[j])
}

/// Inserting into a ranked sequence keeps it ranked.
proof fn lemma_insert_ranked_sorted(x: ScoredEntry, s: Seq<ScoredEntry>)
    requires
        is_ranked(s),
    ensures
        is_ranked(insert_ranked(x, s)),
    decreases s.len(),
{
    if s.len() == 0 {
    } else if ranked_before(x, s[0]) {
        let r = seq![x] + s;
        assert forall|i: int, j: int|
            0 <= i < j < r.len() implies ranked_before(#[trigger] r[i], #[trigger] r[j]) by {
            if i == 0 {
                if j == 1 {
                    assert(r[j] == s[0]);
                } else {
                    assert(r[j] == s[j - 1]);
                    assert(ranked_before(s[0], s[j - 1]));
                }
            } else {
                assert(r[i] == s[i - 1]);
                assert(r[j] == s[j - 1]);
            }
        }
    } else {
        assert(forall|i: int, j: int|
            0 <= i < j < s.drop_first().len() ==> ranked_before(
                #[trigger] s.drop_first()[i],
                #[trigger] s.drop_first()[j],
            ));
        lemma_insert_ranked_sorted(x, s.drop_first());
        let t = insert_ranked(x, s.drop_first());
        let r = seq![s[0]] + t;
        lemma_ranked_total(x, s[0]);
        assert(ranked_before(s[0], x));
        lemma_insert_ranked_head(x, s.drop_first());
        assert forall|i: int, j: int|
            0 <= i < j < r.len() implies ranked_before(#[trigger] r[i], #[trigger] r[j]) by {
            if i == 0 {
                assert(r[j] == t[j - 1]);
                if t[j - 1] == x {
                    assert(ranked_before(s[0], r[j]));
                } else {
                    lemma_insert_ranked_members(x, s.drop_first(), j - 1);
                }
            } else {
                assert(r[i] == t[i - 1]);
                assert(r[j] == t[j - 1]);
            }
        }
    }
}

/// Every entry of an insertion result is the inserted entry or a held one.
proof fn lemma_insert_ranked_members(x: ScoredEntry, s: Seq<ScoredEntry>, i: int)
    requires
        0 <= i < insert_ranked(x, s).len(),
    ensures
        insert_ranked(x, s)[i] == x || s.contains(insert_ranked(x, s)[i]),
    decreases s.len(),
{
    if s.len() == 0 {
    } else if ranked_before(x, s[0]) {
        if i > 0 {
            assert(insert_ranked(x, s)[i] == s[i - 1]);
        }
    } else {
        if i == 0 {
            assert(insert_ranked(x, s)[0] == s[0]);
        } else {
            lemma_insert_ranked_members(x, s.drop_first(), i - 1);
            assert(insert_ranked(x, s)[i] == insert_ranked(x, s.drop_first())[i - 1]);
            if insert_ranked(x, s.drop_first())[i - 1] != x {
                let e = insert_ranked(x, s.drop_first())[i - 1];
                let j = choose|j: int| 0 <= j < s.drop_first().len() && s.drop_first()[j] == e;
                assert(s[j + 1] == e);
            }
        }
    }
}

/// Inserting grows the sequence by exactly one entry.
proof fn lemma_insert_ranked_head(x: ScoredEntry, s: Seq<ScoredEntry>)
    ensures
        insert_ranked(x, s).len() == s.len() + 1,
    decreases s.len(),
{
    if s.len() == 0 {
    } else if ranked_before(x, s[0]) {
    } else {
        lemma_insert_ranked_head(x, s.drop_first());
    }
}

/// What ranking yields: the same entries, in ranked order.
pub proof fn lemma_sort_ranked_props(s: Seq<ScoredEntry>)
    ensures
        sort_ranked(s).to_multiset() == s.to_multiset(),
        is_ranked(sort_ranked(s)),
    decreases s.len(),
{
    s.to_multiset_ensures();
    sort_ranked(s).to_multiset_ensures();
    if s.len() > 0 {
        lemma_sort_ranked_props(s.drop_last());
        lemma_insert_ranked_multiset(s.last(), sort_ranked(s.drop_last()));
        lemma_insert_ranked_sorted(s.last(), sort_ranked(s.drop_last()));
        assert(s.drop_last().push(s.last()) =~= s);
        s.drop_last().to_multiset_ensures();
        assert(s.to_multiset() =~= s.drop_last().to_multiset().insert(s.last()));
    }
}

/// The character sequences of a sequence of strings.
pub open spec fn strs_view(s: Seq<String>) -> Seq<Seq<char>> {
    s.map_values(|x: String| x@)
}

/// The scored entry an exec triple stands for.
pub open spec fn tview(t: (String, i64, usize)) -> ScoredEntry {
    ScoredEntry { name: t.0@, score: t.1 as int, index: t.2 as int }
}

/// The scored entries an exec triple sequence stands for.
pub open spec fn tviews(s: Seq<(String, i64, usize)>) -> Seq<ScoredEntry> {
    s.map_values(|t: (String, i64, usize)| tview(t))
}

/// Whether `a` comes before `b` in the ranking order.
fn ranked_before_exec(a: &(String, i64, usize), b: &(String, i64, usize)) -> (r: bool)
    ensures
        r == ranked_before(tview(*a), tview(*b)),
{
    a.1 > b.1 || (a.1 == b.1 && a.2 <= b.2)
}

/// Places an entry into an already ranked vector, before the first entry
/// it outranks.
fn insert_sorted(sorted: &mut Vec<(String, i64, usize)>, x: (String, i64, usize))
    ensures
        tviews(final(sorted)@) == insert_ranked(tview(x), tviews(old(sorted)@)),
{
    let ghost s = tviews(old(sorted)@);
    let ghost xv = tview(x);
    let n = sorted.len();
    let mut j: usize = 0;
    proof {
        assert(s.take(0) =~= Seq::<ScoredEntry>::empty());
        assert(s.skip(0) =~= s);
        assert(s.take(0) + insert_ranked(xv, s.skip(0)) =~= insert_ranked(xv, s));
    }
    while j < n
        invariant
            j <= n,
            n == sorted@.len(),
            s == tviews(sorted@),
            insert_ranked(xv, s) == s.take(j as int) + insert_ranked(xv, s.skip(j as int)),
            xv == tview(x),
        ensures
            j <= n,
            n == sorted@.len(),
            s == tviews(sorted@),
            insert_ranked(xv, s) == s.take(j as int) + insert_ranked(xv, s.skip(j as int)),
            xv == tview(x),
            j == n || ranked_before(xv, s[j as int]),
        decreases n - j,
    {
        proof {
            assert(s[j as int] == tview(sorted@[j as int]));
            assert(s.skip(j as int)[0] == s[j as int]);
        }
        if ranked_before_exec(&x, &sorted[j]) {
            break;
        }
        proof {
            assert(s.skip(j as int).drop_first() =~= s.skip(j + 1));
            assert(insert_ranked(xv, s.skip(j as int)) == seq![s[j as int]] + insert_ranked(
                xv,
                s.skip(j + 1),
            ));
            assert(s.take(j as int) + (seq![s[j as int]] + insert_ranked(xv, s.skip(j + 1)))
                =~= s.take(j + 1) + insert_ranked(xv, s.skip(j + 1)));
        }
        j = j + 1;
    }
    proof {
        if j == n {
            assert(s.skip(n as int) =~= Seq::<ScoredEntry>::empty());
            assert(insert_ranked(xv, s.skip(n as int)) =~= seq![xv]);
        } else {
            assert(s.skip(j as int)[0] == s[j as int]);
            assert(insert_ranked(xv, s.skip(j as int)) =~= seq![xv] + s.skip(j as int));
        }
    }
    sorted.insert(j, x);
    proof {
        assert(tviews(sorted@) =~= s.take(j as int) + (seq![xv] + s.skip(j as int)));
        if j < n {
            assert(tviews(sorted@) =~= insert_ranked(xv, s));
        } else {
            assert(tviews(sorted@) =~= insert_ranked(xv, s));
        }
    }
}

/// Ranks the corpus names against the query: names the matcher scores stay,
/// ordered best score first and corpus order within one score; the rest
/// drop out. One corpus and query always yield one ranking.
pub fn rank_names(names: &Vec<String>, query: &str) -> (r: Vec<String>)
    ensures
        strs_view(r@) == spec_rank(strs_view(names@), query@),
{
    let ghost corpus = strs_view(names@);
    let mut scored: Vec<(String, i64, usize)> = Vec::new();
    let n = names.len();
    let mut i: usize = 0;
    proof {
        assert(corpus.take(0) =~= Seq::<Seq<char>>::empty());
        assert(tviews(scored@) =~= scored_seq(corpus.take(0), query@));
    }
    while i < n
        invariant
            i <= n,
            n == names@.len(),
            corpus == strs_view(names@),
            corpus.len() == n,
            tviews(scored@) == scored_seq(corpus.take(i as int), query@),
        decreases n - i,
    {
        let ghost pre = scored_seq(corpus.take(i as int), query@);
        proof {
            assert(corpus.take(i + 1).drop_last() =~= corpus.take(i as int));
            assert(corpus.take(i + 1).last() == corpus[i as int]);
            assert(corpus[i as int] == names@[i as int]@);
        }
        match fuzzy_match_score(&names[i], query) {
            Some(sc) => {
                scored.push((names[i].clone(), sc, i));
                proof {
                    assert(tviews(scored@) =~= pre + seq![
                        ScoredEntry { name: corpus[i as int], score: sc as int, index: i as int },
                    ]);
                    assert(tviews(scored@) =~= scored_seq(corpus.take(i + 1), query@));
                }
            },
            None => {
                proof {
                    assert(scored_seq(corpus.take(i + 1), query@) =~= pre);
                }
            },
        }
        i = i + 1;
    }
    proof {
        assert(corpus.take(n as int) =~= corpus);
    }
    let mut sorted: Vec<(String, i64, usize)> = Vec::new();
    let m = scored.len();
    let mut k: usize = 0;
    proof {
        assert(tviews(scored@).take(0) =~= Seq::<ScoredEntry>::empty());
        assert(tviews(sorted@) =~= sort_ranked(tviews(scored@).take(0)));
    }
    while k < m
        invariant
            k <= m,
            m == scored@.len(),
            tviews(scored@) == scored_seq(corpus, query@),
            tviews(sorted@) == sort_ranked(tviews(scored@).take(k as int)),
        decreases m - k,
    {
        let entry = (scored[k].0.clone(), scored[k].1, scored[k].2);
        proof {
            assert(tview(entry) == tviews(scored@)[k as int]);
            assert(tviews(scored@).take(k + 1).drop_last() =~= tviews(scored@).take(k as int));
            assert(tviews(scored@).take(k + 1).last() == tviews(scored@)[k as int]);
        }
        insert_sorted(&mut sorted, entry);
        k = k + 1;
    }
    proof {
        assert(tviews(scored@).take(m as int) =~= tviews(scored@));
    }
    let mut out: Vec<String> = Vec::new();
    let sn = sorted.len();
    let mut p: usize = 0;
    proof {
        assert(strs_view(out@) =~= tviews(sorted@).map_values(|t: ScoredEntry| t.name).take(0));
    }
    while p < sn
        invariant
            p <= sn,
            sn == sorted@.len(),
            tviews(sorted@) == sort_ranked(scored_seq(corpus, query@)),
            strs_view(out@) == tviews(sorted@).map_values(|t: ScoredEntry| t.name).take(p as int),
        decreases sn - p,
    {
        let ghost out_pre = out@;
        let ghost full = tviews(sorted@).map_values(|t: ScoredEntry| t.name);
        proof {
            assert(full[p as int] == tviews(sorted@)[p as int].name);
            assert(tviews(sorted@)[p as int] == tview(sorted@[p as int]));
        }
        out.push(sorted[p].0.clone());
        proof {
            assert(out@ =~= out_pre.push(sorted@[p as int].0));
            assert(strs_view(out@) =~= strs_view(out_pre).push(sorted@[p as int].0@));
            assert(full.take(p + 1) =~= full.take(p as int).push(full[p as int]));
            assert(strs_view(out@) =~= full.take(p + 1));
        }
        p = p + 1;
    }
    proof {
        let full = tviews(sorted@).map_values(|t: ScoredEntry| t.name);
        assert(full.take(sn as int) =~= full);
    }
    out
}

} // verus!
