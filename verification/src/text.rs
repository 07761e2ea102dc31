//! Character-sequence utilities shared by the bucket-key and search modules:
//! lexicographic ordering of strings, substring containment, decimal digit
//! rendering, and pattern removal.

use vstd::prelude::*;
use vstd::multiset::Multiset;
use vstd::string::StrSliceExecFns;
use vstd::string::StringExecFns;

verus! {

/// Lexicographic order on character sequences, comparing scalar values
/// position by position; a strict prefix comes first.
pub open spec fn lex_le(a: Seq<char>, b: Seq<char>) -> bool
    decreases a.len(),
{
    if a.len() == 0 {
        true
    } else if b.len() == 0 {
        false
    } else if (a[0] as u32) < (b[0] as u32) {
        true
    } else if (b[0] as u32) < (a[0] as u32) {
        false
    } else {
        lex_le(a.drop_first(), b.drop_first())
    }
}

/// The order is total: any two strings are comparable.
pub proof fn lemma_lex_le_total(a: Seq<char>, b: Seq<char>)
    ensures
        lex_le(a, b) || lex_le(b, a),
    decreases a.len(),
{
    if a.len() != 0 && b.len() != 0 && (a[0] as u32) == (b[0] as u32) {
        lemma_lex_le_total(a.drop_first(), b.drop_first());
    }
}

/// The order is reflexive.
pub proof fn lemma_lex_le_refl(a: Seq<char>)
    ensures
        lex_le(a, a),
    decreases a.len(),
{
    if a.len() != 0 {
        lemma_lex_le_refl(a.drop_first());
    }
}

/// Two strings below one another are equal.
pub proof fn lemma_lex_le_antisym(a: Seq<char>, b: Seq<char>)
    requires
        lex_le(a, b),
        lex_le(b, a),
    ensures
        a =~= b,
    decreases a.len(),
{
    if a.len() != 0 && b.len() != 0 {
        assert(a[0] == b[0]) by {
            vstd::utf8::char_u32_cast(a[0], a[0] as u32);
            vstd::utf8::char_u32_cast(b[0], b[0] as u32);
        }
        lemma_lex_le_antisym(a.drop_first(), b.drop_first());
        assert(a =~= seq![a[0]] + a.drop_first());
        assert(b =~= seq![b[0]] + b.drop_first());
    }
}

/// The order is transitive.
pub proof fn lemma_lex_le_trans(a: Seq<char>, b: Seq<char>, c: Seq<char>)
    requires
        lex_le(a, b),
        lex_le(b, c),
    ensures
        lex_le(a, c),
    decreases a.len(),
{
    if a.len() != 0 && b.len() != 0 && c.len() != 0 {
        if (a[0] as u32) == (b[0] as u32) && (b[0] as u32) == (c[0] as u32) {
            lemma_lex_le_trans(a.drop_first(), b.drop_first(), c.drop_first());
        }
    }
}

/// Dropping equal leading characters does not change the comparison.
proof fn lemma_lex_le_step(a: Seq<char>, b: Seq<char>, i: int)
    requires
        0 <= i,
        i < a.len(),
        i < b.len(),
        a[i] == b[i],
    ensures
        lex_le(a.skip(i), b.skip(i)) == lex_le(a.skip(i + 1), b.skip(i + 1)),
{
    assert(a.skip(i).drop_first() =~= a.skip(i + 1));
    assert(b.skip(i).drop_first() =~= b.skip(i + 1));
    assert(a.skip(i)[0] == a[i]);
    assert(b.skip(i)[0] == b[i]);
}

/// Compares two strings in the lexicographic order of their characters.
pub fn str_lex_le(a: &str, b: &str) -> (r: bool)
    ensures
        r == lex_le(a@, b@),
{
    let alen = a.unicode_len();
    let blen = b.unicode_len();
    let mut i: usize = 0;
    proof {
        assert(a@.skip(0) =~= a@);
        assert(b@.skip(0) =~= b@);
    }
    loop
        invariant
            i <= alen,
            i <= blen,
            alen == a@.len(),
            blen == b@.len(),
            lex_le(a@, b@) == lex_le(a@.skip(i as int), b@.skip(i as int)),
        decreases alen - i,
    {
        proof {
            assert(a@.skip(i as int).len() == alen - i);
            assert(b@.skip(i as int).len() == blen - i);
        }
        if i >= alen {
            return true;
        }
        if i >= blen {
            return false;
        }
        let ca = a.get_char(i);
        let cb = b.get_char(i);
        proof {
            assert(a@.skip(i as int)[0] == a@[i as int]);
            assert(b@.skip(i as int)[0] == b@[i as int]);
        }
        if (ca as u32) < (cb as u32) {
            return true;
        }
        if (cb as u32) < (ca as u32) {
            return false;
        }
        proof {
            vstd::utf8::char_u32_cast(ca, ca as u32);
            vstd::utf8::char_u32_cast(cb, cb as u32);
            assert(ca == cb);
            lemma_lex_le_step(a@, b@, i as int);
        }
        i = i + 1;
    }
}

/// The needle occurs in the haystack starting at position `i`.
pub open spec fn occurs_at(hay: Seq<char>, needle: Seq<char>, i: int) -> bool {
    0 <= i && i + needle.len() <= hay.len() && hay.subrange(i, i + needle.len()) == needle
}

/// The needle occurs somewhere in the haystack.
pub open spec fn contains_sub(hay: Seq<char>, needle: Seq<char>) -> bool {
    exists|i: int| occurs_at(hay, needle, i)
}

/// Whether the needle occurs in the haystack starting at position `at`.
pub fn str_matches_at(hay: &str, needle: &str, at: usize) -> (r: bool)
    requires
        at + needle@.len() <= hay@.len(),
    ensures
        r == occurs_at(hay@, needle@, at as int),
{
    let hlen = hay.unicode_len();
    let nlen = needle.unicode_len();
    let mut j: usize = 0;
    while j < nlen
        invariant
            j <= nlen,
            hlen == hay@.len(),
            nlen == needle@.len(),
            at + nlen <= hlen,
            forall|k: int| 0 <= k < j ==> hay@[at + k] == needle@[k],
        decreases nlen - j,
    {
        if hay.get_char(at + j) != needle.get_char(j) {
            assert(hay@.subrange(at as int, at + nlen)[j as int] != needle@[j as int]);
            return false;
        }
        j = j + 1;
    }
    assert(hay@.subrange(at as int, at + nlen) =~= needle@);
    true
}

/// Whether two string slices hold the same characters.
pub fn str_eq_str(a: &str, b: &str) -> (r: bool)
    ensures
        r == (a@ == b@),
{
    let al = a.unicode_len();
    let bl = b.unicode_len();
    if al != bl {
        return false;
    }
    let r = str_matches_at(a, b, 0);
    proof {
        assert(a@.subrange(0, bl as int) =~= a@);
    }
    r
}

/// Whether the haystack contains the needle as a contiguous substring.
pub fn str_contains(hay: &str, needle: &str) -> (r: bool)
    ensures
        r == contains_sub(hay@, needle@),
{
    let hlen = hay.unicode_len();
    let nlen = needle.unicode_len();
    if nlen > hlen {
        assert(forall|i: int| !occurs_at(hay@, needle@, i));
        return false;
    }
    let mut i: usize = 0;
    loop
        invariant
            nlen <= hlen,
            hlen == hay@.len(),
            nlen == needle@.len(),
            i <= hlen - nlen,
            forall|k: int| 0 <= k < i ==> !occurs_at(hay@, needle@, k),
        decreases hlen - nlen - i,
    {
        if str_matches_at(hay, needle, i) {
            return true;
        }
        if i == hlen - nlen {
            assert(forall|k: int| 0 <= k <= hlen - nlen ==> !occurs_at(hay@, needle@, k));
            assert(forall|k: int| !occurs_at(hay@, needle@, k));
            return false;
        }
        i = i + 1;
    }
}

/// Comparing two concatenations whose left parts have equal length reduces
/// to comparing the left parts, and the right parts on a tie.
pub proof fn lemma_lex_concat(a: Seq<char>, b: Seq<char>, c: Seq<char>, d: Seq<char>)
    requires
        a.len() == b.len(),
        lex_le(a, b),
        a =~= b ==> lex_le(c, d),
    ensures
        lex_le(a + c, b + d),
    decreases a.len(),
{
    if a.len() == 0 {
        assert(a =~= b);
        assert(a + c =~= c);
        assert(b + d =~= d);
    } else {
        assert((a + c)[0] == a[0]);
        assert((b + d)[0] == b[0]);
        if (a[0] as u32) < (b[0] as u32) {
            assert(lex_le(a + c, b + d));
        } else {
            assert(a[0] == b[0]) by {
                vstd::utf8::char_u32_cast(a[0], a[0] as u32);
                vstd::utf8::char_u32_cast(b[0], b[0] as u32);
            }
            assert(lex_le(a.drop_first(), b.drop_first()));
            if a.drop_first() =~= b.drop_first() {
                assert forall|i: int| 0 <= i < a.len() implies a[i] == b[i] by {
                    if i > 0 {
                        assert(a[i] == a.drop_first()[i - 1]);
                        assert(b[i] == b.drop_first()[i - 1]);
                    }
                }
                assert(a =~= b);
            }
            lemma_lex_concat(a.drop_first(), b.drop_first(), c, d);
            assert((a + c).drop_first() =~= a.drop_first() + c);
            assert((b + d).drop_first() =~= b.drop_first() + d);
        }
    }
}

/// A shared prefix does not affect the comparison.
pub proof fn lemma_lex_prefix(pre: Seq<char>, a: Seq<char>, b: Seq<char>)
    requires
        lex_le(a, b),
    ensures
        lex_le(pre + a, pre + b),
{
    lemma_lex_le_refl(pre);
    lemma_lex_concat(pre, pre, a, b);
}

/// Two-digit renderings order like their values, and coincide only for
/// equal values.
pub proof fn lemma_two_digit_le(m: int, n: int)
    requires
        0 <= m <= n < 100,
    ensures
        lex_le(two_digit_seq(m), two_digit_seq(n)),
        (two_digit_seq(m) =~= two_digit_seq(n)) == (m == n),
{
    let a = two_digit_seq(m);
    let b = two_digit_seq(n);
    assert(a[0] == digit_char(m / 10));
    assert(a[1] == digit_char(m % 10));
    assert(b[0] == digit_char(n / 10));
    assert(b[1] == digit_char(n % 10));
    if m == n {
        lemma_lex_le_refl(a);
        assert(a =~= b);
    } else {
        if m / 10 < n / 10 {
            assert((a[0] as u32) < (b[0] as u32));
            assert(lex_le(a, b));
            assert(a[0] != b[0]);
            assert(!(a =~= b));
        } else {
            assert(m / 10 == n / 10);
            assert(m % 10 < n % 10);
            assert((a[1] as u32) < (b[1] as u32));
            assert(a[1] != b[1]);
            assert(!(a =~= b));
            assert(a.drop_first() =~= seq![digit_char(m % 10)]);
            assert(b.drop_first() =~= seq![digit_char(n % 10)]);
            assert(lex_le(a.drop_first(), b.drop_first()));
            assert(lex_le(a, b));
        }
    }
}

/// Four-digit renderings order like their values, and coincide only for
/// equal values.
pub proof fn lemma_four_digit_le(m: int, n: int)
    requires
        0 <= m <= n < 10000,
    ensures
        lex_le(four_digit_seq(m), four_digit_seq(n)),
        (four_digit_seq(m) =~= four_digit_seq(n)) == (m == n),
{
    let hi1 = two_digit_seq(m / 100);
    let lo1 = two_digit_seq(m % 100);
    let hi2 = two_digit_seq(n / 100);
    let lo2 = two_digit_seq(n % 100);
    lemma_two_digit_le(m / 100, n / 100);
    if m / 100 == n / 100 {
        lemma_two_digit_le(m % 100, n % 100);
    }
    lemma_lex_concat(hi1, hi2, lo1, lo2);
    if m == n {
        assert(four_digit_seq(m) =~= four_digit_seq(n));
    } else {
        let a = four_digit_seq(m);
        let b = four_digit_seq(n);
        assert(a[0] == hi1[0] && a[1] == hi1[1] && a[2] == lo1[0] && a[3] == lo1[1]);
        assert(b[0] == hi2[0] && b[1] == hi2[1] && b[2] == lo2[0] && b[3] == lo2[1]);
        if a =~= b {
            assert(hi1 =~= hi2);
            assert(m / 100 == n / 100);
            assert(lo1 =~= lo2);
            assert(m % 100 == n % 100);
        }
    }
}

/// The string with every occurrence of the pattern, scanned left to right
/// without overlap, replaced.
pub open spec fn replace_seq(s: Seq<char>, pat: Seq<char>, rep: Seq<char>) -> Seq<char>
    recommends
        pat.len() > 0,
    decreases s.len(),
{
    if s.len() < pat.len() || pat.len() == 0 {
        s
    } else if s.subrange(0, pat.len() as int) == pat {
        rep + replace_seq(s.skip(pat.len() as int), pat, rep)
    } else {
        seq![s[0]] + replace_seq(s.drop_first(), pat, rep)
    }
}

/// Replaces every occurrence of `pat` in `s`, scanning left to right without
/// overlap, with `rep`.
#[verifier::rlimit(60)]
pub fn replace_str(s: &str, pat: &str, rep: &str) -> (r: String)
    requires
        pat@.len() > 0,
    ensures
        r@ == replace_seq(s@, pat@, rep@),
{
    let slen = s.unicode_len();
    let plen = pat.unicode_len();
    let mut out = String::new();
    let mut i: usize = 0;
    proof {
        assert(s@.skip(0) =~= s@);
    }
    while i < slen
        invariant
            i <= slen,
            slen == s@.len(),
            plen == pat@.len(),
            plen > 0,
            replace_seq(s@, pat@, rep@) == out@ + replace_seq(s@.skip(i as int), pat@, rep@),
        decreases slen - i,
    {
        let ghost tail = s@.skip(i as int);
        if plen <= slen - i && str_matches_at(s, pat, i) {
            out.append(rep);
            proof {
                assert(tail.subrange(0, plen as int) =~= s@.subrange(i as int, i + plen));
                assert(tail.skip(plen as int) =~= s@.skip(i + plen));
                assert(replace_seq(tail, pat@, rep@) == rep@ + replace_seq(
                    s@.skip(i + plen),
                    pat@,
                    rep@,
                ));
            }
            i = i + plen;
        } else {
            let piece = s.substring_char(i, i + 1);
            out.append(piece);
            proof {
                if plen <= slen - i {
                    assert(tail.subrange(0, plen as int) =~= s@.subrange(i as int, i + plen));
                    assert(tail.subrange(0, plen as int) != pat@);
                }
                assert(tail.drop_first() =~= s@.skip(i + 1));
                assert(tail[0] == s@[i as int]);
                assert(piece@ =~= seq![tail[0]]);
                assert(replace_seq(tail, pat@, rep@) == piece@ + replace_seq(
                    s@.skip(i + 1),
                    pat@,
                    rep@,
                ));
            }
            i = i + 1;
        }
    }
    proof {
        assert(s@.skip(slen as int) =~= Seq::<char>::empty());
        assert(out@ + replace_seq(s@.skip(slen as int), pat@, rep@) =~= out@);
    }
    out
}

/// The character for a single decimal digit.
pub open spec fn digit_char(d: int) -> char {
    if d == 0 {
        '0'
    } else if d == 1 {
        '1'
    } else if d == 2 {
        '2'
    } else if d == 3 {
        '3'
    } else if d == 4 {
        '4'
    } else if d == 5 {
        '5'
    } else if d == 6 {
        '6'
    } else if d == 7 {
        '7'
    } else if d == 8 {
        '8'
    } else {
        '9'
    }
}

/// A single decimal digit as a string slice.
pub fn digit_str(d: u32) -> (r: &'static str)
    requires
        d < 10,
    ensures
        r@ =~= seq![digit_char(d as int)],
{
    proof {
        reveal_strlit("0");
        reveal_strlit("1");
        reveal_strlit("2");
        reveal_strlit("3");
        reveal_strlit("4");
        reveal_strlit("5");
        reveal_strlit("6");
        reveal_strlit("7");
        reveal_strlit("8");
        reveal_strlit("9");
    }
    if d == 0 {
        "0"
    } else if d == 1 {
        "1"
    } else if d == 2 {
        "2"
    } else if d == 3 {
        "3"
    } else if d == 4 {
        "4"
    } else if d == 5 {
        "5"
    } else if d == 6 {
        "6"
    } else if d == 7 {
        "7"
    } else if d == 8 {
        "8"
    } else {
        "9"
    }
}

/// A number below 100 rendered as exactly two decimal digits.
pub open spec fn two_digit_seq(n: int) -> Seq<char> {
    seq![digit_char(n / 10), digit_char(n % 10)]
}

/// A number below 10000 rendered as exactly four decimal digits.
pub open spec fn four_digit_seq(n: int) -> Seq<char> {
    two_digit_seq(n / 100) + two_digit_seq(n % 100)
}

/// Appends the two-digit rendering of `n` to `out`.
pub fn push_two_digits(out: &mut String, n: u32)
    requires
        n < 100,
    ensures
        final(out)@ == old(out)@ + two_digit_seq(n as int),
{
    out.append(digit_str(n / 10));
    out.append(digit_str(n % 10));
    assert(final(out)@ =~= old(out)@ + two_digit_seq(n as int));
}

/// Appends the four-digit rendering of `n` to `out`.
pub fn push_four_digits(out: &mut String, n: u32)
    requires
        n < 10000,
    ensures
        final(out)@ == old(out)@ + four_digit_seq(n as int),
{
    push_two_digits(out, n / 100);
    push_two_digits(out, n % 100);
    assert(final(out)@ =~= old(out)@ + four_digit_seq(n as int));
}

/// The usual decimal rendering of a non-negative number, without leading
/// zeros.
pub open spec fn dec_seq(n: int) -> Seq<char>
    decreases n,
{
    if n < 10 {
        seq![digit_char(n)]
    } else {
        dec_seq(n / 10) + seq![digit_char(n % 10)]
    }
}

/// Renders a number in decimal.
pub fn u32_to_dec_string(n: u32) -> (r: String)
    ensures
        r@ == dec_seq(n as int),
    decreases n,
{
    if n < 10 {
        let mut s = String::new();
        s.append(digit_str(n));
        assert(s@ =~= dec_seq(n as int));
        s
    } else {
        let mut s = u32_to_dec_string(n / 10);
        s.append(digit_str(n % 10));
        assert(s@ =~= dec_seq(n as int));
        s
    }
}

/// Inserts a string into a lexicographically ordered sequence, before the
/// first entry it does not come after.
pub open spec fn insert_lex(x: Seq<char>, s: Seq<Seq<char>>) -> Seq<Seq<char>>
    decreases s.len(),
{
    if s.len() == 0 {
        seq![x]
    } else if lex_le(x, s[0]) {
        seq![x] + s
    } else {
        seq![s[0]] + insert_lex(x, s.drop_first())
    }
}

/// Orders a sequence of strings lexicographically by inserting them one by
/// one.
pub open spec fn sort_lex(s: Seq<Seq<char>>) -> Seq<Seq<char>>
    decreases s.len(),
{
    if s.len() == 0 {
        Seq::empty()
    } else {
        insert_lex(s.last(), sort_lex(s.drop_last()))
    }
}

/// Whether a sequence of strings is in lexicographic order.
pub open spec fn is_lex_sorted(s: Seq<Seq<char>>) -> bool {
    forall|i: int, j: int| 0 <= i < j < s.len() ==> lex_le(#[trigger] s[i], #[trigger] s[j])
}

/// Prepending one string inserts it into the multiset.
proof fn lemma_lex_cons_to_multiset(x: Seq<char>, s: Seq<Seq<char>>)
    ensures
        (seq![x] + s).to_multiset() == s.to_multiset().insert(x),
{
    broadcast use vstd::multiset::group_multiset_axioms;

    let c = seq![x] + s;
    c.to_multiset_ensures();
    s.to_multiset_ensures();
    assert(c.remove(0) =~= s);
    assert(c[0] == x);
    assert(s.to_multiset() =~= c.to_multiset().remove(x));
    assert(c.contains(x));
    assert(c.to_multiset().count(x) > 0);
    assert forall|y: Seq<char>|
        c.to_multiset().count(y) == #[trigger] s.to_multiset().insert(x).count(y) by {
        assert(s.to_multiset().count(y) == c.to_multiset().remove(x).count(y));
    }
    assert(c.to_multiset() =~= s.to_multiset().insert(x));
}

/// Inserting keeps every held string and adds the new one.
proof fn lemma_insert_lex_multiset(x: Seq<char>, s: Seq<Seq<char>>)
    ensures
        insert_lex(x, s).to_multiset() == s.to_multiset().insert(x),
        insert_lex(x, s).len() == s.len() + 1,
    decreases s.len(),
{
    broadcast use vstd::multiset::group_multiset_axioms;

    if s.len() == 0 {
        s.to_multiset_ensures();
        assert(insert_lex(x, s) =~= s.push(x));
        assert(insert_lex(x, s).to_multiset() =~= s.to_multiset().insert(x));
    } else if lex_le(x, s[0]) {
        lemma_lex_cons_to_multiset(x, s);
    } else {
        lemma_insert_lex_multiset(x, s.drop_first());
        lemma_lex_cons_to_multiset(s[0], insert_lex(x, s.drop_first()));
        lemma_lex_cons_to_multiset(s[0], s.drop_first());
        assert(s =~= seq![s[0]] + s.drop_first());
        assert(insert_lex(x, s).to_multiset() =~= s.to_multiset().insert(x));
    }
}

/// Every entry of an insertion result is the inserted string or a held
/// one.
proof fn lemma_insert_lex_members(x: Seq<char>, s: Seq<Seq<char>>, i: int)
    requires
        0 <= i < insert_lex(x, s).len(),
    ensures
        insert_lex(x, s)[i] == x || s.contains(insert_lex(x, s)[i]),
    decreases s.len(),
{
    if s.len() == 0 {
    } else if lex_le(x, s[0]) {
        if i > 0 {
            assert(insert_lex(x, s)[i] == s[i - 1]);
        }
    } else {
        if i == 0 {
            assert(insert_lex(x, s)[0] == s[0]);
        } else {
            lemma_insert_lex_members(x, s.drop_first(), i - 1);
            assert(insert_lex(x, s)[i] == insert_lex(x, s.drop_first())[i - 1]);
            if insert_lex(x, s.drop_first())[i - 1] != x {
                let e = insert_lex(x, s.drop_first())[i - 1];
                let j = choose|j: int| 0 <= j < s.drop_first().len() && s.drop_first()[j] == e;
                assert(s[j + 1] == e);
            }
        }
    }
}

/// Inserting into an ordered sequence keeps it ordered.
proof fn lemma_insert_lex_sorted(x: Seq<char>, s: Seq<Seq<char>>)
    requires
        is_lex_sorted(s),
    ensures
        is_lex_sorted(insert_lex(x, s)),
    decreases s.len(),
{
    if s.len() == 0 {
    } else if lex_le(x, s[0]) {
        let r = seq![x] + s;
        assert forall|i: int, j: int|
            0 <= i < j < r.len() implies lex_le(#[trigger] r[i], #[trigger] r[j]) by {
            if i == 0 {
                if j == 1 {
                    assert(r[j] == s[0]);
                } else {
                    assert(r[j] == s[j - 1]);
                    assert(lex_le(s[0], s[j - 1]));
                    lemma_lex_le_trans(x, s[0], s[j - 1]);
                }
            } else {
                assert(r[i] == s[i - 1]);
                assert(r[j] == s[j - 1]);
            }
        }
    } else {
        assert(forall|i: int, j: int|
            0 <= i < j < s.drop_first().len() ==> lex_le(
                #[trigger] s.drop_first()[i],
                #[trigger] s.drop_first()[j],
            ));
        lemma_insert_lex_sorted(x, s.drop_first());
        lemma_insert_lex_multiset(x, s.drop_first());
        let t = insert_lex(x, s.drop_first());
        let r = seq![s[0]] + t;
        lemma_lex_le_total(x, s[0]);
        assert(lex_le(s[0], x));
        assert forall|i: int, j: int|
            0 <= i < j < r.len() implies lex_le(#[trigger] r[i], #[trigger] r[j]) by {
            if i == 0 {
                assert(r[j] == t[j - 1]);
                if t[j - 1] == x {
                    assert(lex_le(r[i], r[j]));
                } else {
                    lemma_insert_lex_members(x, s.drop_first(), j - 1);
                    let e = t[j - 1];
                    let q = choose|q: int| 0 <= q < s.drop_first().len() && s.drop_first()[q] == e;
                    assert(s[q + 1] == e);
                    assert(lex_le(s[0], s[q + 1]));
                }
            } else {
                assert(r[i] == t[i - 1]);
                assert(r[j] == t[j - 1]);
            }
        }
    }
}

/// What ordering yields: the same strings, in lexicographic order.
pub proof fn lemma_sort_lex_props(s: Seq<Seq<char>>)
    ensures
        sort_lex(s).to_multiset() == s.to_multiset(),
        is_lex_sorted(sort_lex(s)),
    decreases s.len(),
{
    s.to_multiset_ensures();
    if s.len() == 0 {
        assert(s =~= Seq::<Seq<char>>::empty());
        assert(sort_lex(s) =~= s);
    } else {
        lemma_sort_lex_props(s.drop_last());
        lemma_insert_lex_multiset(s.last(), sort_lex(s.drop_last()));
        lemma_insert_lex_sorted(s.last(), sort_lex(s.drop_last()));
        assert(s.drop_last().push(s.last()) =~= s);
        s.drop_last().to_multiset_ensures();
        assert(s.to_multiset() =~= s.drop_last().to_multiset().insert(s.last()));
    }
}

/// The character sequences of a sequence of strings.
pub open spec fn string_views(s: Seq<String>) -> Seq<Seq<char>> {
    s.map_values(|x: String| x@)
}

/// Places a string into an already ordered vector.
fn insert_string_sorted(sorted: &mut Vec<String>, x: String)
    ensures
        string_views(final(sorted)@) == insert_lex(x@, string_views(old(sorted)@)),
{
    let ghost s = string_views(old(sorted)@);
    let ghost xv = x@;
    let n = sorted.len();
    let mut j: usize = 0;
    proof {
        assert(s.take(0) =~= Seq::<Seq<char>>::empty());
        assert(s.skip(0) =~= s);
        assert(s.take(0) + insert_lex(xv, s.skip(0)) =~= insert_lex(xv, s));
    }
    while j < n
        invariant
            j <= n,
            n == sorted@.len(),
            s == string_views(sorted@),
            insert_lex(xv, s) == s.take(j as int) + insert_lex(xv, s.skip(j as int)),
            xv == x@,
        ensures
            j <= n,
            n == sorted@.len(),
            s == string_views(sorted@),
            insert_lex(xv, s) == s.take(j as int) + insert_lex(xv, s.skip(j as int)),
            xv == x@,
            j == n || lex_le(xv, s[j as int]),
        decreases n - j,
    {
        proof {
            assert(s[j as int] == sorted@[j as int]@);
            assert(s.skip(j as int)[0] == s[j as int]);
        }
        if str_lex_le(x.as_str(), sorted[j].as_str()) {
            break ;
        }
        proof {
            assert(s.skip(j as int).drop_first() =~= s.skip(j + 1));
            assert(insert_lex(xv, s.skip(j as int)) == seq![s[j as int]] + insert_lex(
                xv,
                s.skip(j + 1),
            ));
            assert(s.take(j as int) + (seq![s[j as int]] + insert_lex(xv, s.skip(j + 1))) =~= s.take(
                j + 1,
            ) + insert_lex(xv, s.skip(j + 1)));
        }
        j = j + 1;
    }
    proof {
        if j == n {
            assert(s.skip(n as int) =~= Seq::<Seq<char>>::empty());
            assert(insert_lex(xv, s.skip(n as int)) =~= seq![xv]);
        } else {
            assert(s.skip(j as int)[0] == s[j as int]);
            assert(insert_lex(xv, s.skip(j as int)) =~= seq![xv] + s.skip(j as int));
        }
    }
    sorted.insert(j, x);
    proof {
        assert(string_views(sorted@) =~= s.take(j as int) + (seq![xv] + s.skip(j as int)));
        assert(string_views(sorted@) =~= insert_lex(xv, s));
    }
}

/// Orders the given strings lexicographically.
pub fn sort_strings(names: &Vec<String>) -> (r: Vec<String>)
    ensures
        string_views(r@) == sort_lex(string_views(names@)),
{
    let n = names.len();
    let mut sorted: Vec<String> = Vec::new();
    let mut i: usize = 0;
    proof {
        assert(string_views(names@).take(0) =~= Seq::<Seq<char>>::empty());
        assert(string_views(sorted@) =~= sort_lex(string_views(names@).take(0)));
    }
    while i < n
        invariant
            i <= n,
            n == names@.len(),
            string_views(sorted@) == sort_lex(string_views(names@).take(i as int)),
        decreases n - i,
    {
        proof {
            assert(string_views(names@).take(i + 1).drop_last() =~= string_views(names@).take(
                i as int,
            ));
            assert(string_views(names@).take(i + 1).last() == names@[i as int]@);
        }
        insert_string_sorted(&mut sorted, names[i].clone());
        i = i + 1;
    }
    proof {
        assert(string_views(names@).take(n as int) =~= string_views(names@));
    }
    sorted
}

/// Whether the character is a decimal digit.
pub open spec fn is_dec_digit(c: char) -> bool {
    48 <= c as u32 <= 57
}

/// The numeric value of a decimal digit character.
pub open spec fn digit_of(c: char) -> int {
    c as u32 - 48
}

/// Whether every character of the sequence is a decimal digit.
pub open spec fn all_dec_digits(s: Seq<char>) -> bool {
    forall|i: int| 0 <= i < s.len() ==> is_dec_digit(#[trigger] s[i])
}

/// The value of a sequence of decimal digit characters.
pub open spec fn digits_val(s: Seq<char>) -> int
    decreases s.len(),
{
    if s.len() == 0 {
        0
    } else {
        digits_val(s.drop_last()) * 10 + digit_of(s.last())
    }
}

/// The value of a digit string is never negative.
pub proof fn lemma_digits_val_nonneg(s: Seq<char>)
    requires
        all_dec_digits(s),
    ensures
        digits_val(s) >= 0,
    decreases s.len(),
{
    if s.len() > 0 {
        assert(all_dec_digits(s.drop_last()));
        lemma_digits_val_nonneg(s.drop_last());
    }
}

/// The digit part of a signed decimal string: everything after a leading
/// sign, if one is present.
pub open spec fn signed_digits(s: Seq<char>) -> Seq<char> {
    if s.len() > 0 && (s[0] == '-' || s[0] == '+') {
        s.drop_first()
    } else {
        s
    }
}

/// Whether a signed decimal string denotes a negative number.
pub open spec fn signed_neg(s: Seq<char>) -> bool {
    s.len() > 0 && s[0] == '-'
}

/// The value that a well-formed signed decimal string denotes: an optional
/// sign followed by at least one digit, with a magnitude that fits an `i64`.
/// Anything else parses to nothing.
pub open spec fn i64_parse_spec(s: Seq<char>) -> Option<int> {
    let ds = signed_digits(s);
    if ds.len() > 0 && all_dec_digits(ds) {
        let v = if signed_neg(s) {
            -digits_val(ds)
        } else {
            digits_val(ds)
        };
        if -9223372036854775808 <= v <= 9223372036854775807 {
            Some(v)
        } else {
            None
        }
    } else {
        None
    }
}

/// Parses a signed decimal integer, rejecting malformed input and values
/// outside the range of an `i64`.
pub fn parse_i64(s: &str) -> (r: Option<i64>)
    ensures
        match r {
            Some(v) => i64_parse_spec(s@) == Some(v as int),
            None => i64_parse_spec(s@) is None,
        },
{
    let len = s.unicode_len();
    if len == 0 {
        return None;
    }
    let c0 = s.get_char(0);
    let neg = c0 == '-';
    let has_sign = neg || c0 == '+';
    let start: usize = if has_sign {
        1
    } else {
        0
    };
    let ghost ds = signed_digits(s@);
    proof {
        if has_sign {
            assert(ds =~= s@.drop_first());
        } else {
            assert(ds =~= s@);
        }
    }
    if start >= len {
        return None;
    }
    let mut acc: u64 = 0;
    let mut over = false;
    let mut i: usize = start;
    while i < len
        invariant
            start <= i <= len,
            len == s@.len(),
            start == if has_sign {
                1int
            } else {
                0int
            },
            ds == signed_digits(s@),
            ds.len() == len - start,
            forall|k: int| start <= k < len ==> ds[k - start] == s@[k],
            all_dec_digits(ds.subrange(0, i - start)),
            !over ==> acc <= 9223372036854775808u64 && acc == digits_val(
                ds.subrange(0, i - start),
            ),
            over ==> digits_val(ds.subrange(0, i - start)) > 9223372036854775808,
        decreases len - i,
    {
        let ghost seen = ds.subrange(0, i - start);
        let c = s.get_char(i);
        let cu = c as u32;
        if cu < 48 || cu > 57 {
            assert(!is_dec_digit(ds[i - start]));
            return None;
        }
        let d = (cu - 48) as u64;
        let ghost seen2 = ds.subrange(0, i + 1 - start);
        proof {
            assert(seen2.drop_last() =~= seen);
            assert(seen2.last() == s@[i as int]);
            assert(digits_val(seen2) == digits_val(seen) * 10 + digit_of(s@[i as int]));
            lemma_digits_val_nonneg(seen);
        }
        if over {
            proof {
                assert(digits_val(seen2) > 9223372036854775808) by (nonlinear_arith)
                    requires
                        digits_val(seen2) == digits_val(seen) * 10 + digit_of(s@[i as int]),
                        digits_val(seen) > 9223372036854775808,
                        digit_of(s@[i as int]) >= 0,
                ;
            }
        } else {
            if acc > (9223372036854775808u64 - d) / 10 {
                over = true;
                proof {
                    assert(digits_val(seen2) > 9223372036854775808) by (nonlinear_arith)
                        requires
                            digits_val(seen2) == digits_val(seen) * 10 + digit_of(
                                s@[i as int],
                            ),
                            digits_val(seen) == acc as int,
                            d == digit_of(s@[i as int]),
                            d < 10,
                            acc > (9223372036854775808u64 - d) / 10,
                    ;
                }
            } else {
                proof {
                    assert(acc * 10 + d <= 9223372036854775808) by (nonlinear_arith)
                        requires
                            d < 10,
                            acc <= (9223372036854775808u64 - d) / 10,
                    ;
                }
                acc = acc * 10 + d;
            }
        }
        i = i + 1;
    }
    proof {
        assert(ds.subrange(0, (len - start) as int) =~= ds);
    }
    if over {
        proof {
            lemma_digits_val_nonneg(ds);
        }
        return None;
    }
    if neg {
        if acc >= 9223372036854775808u64 {
            assert(acc == 9223372036854775808u64);
            Some(i64::MIN)
        } else {
            Some(-(acc as i64))
        }
    } else {
        if acc > 9223372036854775807u64 {
            None
        } else {
            Some(acc as i64)
        }
    }
}

} // verus!
