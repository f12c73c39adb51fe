//! Query matching: whitespace tokenization, per-token scoring, the
//! exact/prefix/substring match tiers, and trigram similarity for the
//! fuzzy fallback tier.

use vstd::prelude::*;
use crate::text::{
    is_space_char, occurs_at, contains_seq, starts_with_seq, space_char, chars_eq,
    contains_chars, starts_with_chars, matches_at,
};

verus! {

/// Length of the leading run of non-blank characters.
pub open spec fn run_len(s: Seq<char>) -> int
    decreases s.len(),
{
    if s.len() == 0 || is_space_char(s[0]) {
        0
    } else {
        1 + run_len(s.skip(1))
    }
}

pub proof fn lemma_run_len_bounds(s: Seq<char>)
    ensures
        0 <= run_len(s) <= s.len(),
        s.len() > 0 && !is_space_char(s[0]) ==> run_len(s) >= 1,
    decreases s.len(),
{
    if s.len() > 0 && !is_space_char(s[0]) {
        lemma_run_len_bounds(s.skip(1));
    }
}

/// The whitespace-separated tokens of a sequence, in order.
pub open spec fn tokens_of(s: Seq<char>) -> Seq<Seq<char>>
    decreases s.len(),
    via tokens_of_dec
{
    if s.len() == 0 {
        Seq::empty()
    } else if is_space_char(s[0]) {
        tokens_of(s.skip(1))
    } else {
        seq![s.take(run_len(s))] + tokens_of(s.skip(run_len(s)))
    }
}

#[via_fn]
proof fn tokens_of_dec(s: Seq<char>) {
    lemma_run_len_bounds(s);
}

/// The leading non-blank run is as long as the scan that found it.
proof fn lemma_run_len_exact(s: Seq<char>, m: int)
    requires
        0 <= m <= s.len(),
        forall|j: int| 0 <= j < m ==> !is_space_char(s[j]),
        m == s.len() || is_space_char(s[m]),
    ensures
        run_len(s) == m,
    decreases s.len(),
{
    if m > 0 {
        assert(!is_space_char(s[0]));
        assert forall|j: int| 0 <= j < m - 1 implies !is_space_char(s.skip(1)[j]) by {
            assert(s.skip(1)[j] == s[j + 1]);
        }
        if m - 1 < s.skip(1).len() {
            assert(s.skip(1)[m - 1] == s[m]);
        }
        lemma_run_len_exact(s.skip(1), m - 1);
    }
}

/// Copy of a slice of a character vector.
pub fn subvec(s: &Vec<char>, from: usize, to: usize) -> (r: Vec<char>)
    requires
        from <= to <= s@.len(),
    ensures
        r@ == s@.subrange(from as int, to as int),
{
    let mut out: Vec<char> = Vec::new();
    let mut i: usize = from;
    while i < to
        invariant
            from <= i <= to <= s@.len(),
            out@ == s@.subrange(from as int, i as int),
        decreases to - i,
    {
        out.push(s[i]);
        proof {
            assert(out@ =~= s@.subrange(from as int, i + 1));
        }
        i = i + 1;
    }
    out
}

/// Splits a character sequence into its whitespace-separated tokens.
pub fn split_tokens(s: &Vec<char>) -> (r: Vec<Vec<char>>)
    ensures
        r.deep_view() == tokens_of(s@),
{
    let n = s.len();
    let mut out: Vec<Vec<char>> = Vec::new();
    let mut i: usize = 0;
    proof {
        assert(s@.skip(0) =~= s@);
    }
    while i < n
        invariant
            i <= n,
            n == s@.len(),
            tokens_of(s@) == out.deep_view() + tokens_of(s@.skip(i as int)),
        decreases n - i,
    {
        if space_char(s[i]) {
            proof {
                assert(s@.skip(i as int)[0] == s@[i as int]);
                assert(s@.skip(i as int).skip(1) =~= s@.skip(i + 1));
            }
            i = i + 1;
        } else {
            let start = i;
            let mut j: usize = i + 1;
            while j < n && !space_char(s[j])
                invariant
                    start < j <= n,
                    n == s@.len(),
                    forall|k: int| start <= k < j ==> !is_space_char(s@[k]),
                decreases n - j,
            {
                j = j + 1;
            }
            let tok = subvec(s, start, j);
            proof {
                let rest = s@.skip(start as int);
                assert forall|k: int| 0 <= k < j - start implies !is_space_char(rest[k]) by {
                    assert(rest[k] == s@[start + k]);
                }
                if j - start < rest.len() {
                    assert(rest[j - start] == s@[j as int]);
                }
                lemma_run_len_exact(rest, j - start);
                assert(rest.take(j - start) =~= s@.subrange(start as int, j as int));
                assert(rest.skip(j - start) =~= s@.skip(j as int));
                assert(tokens_of(rest) == seq![tok@] + tokens_of(s@.skip(j as int)));
            }
            let ghost old_v = out@;
            let ghost old_dv = out.deep_view();
            out.push(tok);
            proof {
                assert(out@ == old_v.push(tok));
                assert forall|k: int| 0 <= k < out@.len() implies out.deep_view()[k]
                    == old_dv.push(tok@)[k] by {
                    if k < old_v.len() {
                        assert(out@[k] == old_v[k]);
                    } else {
                        assert(out@[k] == tok);
                    }
                }
                assert(out.deep_view() =~= old_dv.push(tok@));
                assert(old_dv.push(tok@) =~= old_dv + seq![tok@]);
                assert(tokens_of(s@) == out.deep_view() + tokens_of(s@.skip(j as int)));
            }
            i = j;
        }
    }
    proof {
        assert(s@.skip(n as int).len() == 0);
        assert(out.deep_view() =~= tokens_of(s@));
    }
    out
}

/// There are never more tokens than characters.
pub proof fn lemma_tokens_count(s: Seq<char>)
    ensures
        tokens_of(s).len() <= s.len(),
    decreases s.len(),
{
    if s.len() == 0 {
    } else if is_space_char(s[0]) {
        lemma_tokens_count(s.skip(1));
    } else {
        lemma_run_len_bounds(s);
        lemma_tokens_count(s.skip(run_len(s)));
    }
}

/// A sequence with a non-blank character has at least one token.
pub proof fn lemma_tokens_nonempty(s: Seq<char>)
    requires
        !crate::text::all_space(s),
    ensures
        tokens_of(s).len() >= 1,
    decreases s.len(),
{
    let w = choose|i: int| 0 <= i < s.len() && !is_space_char(s[i]);
    if is_space_char(s[0]) {
        assert(!is_space_char(s.skip(1)[w - 1]));
        assert(!crate::text::all_space(s.skip(1)));
        lemma_tokens_nonempty(s.skip(1));
    }
}

/// Every token of a sequence occurs somewhere in it.
pub proof fn lemma_tokens_occur(s: Seq<char>, k: int)
    requires
        0 <= k < tokens_of(s).len(),
    ensures
        contains_seq(s, tokens_of(s)[k]),
    decreases s.len(),
{
    if s.len() == 0 {
    } else if is_space_char(s[0]) {
        lemma_tokens_occur(s.skip(1), k);
        let t = tokens_of(s)[k];
        let i = choose|i: int| occurs_at(s.skip(1), t, i);
        assert(occurs_at(s, t, i + 1)) by {
            assert(forall|j: int| 0 <= j < t.len() ==> s[i + 1 + j] == #[trigger] s.skip(1)[i + j]);
        }
    } else {
        lemma_run_len_bounds(s);
        let rl = run_len(s);
        if k == 0 {
            assert(occurs_at(s, s.take(rl), 0)) by {
                assert(forall|j: int| 0 <= j < rl ==> #[trigger] s.take(rl)[j] == s[j]);
            }
        } else {
            lemma_tokens_occur(s.skip(rl), k - 1);
            let t = tokens_of(s)[k];
            assert(t == tokens_of(s.skip(rl))[k - 1]);
            let i = choose|i: int| occurs_at(s.skip(rl), t, i);
            assert(occurs_at(s, t, i + rl)) by {
                assert(forall|j: int| 0 <= j < t.len() ==> s[i + rl + j] == #[trigger] s.skip(rl)[i + j]);
            }
        }
    }
}

/// A substring of a substring occurs in the whole.
pub proof fn lemma_occurs_trans(hay: Seq<char>, mid: Seq<char>, t: Seq<char>)
    requires
        contains_seq(hay, mid),
        contains_seq(mid, t),
    ensures
        contains_seq(hay, t),
{
    let d = choose|d: int| occurs_at(hay, mid, d);
    let i = choose|i: int| occurs_at(mid, t, i);
    assert(occurs_at(hay, t, d + i)) by {
        assert(forall|j: int| 0 <= j < t.len() ==> hay[d + i + j] == #[trigger] mid[i + j]);
    }
}

/// When the whole query occurs in a name, every query token does, and
/// each earns at least its containment points.
pub proof fn lemma_contained_token_sum(sn: Seq<char>, filter: Seq<char>, toks: Seq<Seq<char>>)
    requires
        contains_seq(sn, filter),
        toks.len() <= tokens_of(filter).len(),
        forall|k: int| 0 <= k < toks.len() ==> toks[k] == tokens_of(filter)[k],
    ensures
        token_sum(sn, toks) >= 10 * toks.len(),
    decreases toks.len(),
{
    if toks.len() > 0 {
        lemma_contained_token_sum(sn, filter, toks.drop_last());
        let t = toks.last();
        lemma_tokens_occur(filter, toks.len() - 1);
        lemma_occurs_trans(sn, filter, t);
        assert(token_points(sn, t) >= 10);
    }
}

/// The token occurs at a word boundary: at the start, or right after a blank.
pub open spec fn word_start_at(sn: Seq<char>, t: Seq<char>, i: int) -> bool {
    occurs_at(sn, t, i) && (i == 0 || is_space_char(sn[i - 1]))
}

/// Some word of the name starts with the token.
pub open spec fn word_start_match(sn: Seq<char>, t: Seq<char>) -> bool {
    exists|i: int| word_start_at(sn, t, i)
}

/// Points one query token earns against a searchname: 10 for being
/// contained at all, 5 more when the whole name starts with it, else 3
/// more when some word of the name starts with it.
pub open spec fn token_points(sn: Seq<char>, t: Seq<char>) -> int {
    if contains_seq(sn, t) {
        if starts_with_seq(sn, t) {
            15
        } else if word_start_match(sn, t) {
            13
        } else {
            10
        }
    } else {
        0
    }
}

/// Total points of all query tokens against a searchname.
pub open spec fn token_sum(sn: Seq<char>, toks: Seq<Seq<char>>) -> int
    decreases toks.len(),
{
    if toks.len() == 0 {
        0
    } else {
        token_sum(sn, toks.drop_last()) + token_points(sn, toks.last())
    }
}

pub proof fn lemma_token_sum_bounds(sn: Seq<char>, toks: Seq<Seq<char>>)
    ensures
        0 <= token_sum(sn, toks) <= 15 * toks.len(),
    decreases toks.len(),
{
    if toks.len() > 0 {
        lemma_token_sum_bounds(sn, toks.drop_last());
    }
}

/// Decides `word_start_match`.
pub fn word_start_match_chars(sn: &Vec<char>, t: &Vec<char>) -> (r: bool)
    ensures
        r == word_start_match(sn@, t@),
{
    if t.len() == 0 {
        proof {
            assert(occurs_at(sn@, t@, 0));
            assert(word_start_at(sn@, t@, 0));
        }
        return true;
    }
    if t.len() > sn.len() {
        return false;
    }
    let sn_len = sn.len();
    let last = sn_len - t.len();
    let mut i: usize = 0;
    while i <= last
        invariant
            i <= last + 1,
            1 <= t@.len(),
            sn@.len() == sn_len,
            last == sn@.len() - t@.len(),
            t@.len() <= sn@.len(),
            forall|k: int| 0 <= k < i ==> !word_start_at(sn@, t@, k),
        decreases last + 1 - i,
    {
        if i == 0 || space_char(sn[i - 1]) {
            if matches_at(sn, t, i) {
                proof {
                    assert(word_start_at(sn@, t@, i as int));
                }
                return true;
            }
        }
        proof {
            assert(!word_start_at(sn@, t@, i as int));
        }
        i = i + 1;
    }
    false
}

/// Computes the points of one token, mirroring `token_points`.
pub fn token_points_chars(sn: &Vec<char>, t: &Vec<char>) -> (r: u64)
    ensures
        r as int == token_points(sn@, t@),
{
    if contains_chars(sn, t) {
        if starts_with_chars(sn, t) {
            15
        } else if word_start_match_chars(sn, t) {
            13
        } else {
            10
        }
    } else {
        0
    }
}

/// Computes the total token points, mirroring `token_sum`. The bound on
/// the token count keeps the running total inside a machine word; a
/// query is typed, so it stays far below it.
pub fn token_sum_chars(sn: &Vec<char>, toks: &Vec<Vec<char>>) -> (r: u64)
    requires
        toks@.len() <= 0x1000_0000,
    ensures
        r as int == token_sum(sn@, toks.deep_view()),
        r <= 15 * toks@.len(),
{
    let mut total: u64 = 0;
    let mut i: usize = 0;
    proof {
        lemma_token_sum_bounds(sn@, toks.deep_view());
    }
    while i < toks.len()
        invariant
            i <= toks@.len(),
            toks@.len() <= 0x1000_0000,
            total as int == token_sum(sn@, toks.deep_view().take(i as int)),
            total <= 15 * i,
        decreases toks@.len() - i,
    {
        proof {
            lemma_token_sum_bounds(sn@, toks.deep_view().take(i as int));
            assert(toks.deep_view().take(i + 1).drop_last() =~= toks.deep_view().take(i as int));
            assert(toks.deep_view().take(i + 1).last() == toks.deep_view()[i as int]);
            assert(toks.deep_view()[i as int] == toks@[i as int]@);
        }
        let p = token_points_chars(sn, &toks[i]);
        total = total + p;
        i = i + 1;
    }
    proof {
        assert(toks.deep_view().take(toks@.len() as int) =~= toks.deep_view());
    }
    total
}

/// The match tier of a searchname against a (lowercased) query: 100 for
/// an exact match, 50 for a prefix, 10 for a substring, 1 otherwise.
pub open spec fn match_quality(sn: Seq<char>, filter: Seq<char>) -> int {
    if sn == filter {
        100
    } else if starts_with_seq(sn, filter) {
        50
    } else if contains_seq(sn, filter) {
        10
    } else {
        1
    }
}

/// Computes the match tier, mirroring `match_quality`.
pub fn match_quality_chars(sn: &Vec<char>, filter: &Vec<char>) -> (r: u64)
    ensures
        r as int == match_quality(sn@, filter@),
{
    if chars_eq(sn, filter) {
        100
    } else if starts_with_chars(sn, filter) {
        50
    } else if contains_chars(sn, filter) {
        10
    } else {
        1
    }
}

/// The 3-character windows of a sequence; a sequence shorter than 3
/// characters is its own single trigram.
pub open spec fn trigrams_of(s: Seq<char>) -> Seq<Seq<char>> {
    if s.len() < 3 {
        seq![s]
    } else {
        Seq::new((s.len() - 2) as nat, |i: int| s.subrange(i, i + 3))
    }
}

/// Produces the trigrams, mirroring `trigrams_of`.
pub fn generate_trigrams(s: &Vec<char>) -> (r: Vec<Vec<char>>)
    ensures
        r.deep_view() == trigrams_of(s@),
        r@.len() >= 1,
{
    let n = s.len();
    let mut out: Vec<Vec<char>> = Vec::new();
    if n < 3 {
        let whole = subvec(s, 0, n);
        out.push(whole);
        proof {
            assert(out.deep_view().len() == 1);
            assert(out.deep_view()[0] == out@[0]@);
            assert(out@[0]@ =~= s@);
            assert(out.deep_view() =~= trigrams_of(s@));
        }
        return out;
    }
    let mut i: usize = 0;
    while i <= n - 3
        invariant
            3 <= n == s@.len(),
            i <= n - 2,
            out@.len() == i,
            forall|k: int| 0 <= k < i ==> out@[k]@ == s@.subrange(k, k + 3),
        decreases n - i,
    {
        let ghost old_v = out@;
        let tri = subvec(s, i, i + 3);
        out.push(tri);
        proof {
            assert(forall|k: int| 0 <= k < old_v.len() ==> out@[k] == old_v[k]);
            assert(out@[i as int] == tri);
        }
        i = i + 1;
    }
    proof {
        assert forall|k: int| 0 <= k < out.deep_view().len() implies out.deep_view()[k]
            == trigrams_of(s@)[k] by {
            assert(out.deep_view()[k] == out@[k]@);
        }
        assert(out.deep_view() =~= trigrams_of(s@));
    }
    out
}

/// Membership of a sequence among a list of sequences.
pub open spec fn seq_mem(xs: Seq<Seq<char>>, x: Seq<char>) -> bool {
    exists|i: int| 0 <= i < xs.len() && xs[i] == x
}

/// Decides `seq_mem`.
pub fn contains_vec(xs: &Vec<Vec<char>>, x: &Vec<char>) -> (r: bool)
    ensures
        r == seq_mem(xs.deep_view(), x@),
{
    let mut i: usize = 0;
    while i < xs.len()
        invariant
            i <= xs@.len(),
            forall|k: int| 0 <= k < i ==> xs.deep_view()[k] != x@,
        decreases xs@.len() - i,
    {
        proof {
            assert(xs.deep_view()[i as int] == xs@[i as int]@);
        }
        if chars_eq(&xs[i], x) {
            return true;
        }
        i = i + 1;
    }
    false
}

/// Keeps the first occurrence of each distinct sequence.
pub open spec fn dedup_seqs(xs: Seq<Seq<char>>) -> Seq<Seq<char>>
    decreases xs.len(),
{
    if xs.len() == 0 {
        Seq::empty()
    } else {
        let rest = dedup_seqs(xs.drop_last());
        if seq_mem(xs.drop_last(), xs.last()) {
            rest
        } else {
            rest.push(xs.last())
        }
    }
}

/// Deduplication keeps membership intact.
pub proof fn lemma_dedup_mem(xs: Seq<Seq<char>>, x: Seq<char>)
    ensures
        seq_mem(dedup_seqs(xs), x) == seq_mem(xs, x),
    decreases xs.len(),
{
    if xs.len() > 0 {
        lemma_dedup_mem(xs.drop_last(), x);
        let rest = dedup_seqs(xs.drop_last());
        if seq_mem(xs, x) {
            let i = choose|i: int| 0 <= i < xs.len() && xs[i] == x;
            if i < xs.len() - 1 {
                assert(xs.drop_last()[i] == x);
                assert(seq_mem(xs.drop_last(), x));
                let j = choose|j: int| 0 <= j < rest.len() && rest[j] == x;
                assert(dedup_seqs(xs)[j] == x);
            } else {
                assert(x == xs.last());
                if seq_mem(xs.drop_last(), xs.last()) {
                    assert(seq_mem(xs.drop_last(), x));
                    let j = choose|j: int| 0 <= j < rest.len() && rest[j] == x;
                    assert(dedup_seqs(xs)[j] == x);
                } else {
                    assert(dedup_seqs(xs)[rest.len() as int] == x);
                }
            }
            assert(seq_mem(dedup_seqs(xs), x));
        }
        if seq_mem(dedup_seqs(xs), x) {
            let i = choose|i: int| 0 <= i < dedup_seqs(xs).len() && dedup_seqs(xs)[i] == x;
            if seq_mem(xs.drop_last(), xs.last()) {
                assert(rest[i] == x);
                assert(seq_mem(xs.drop_last(), x));
                let j = choose|j: int| 0 <= j < xs.drop_last().len() && xs.drop_last()[j] == x;
                assert(xs[j] == x);
            } else {
                if i < rest.len() {
                    assert(rest[i] == x);
                    assert(seq_mem(xs.drop_last(), x));
                    let j = choose|j: int|
                        0 <= j < xs.drop_last().len() && xs.drop_last()[j] == x;
                    assert(xs[j] == x);
                } else {
                    assert(x == xs.last());
                    assert(xs[xs.len() - 1] == x);
                }
            }
            assert(seq_mem(xs, x));
        }
    }
}

pub proof fn lemma_dedup_len(xs: Seq<Seq<char>>)
    ensures
        dedup_seqs(xs).len() <= xs.len(),
        xs.len() > 0 ==> dedup_seqs(xs).len() >= 1,
    decreases xs.len(),
{
    if xs.len() > 0 {
        lemma_dedup_len(xs.drop_last());
        if xs.len() == 1 {
            assert(!seq_mem(xs.drop_last(), xs.last()));
        }
    }
}

/// Deduplicates a list of character sequences, keeping first occurrences.
pub fn dedup_vecs(xs: &Vec<Vec<char>>) -> (r: Vec<Vec<char>>)
    ensures
        r.deep_view() == dedup_seqs(xs.deep_view()),
{
    let mut out: Vec<Vec<char>> = Vec::new();
    let mut i: usize = 0;
    while i < xs.len()
        invariant
            i <= xs@.len(),
            out.deep_view() == dedup_seqs(xs.deep_view().take(i as int)),
        decreases xs@.len() - i,
    {
        proof {
            assert(xs.deep_view().take(i + 1).drop_last() =~= xs.deep_view().take(i as int));
            assert(xs.deep_view().take(i + 1).last() == xs.deep_view()[i as int]);
            assert(xs.deep_view()[i as int] == xs@[i as int]@);
            lemma_dedup_mem(xs.deep_view().take(i as int), xs.deep_view()[i as int]);
        }
        let seen = contains_vec(&out, &xs[i]);
        if !seen {
            let ghost old_v = out@;
            let ghost old_dv = out.deep_view();
            let item = subvec(&xs[i], 0, xs[i].len());
            proof {
                assert(item@ =~= xs@[i as int]@);
            }
            out.push(item);
            proof {
                assert forall|k: int| 0 <= k < out@.len() implies out.deep_view()[k]
                    == old_dv.push(item@)[k] by {
                    if k < old_v.len() {
                        assert(out@[k] == old_v[k]);
                    } else {
                        assert(out@[k] == item);
                    }
                }
                assert(out.deep_view() =~= old_dv.push(item@));
            }
        }
        i = i + 1;
    }
    proof {
        assert(xs.deep_view().take(xs@.len() as int) =~= xs.deep_view());
    }
    out
}

/// No two entries of the sequence are equal.
pub open spec fn distinct_seqs(xs: Seq<Seq<char>>) -> bool {
    forall|i: int, j: int| 0 <= i < j < xs.len() ==> xs[i] != xs[j]
}

/// Deduplication leaves no duplicates behind.
pub proof fn lemma_dedup_distinct(xs: Seq<Seq<char>>)
    ensures
        distinct_seqs(dedup_seqs(xs)),
    decreases xs.len(),
{
    if xs.len() > 0 {
        lemma_dedup_distinct(xs.drop_last());
        let rest = dedup_seqs(xs.drop_last());
        if !seq_mem(xs.drop_last(), xs.last()) {
            lemma_dedup_mem(xs.drop_last(), xs.last());
            assert forall|i: int, j: int|
                0 <= i < j < dedup_seqs(xs).len() implies dedup_seqs(xs)[i] != dedup_seqs(
                xs,
            )[j] by {
                if j == rest.len() {
                    if rest[i] == xs.last() {
                        assert(seq_mem(rest, xs.last()));
                    }
                }
            }
        }
    }
}

/// How many sequences of `d1` also stand in `d2`.
pub open spec fn match_count(d1: Seq<Seq<char>>, d2: Seq<Seq<char>>) -> int
    decreases d1.len(),
{
    if d1.len() == 0 {
        0
    } else {
        match_count(d1.drop_last(), d2) + if seq_mem(d2, d1.last()) {
            1int
        } else {
            0int
        }
    }
}

pub proof fn lemma_match_count_bounds(d1: Seq<Seq<char>>, d2: Seq<Seq<char>>)
    ensures
        0 <= match_count(d1, d2) <= d1.len(),
    decreases d1.len(),
{
    if d1.len() > 0 {
        lemma_match_count_bounds(d1.drop_last(), d2);
    }
}

/// The match count only looks at membership in the target.
proof fn lemma_match_count_mem(d1: Seq<Seq<char>>, d2a: Seq<Seq<char>>, d2b: Seq<Seq<char>>)
    requires
        forall|k: int| 0 <= k < d1.len() ==> seq_mem(d2a, #[trigger] d1[k]) == seq_mem(d2b, d1[k]),
    ensures
        match_count(d1, d2a) == match_count(d1, d2b),
    decreases d1.len(),
{
    if d1.len() > 0 {
        assert(forall|k: int| 0 <= k < d1.len() - 1 ==> d1.drop_last()[k] == #[trigger] d1[k]);
        lemma_match_count_mem(d1.drop_last(), d2a, d2b);
        assert(d1.last() == d1[d1.len() - 1]);
    }
}

/// Distinct sequences cannot match more entries than the target holds.
pub proof fn lemma_match_count_le_target(d1: Seq<Seq<char>>, d2: Seq<Seq<char>>)
    requires
        distinct_seqs(d1),
        distinct_seqs(d2),
    ensures
        match_count(d1, d2) <= d2.len(),
    decreases d1.len(),
{
    if d1.len() > 0 {
        let t = d1.last();
        assert(forall|i: int, j: int|
            0 <= i < j < d1.len() - 1 ==> #[trigger] d1.drop_last()[i] != #[trigger] d1.drop_last()[j]);
        if seq_mem(d2, t) {
            let j = choose|j: int| 0 <= j < d2.len() && d2[j] == t;
            let d2r = d2.remove(j);
            assert forall|a: int, b: int| 0 <= a < b < d2r.len() implies d2r[a] != d2r[b] by {
                assert(d2r[a] == if a < j {
                    d2[a]
                } else {
                    d2[a + 1]
                });
                assert(d2r[b] == if b < j {
                    d2[b]
                } else {
                    d2[b + 1]
                });
            }
            assert forall|k: int|
                0 <= k < d1.drop_last().len() implies seq_mem(d2, #[trigger] d1.drop_last()[k])
                == seq_mem(d2r, d1.drop_last()[k]) by {
                let x = d1.drop_last()[k];
                assert(x == d1[k]);
                assert(x != t);
                if seq_mem(d2, x) {
                    let l = choose|l: int| 0 <= l < d2.len() && d2[l] == x;
                    assert(l != j);
                    if l < j {
                        assert(d2r[l] == x);
                    } else {
                        assert(d2r[l - 1] == x);
                    }
                }
                if seq_mem(d2r, x) {
                    let l = choose|l: int| 0 <= l < d2r.len() && d2r[l] == x;
                    if l < j {
                        assert(d2[l] == x);
                    } else {
                        assert(d2[l + 1] == x);
                    }
                }
            }
            lemma_match_count_mem(d1.drop_last(), d2, d2r);
            lemma_match_count_le_target(d1.drop_last(), d2r);
        } else {
            lemma_match_count_le_target(d1.drop_last(), d2);
        }
    }
}

/// Counts the matches, mirroring `match_count`.
pub fn count_matches(d1: &Vec<Vec<char>>, d2: &Vec<Vec<char>>) -> (r: usize)
    ensures
        r as int == match_count(d1.deep_view(), d2.deep_view()),
        r <= d1@.len(),
{
    let mut total: usize = 0;
    let mut i: usize = 0;
    while i < d1.len()
        invariant
            i <= d1@.len(),
            total as int == match_count(d1.deep_view().take(i as int), d2.deep_view()),
            total <= i,
        decreases d1@.len() - i,
    {
        proof {
            assert(d1.deep_view().take(i + 1).drop_last() =~= d1.deep_view().take(i as int));
            assert(d1.deep_view().take(i + 1).last() == d1.deep_view()[i as int]);
            assert(d1.deep_view()[i as int] == d1@[i as int]@);
        }
        if contains_vec(d2, &d1[i]) {
            total = total + 1;
        }
        i = i + 1;
    }
    proof {
        assert(d1.deep_view().take(d1@.len() as int) =~= d1.deep_view());
    }
    total
}

/// The deduplicated trigram lists of a query and of a searchname, with
/// the size of their intersection and of their union.
pub open spec fn trigram_stats(q: Seq<char>, sn: Seq<char>) -> (int, int) {
    let d1 = dedup_seqs(trigrams_of(q));
    let d2 = dedup_seqs(trigrams_of(sn));
    let m = match_count(d1, d2);
    (m, d1.len() + d2.len() - m)
}

/// Computes the trigram intersection and union sizes of a query against
/// a searchname, mirroring `trigram_stats`. The union is never empty.
pub fn trigram_stats_chars(q_trigrams: &Vec<Vec<char>>, sn: &Vec<char>) -> (r: (usize, usize))
    requires
        q_trigrams@.len() >= 1,
        q_trigrams@.len() <= 0x1000_0000,
        sn@.len() <= 0x1000_0000,
    ensures
        ({
            let d1 = dedup_seqs(q_trigrams.deep_view());
            let d2 = dedup_seqs(trigrams_of(sn@));
            r.0 as int == match_count(d1, d2)
                && r.1 as int == d1.len() + d2.len() - match_count(d1, d2)
                && r.1 >= 1
                && r.0 <= r.1
                && r.1 <= 0x2000_0000
        }),
{
    let d1 = dedup_vecs(q_trigrams);
    let tris = generate_trigrams(sn);
    let d2 = dedup_vecs(&tris);
    proof {
        lemma_dedup_len(q_trigrams.deep_view());
        lemma_dedup_len(tris.deep_view());
        lemma_dedup_distinct(q_trigrams.deep_view());
        lemma_dedup_distinct(tris.deep_view());
        lemma_match_count_bounds(d1.deep_view(), d2.deep_view());
        lemma_match_count_le_target(d1.deep_view(), d2.deep_view());
        assert(q_trigrams.deep_view().len() == q_trigrams@.len());
        assert(tris.deep_view().len() == tris@.len());
    }
    let m = count_matches(&d1, &d2);
    (m, d1.len() + d2.len() - m)
}

} // verus!
