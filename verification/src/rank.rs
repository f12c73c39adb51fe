//! The ranking engine over the store: candidates are matched against
//! the query in the direct tier (exact / prefix / substring), a trigram
//! fuzzy tier fills in when the direct tier is thin, and results are
//! ordered by relevance with the candidate name as the deterministic
//! tie-break.

use vstd::prelude::*;
use vstd::multiset::Multiset;
use vstd::arithmetic::div_mod::{lemma_div_is_ordered, lemma_div_multiples_vanish};
use vstd::arithmetic::mul::{
    lemma_mul_upper_bound, lemma_mul_nonnegative, lemma_mul_inequality, lemma_mul_is_associative,
    lemma_mul_is_commutative,
};
use crate::text::{
    contains_seq, starts_with_seq, occurs_at, lower_seq, lex_le, dec_str, chars_of,
    lowercase_chars, contains_chars, lex_le_chars, u64_to_string, all_space, all_space_chars,
    lemma_lex_le_total, lemma_lex_le_trans, searchname_seq,
};
use crate::matching::{
    tokens_of, token_sum, match_quality, trigram_stats, trigrams_of, split_tokens,
    token_sum_chars, match_quality_chars, generate_trigrams, trigram_stats_chars,
    lemma_tokens_count, lemma_token_sum_bounds,
};
use crate::score::{
    popularity_score, base_score_at, hour_count_at, hour_of_minutes, popularity, hour_of,
    base_and_hour_stats, lemma_base_score_bounds,
};
use crate::store::{
    ActionStore, StoreView, ActionKind, has_program_row, has_desktop_row, EXEC_CAP,
};

verus! {

broadcast use vstd::seq_lib::group_to_multiset_ensures;

/// What a ranked candidate executes: a desktop application's command
/// line, or a program binary's path.
#[derive(Clone, Debug)]
pub enum ExecutableType {
    Application(String),
    Binary(String),
}

/// A ranked candidate handed to the presentation layer.
#[derive(Clone, Debug)]
pub struct ExecutableHandler {
    pub id: u64,
    pub name: String,
    pub executable_type: ExecutableType,
    pub relevance: u64,
}

#[verifier::ext_equal]
pub struct RankedItemView {
    pub id: int,
    pub name: Seq<char>,
    pub desktop: bool,
    pub payload: Seq<char>,
    pub relevance: int,
}

impl View for ExecutableHandler {
    type V = RankedItemView;

    open spec fn view(&self) -> RankedItemView {
        match self.executable_type {
            ExecutableType::Application(ref c) => RankedItemView {
                id: self.id as int,
                name: self.name@,
                desktop: true,
                payload: c@,
                relevance: self.relevance as int,
            },
            ExecutableType::Binary(ref p) => RankedItemView {
                id: self.id as int,
                name: self.name@,
                desktop: false,
                payload: p@,
                relevance: self.relevance as int,
            },
        }
    }
}

/// The view of a candidate list.
pub open spec fn items_view(s: Seq<ExecutableHandler>) -> Seq<RankedItemView> {
    s.map_values(|h: ExecutableHandler| h@)
}

/// The ledger keys a discovered action by its id in decimal.
pub open spec fn ledger_key(id: int) -> Seq<char> {
    dec_str(id)
}

/// The popularity of one stored action at query time: decayed base,
/// hour-of-day bonus, and the desktop kind multiplier.
pub open spec fn action_base(v: StoreView, idx: int, now: int) -> int {
    popularity_score(
        base_score_at(v.executions, ledger_key(v.actions[idx].id), now),
        hour_count_at(v.executions, ledger_key(v.actions[idx].id), hour_of_minutes(now)),
        v.actions[idx].kind == ActionKind::Desktop,
    )
}

/// The raw decayed base of one stored action, with no bonus: what the
/// empty query ranks by.
pub open spec fn action_raw_base(v: StoreView, idx: int, now: int) -> int {
    base_score_at(v.executions, ledger_key(v.actions[idx].id), now)
}

/// The direct tier considers a candidate whose searchname or lowercased
/// name contains the query.
pub open spec fn direct_matches(v: StoreView, idx: int, filter: Seq<char>) -> bool {
    contains_seq(v.actions[idx].searchname, filter) || contains_seq(
        lower_seq(v.actions[idx].name),
        filter,
    )
}

/// Relevance from a base score, a match tier and the token points: the
/// base times the tier, scaled up by the average token score.
pub open spec fn rel_with_tokens(base: int, mq: int, k: int, tok: int) -> int {
    if k == 0 {
        base * mq
    } else {
        base * mq * (10 * k + tok) / (10 * k)
    }
}

/// The relevance of a direct-tier candidate.
pub open spec fn direct_relevance(v: StoreView, idx: int, filter: Seq<char>, now: int) -> int {
    rel_with_tokens(
        action_base(v, idx, now),
        match_quality(v.actions[idx].searchname, filter),
        tokens_of(filter).len() as int,
        token_sum(v.actions[idx].searchname, tokens_of(filter)),
    )
}

/// Relevance of a fuzzy-tier candidate: the base, scaled up by the
/// token score and thirty times the trigram similarity `m / u`.
pub open spec fn fuzzy_formula(base: int, k: int, tok: int, m: int, u: int) -> int {
    if k <= 0 || u <= 0 {
        0
    } else {
        base * (10 * k * u + tok * u + 300 * k * m) / (10 * k * u)
    }
}

/// The relevance of a fuzzy-tier candidate.
pub open spec fn fuzzy_relevance(v: StoreView, idx: int, filter: Seq<char>, now: int) -> int {
    let sn = v.actions[idx].searchname;
    fuzzy_formula(
        action_base(v, idx, now),
        tokens_of(filter).len() as int,
        token_sum(sn, tokens_of(filter)),
        trigram_stats(filter, sn).0,
        trigram_stats(filter, sn).1,
    )
}

/// The fuzzy tier keeps a candidate whose trigram similarity to the
/// query is above one tenth.
pub open spec fn fuzzy_passes(filter: Seq<char>, sn: Seq<char>) -> bool {
    10 * trigram_stats(filter, sn).0 > trigram_stats(filter, sn).1
}

/// The payload path of the program row with this action id.
pub open spec fn program_path_of(v: StoreView, id: int) -> Seq<char> {
    v.programs[choose|i: int| 0 <= i < v.programs.len() && v.programs[i].id == id].path
}

/// The payload command of the desktop row with this action id.
pub open spec fn desktop_exec_of(v: StoreView, id: int) -> Seq<char> {
    v.desktops[choose|i: int| 0 <= i < v.desktops.len() && v.desktops[i].id == id].exec_cmd
}

/// The candidate stands for the stored action at `idx`, payload row
/// included.
pub open spec fn item_from_action(v: StoreView, it: RankedItemView, idx: int) -> bool {
    &&& 0 <= idx < v.actions.len()
    &&& it.id == idx + 1
    &&& it.name == v.actions[idx].name
    &&& if v.actions[idx].kind == ActionKind::Desktop {
        it.desktop && has_desktop_row(v.desktops, it.id) && it.payload == desktop_exec_of(
            v,
            it.id,
        )
    } else {
        !it.desktop && has_program_row(v.programs, it.id) && it.payload == program_path_of(
            v,
            it.id,
        )
    }
}

/// Ranking order: higher relevance first, names ascending on ties.
pub open spec fn rank_leq(a: RankedItemView, b: RankedItemView) -> bool {
    a.relevance > b.relevance || (a.relevance == b.relevance && lex_le(a.name, b.name))
}

/// The candidate list is ordered by rank.
pub open spec fn sorted_ranked(s: Seq<RankedItemView>) -> bool {
    forall|i: int, j: int| 0 <= i < j < s.len() ==> rank_leq(#[trigger] s[i], #[trigger] s[j])
}

pub proof fn lemma_rank_leq_total(a: RankedItemView, b: RankedItemView)
    ensures
        rank_leq(a, b) || rank_leq(b, a),
{
    if a.relevance == b.relevance {
        lemma_lex_le_total(a.name, b.name);
    }
}

pub proof fn lemma_rank_leq_trans(a: RankedItemView, b: RankedItemView, c: RankedItemView)
    requires
        rank_leq(a, b),
        rank_leq(b, c),
    ensures
        rank_leq(a, c),
{
    if a.relevance == b.relevance && b.relevance == c.relevance {
        lemma_lex_le_trans(a.name, b.name, c.name);
    }
}

/// Decides the ranking order.
pub fn rank_before(a: &ExecutableHandler, b: &ExecutableHandler) -> (r: bool)
    ensures
        r == rank_leq(a@, b@),
{
    if a.relevance > b.relevance {
        true
    } else if a.relevance < b.relevance {
        false
    } else {
        let an = chars_of(a.name.as_str());
        let bn = chars_of(b.name.as_str());
        lex_le_chars(&an, &bn)
    }
}

/// Sorts candidates by rank: a permutation of the input, ordered by
/// relevance descending with names ascending on ties.
pub fn sort_by_rank(input: Vec<ExecutableHandler>) -> (r: Vec<ExecutableHandler>)
    ensures
        sorted_ranked(items_view(r@)),
        r@.to_multiset() == input@.to_multiset(),
        r@.len() == input@.len(),
        distinct_ids(items_view(input@)) ==> distinct_ids(items_view(r@)),
{
    let ghost orig = input@;
    let ghost dids = distinct_ids(items_view(orig));
    let mut src = input;
    let mut out: Vec<ExecutableHandler> = Vec::new();
    proof {
        assert(out@.to_multiset().add(src@.to_multiset()) =~= orig.to_multiset());
    }
    while src.len() > 0
        invariant
            out@.to_multiset().add(src@.to_multiset()) == orig.to_multiset(),
            out@.len() + src@.len() == orig.len(),
            sorted_ranked(items_view(out@)),
            forall|k: int, l: int|
                0 <= k < out@.len() && 0 <= l < src@.len() ==> rank_leq(
                    #[trigger] out@[k]@,
                    #[trigger] src@[l]@,
                ),
            dids == distinct_ids(items_view(orig)),
            dids ==> distinct_ids(items_view(out@)),
            dids ==> distinct_ids(items_view(src@)),
            dids ==> forall|k: int, l: int|
                0 <= k < out@.len() && 0 <= l < src@.len() ==> (#[trigger] out@[k])@.id != (
                #[trigger] src@[l])@.id,
        decreases src@.len(),
    {
        let mut bi: usize = 0;
        let mut j: usize = 1;
        proof {
            lemma_rank_leq_total(src@[0]@, src@[0]@);
        }
        while j < src.len()
            invariant
                bi < j <= src@.len(),
                forall|l: int| 0 <= l < j ==> rank_leq(#[trigger] src@[bi as int]@, src@[l]@),
            decreases src@.len() - j,
        {
            if rank_before(&src[j], &src[bi]) {
                proof {
                    lemma_rank_leq_total(src@[j as int]@, src@[j as int]@);
                    assert forall|l: int| 0 <= l < j + 1 implies rank_leq(
                        #[trigger] src@[j as int]@,
                        src@[l]@,
                    ) by {
                        if l < j {
                            lemma_rank_leq_trans(src@[j as int]@, src@[bi as int]@, src@[l]@);
                        }
                    }
                }
                bi = j;
            } else {
                proof {
                    lemma_rank_leq_total(src@[bi as int]@, src@[j as int]@);
                }
            }
            j = j + 1;
        }
        let ghost old_out = out@;
        let ghost old_src = src@;
        let x = src.remove(bi);
        out.push(x);
        proof {
            assert(old_src[bi as int] == x);
            assert(out@ == old_out.push(x));
            assert(src@ == old_src.remove(bi as int));
            assert(old_out.push(x).to_multiset() =~= old_out.to_multiset().insert(x));
            assert(out@.to_multiset() =~= old_out.to_multiset().insert(x));
            assert(old_src.remove(bi as int).to_multiset() =~= old_src.to_multiset().remove(
                old_src[bi as int],
            ));
            assert(src@.to_multiset() =~= old_src.to_multiset().remove(x));
            assert(old_src.to_multiset().count(x) > 0) by {
                assert(old_src.contains(x));
            }
            assert(out@.to_multiset().add(src@.to_multiset()) =~= old_out.to_multiset().add(
                old_src.to_multiset(),
            ));
            assert(items_view(out@) =~= items_view(old_out).push(x@));
            assert forall|i: int, j2: int|
                0 <= i < j2 < items_view(out@).len() implies rank_leq(
                #[trigger] items_view(out@)[i],
                #[trigger] items_view(out@)[j2],
            ) by {
                if j2 < old_out.len() {
                    assert(items_view(old_out)[i] == items_view(out@)[i]);
                    assert(items_view(old_out)[j2] == items_view(out@)[j2]);
                } else {
                    assert(items_view(out@)[j2] == x@);
                    assert(rank_leq(old_out[i]@, old_src[bi as int]@));
                }
            }
            assert forall|k: int, l: int|
                0 <= k < out@.len() && 0 <= l < src@.len() implies rank_leq(
                #[trigger] out@[k]@,
                #[trigger] src@[l]@,
            ) by {
                let ol = if l < bi {
                    l
                } else {
                    l + 1
                };
                assert(src@[l] == old_src[ol]);
                if k < old_out.len() {
                    assert(rank_leq(old_out[k]@, old_src[ol]@));
                } else {
                    assert(out@[k] == x);
                    assert(rank_leq(old_src[bi as int]@, old_src[ol]@));
                }
            }
            if dids {
                assert forall|k: int, l: int|
                    0 <= k < l < out@.len() implies (#[trigger] out@[k])@.id != (
                    #[trigger] out@[l])@.id by {
                    if l < old_out.len() {
                        assert(out@[k] == old_out[k] && out@[l] == old_out[l]);
                        assert(items_view(old_out)[k].id != items_view(old_out)[l].id);
                    } else {
                        assert(out@[l] == x && out@[k] == old_out[k]);
                        assert(old_out[k]@.id != old_src[bi as int]@.id);
                    }
                }
                assert forall|k: int, l: int|
                    0 <= k < l < src@.len() implies (#[trigger] src@[k])@.id != (
                    #[trigger] src@[l])@.id by {
                    let ok = if k < bi {
                        k
                    } else {
                        k + 1
                    };
                    let ol = if l < bi {
                        l
                    } else {
                        l + 1
                    };
                    assert(src@[k] == old_src[ok] && src@[l] == old_src[ol]);
                    assert(items_view(old_src)[ok].id != items_view(old_src)[ol].id);
                }
                assert forall|k: int, l: int|
                    0 <= k < out@.len() && 0 <= l < src@.len() implies (#[trigger] out@[k])@.id
                    != (#[trigger] src@[l])@.id by {
                    let ol = if l < bi {
                        l
                    } else {
                        l + 1
                    };
                    assert(src@[l] == old_src[ol]);
                    if k < old_out.len() {
                        assert(old_out[k]@.id != old_src[ol]@.id);
                    } else {
                        assert(out@[k] == x);
                        assert(items_view(old_src)[bi as int].id != items_view(old_src)[ol].id);
                    }
                }
            }
        }
    }
    proof {
        assert(src@.to_multiset() =~= Multiset::<ExecutableHandler>::empty());
        assert(out@.to_multiset().add(Multiset::<ExecutableHandler>::empty()) =~= out@
            .to_multiset());
    }
    out
}

/// Computes `rel_with_tokens`; the result stays within three hundred
/// times the base.
pub fn combined_relevance(base: u64, mq: u64, k: u64, tok: u64) -> (r: u64)
    requires
        base <= 700_000_000_000_000,
        1 <= mq <= 100,
        k <= 0x1000_0000,
        tok <= 15 * k,
    ensures
        r as int == rel_with_tokens(base as int, mq as int, k as int, tok as int),
        r as int <= 300 * base,
{
    if k == 0 {
        proof {
            assert(base * mq <= base * 300) by (nonlinear_arith)
                requires
                    mq <= 100 && base >= 0,
            ;
        }
        return base * mq;
    }
    proof {
        let b = base as int;
        let q = mq as int;
        let kk = k as int;
        let t = tok as int;
        let bq = b * q;
        lemma_mul_upper_bound(b, 700_000_000_000_000, q, 100);
        lemma_mul_nonnegative(b, q);
        assert(0 <= bq <= 70_000_000_000_000_000);
        assert(bq * (10 * kk + t) <= bq * (30 * kk)) by (nonlinear_arith)
            requires
                bq >= 0 && t <= 15 * kk && kk >= 1,
        ;
        assert(bq * (30 * kk) == (10 * kk) * (3 * bq)) by (nonlinear_arith);
        lemma_div_is_ordered(bq * (10 * kk + t), (10 * kk) * (3 * bq), 10 * kk);
        lemma_div_multiples_vanish(3 * bq, 10 * kk);
        assert(bq * (10 * kk + t) / (10 * kk) <= 3 * bq);
        assert(3 * bq <= 300 * b) by {
            lemma_mul_inequality(q, 100, b);
            lemma_mul_is_commutative(b, q);
            lemma_mul_is_commutative(100, b);
        }
        assert(bq * (10 * kk + t) >= 0) by {
            lemma_mul_nonnegative(bq, 10 * kk + t);
        }
        assert(bq * (10 * kk + t) / (10 * kk) >= 0) by {
            vstd::arithmetic::div_mod::lemma_div_pos_is_pos(bq * (10 * kk + t), 10 * kk);
        }
        assert(bq * (10 * kk + t) <= 70_000_000_000_000_000 * 6_710_886_400) by {
            lemma_mul_upper_bound(bq, 70_000_000_000_000_000, 10 * kk + t, 6_710_886_400);
        }
    }
    let num: u128 = (base as u128) * (mq as u128) * ((10 * k + tok) as u128);
    let den: u128 = (10 * k) as u128;
    let q = num / den;
    q as u64
}

/// Computes `fuzzy_formula`; the result stays within forty times the
/// base.
pub fn fuzzy_relevance_value(base: u64, k: u64, tok: u64, m: u64, u: u64) -> (r: u64)
    requires
        base <= 700_000_000_000_000,
        1 <= k <= 0x1000_0000,
        tok <= 15 * k,
        1 <= u <= 0x2000_0000,
        m <= u,
    ensures
        r as int == fuzzy_formula(base as int, k as int, tok as int, m as int, u as int),
        r as int <= 40 * base,
{
    proof {
        let b = base as int;
        let kk = k as int;
        let t = tok as int;
        let mm = m as int;
        let uu = u as int;
        let ku = kk * uu;
        let d = 10 * kk * uu;
        let sum = 10 * kk * uu + t * uu + 300 * kk * mm;
        lemma_mul_is_associative(10, kk, uu);
        lemma_mul_upper_bound(kk, 0x1000_0000, uu, 0x2000_0000);
        assert(kk * uu >= 1) by (nonlinear_arith)
            requires
                kk >= 1 && uu >= 1,
        ;
        assert(d == 10 * ku);
        assert(1 <= ku <= 0x200_0000_0000_0000);
        assert(10 <= d <= 0x1400_0000_0000_0000);
        assert(t * uu <= (15 * kk) * uu) by {
            lemma_mul_inequality(t, 15 * kk, uu);
        }
        assert((15 * kk) * uu == 15 * ku) by {
            lemma_mul_is_associative(15, kk, uu);
        }
        assert(t * uu >= 0) by {
            lemma_mul_nonnegative(t, uu);
        }
        assert(300 * kk * mm <= (300 * kk) * uu) by {
            lemma_mul_is_commutative(300 * kk, mm);
            lemma_mul_is_commutative(300 * kk, uu);
            lemma_mul_inequality(mm, uu, 300 * kk);
        }
        assert((300 * kk) * uu == 300 * ku) by {
            lemma_mul_is_associative(300, kk, uu);
        }
        assert(300 * kk * mm >= 0) by {
            lemma_mul_nonnegative(300 * kk, mm);
        }
        assert(0 <= sum <= 325 * ku);
        assert(sum <= 33 * d);
        assert(b * sum <= b * (33 * d)) by {
            lemma_mul_inequality(sum, 33 * d, b);
            lemma_mul_is_commutative(sum, b);
            lemma_mul_is_commutative(33 * d, b);
        }
        assert(b * (33 * d) == d * (33 * b)) by (nonlinear_arith);
        lemma_div_is_ordered(b * sum, d * (33 * b), d);
        lemma_div_multiples_vanish(33 * b, d);
        assert(b * sum / d <= 33 * b);
        assert(b * sum >= 0) by {
            lemma_mul_nonnegative(b, sum);
        }
        assert(b * sum / d >= 0) by {
            vstd::arithmetic::div_mod::lemma_div_pos_is_pos(b * sum, d);
        }
        assert(b * sum <= 700_000_000_000_000 * 0x29800_0000_0000_0000) by {
            lemma_mul_upper_bound(b, 700_000_000_000_000, sum, 0x29800_0000_0000_0000);
        }
    }
    let k128 = k as u128;
    let u128v = u as u128;
    let num: u128 = (base as u128) * (10 * k128 * u128v + (tok as u128) * u128v + 300 * k128 * (
    m as u128));
    let den: u128 = 10 * k128 * u128v;
    let q = num / den;
    q as u64
}

/// No two candidates carry the same action id.
pub open spec fn distinct_ids(s: Seq<RankedItemView>) -> bool {
    forall|k: int, l: int| 0 <= k < l < s.len() ==> (#[trigger] s[k]).id != (#[trigger] s[l]).id
}

/// The candidate stands somewhere in the list.
pub open spec fn appears_in(x: ExecutableHandler, b: Seq<ExecutableHandler>) -> bool {
    exists|j: int| 0 <= j < b.len() && b[j] == x
}

/// A permutation holds the same elements.
pub proof fn lemma_multiset_membership(a: Seq<ExecutableHandler>, b: Seq<ExecutableHandler>)
    requires
        a.to_multiset() == b.to_multiset(),
    ensures
        forall|k: int| 0 <= k < a.len() ==> appears_in(#[trigger] a[k], b),
{
    assert forall|k: int| 0 <= k < a.len() implies appears_in(#[trigger] a[k], b) by {
        assert(a.contains(a[k]));
        assert(a.to_multiset().count(a[k]) > 0);
        assert(b.to_multiset().count(a[k]) > 0);
        assert(b.contains(a[k]));
    }
}

/// The action at `idx` carries a payload row of its kind.
pub open spec fn payload_exists(v: StoreView, idx: int) -> bool {
    if v.actions[idx].kind == ActionKind::Desktop {
        has_desktop_row(v.desktops, idx + 1)
    } else {
        has_program_row(v.programs, idx + 1)
    }
}

/// Looks up the payload of a stored action; `None` when it has none.
fn find_payload(store: &ActionStore, idx: usize) -> (r: Option<ExecutableType>)
    requires
        store.wf(),
        idx < store@.actions.len(),
    ensures
        match r {
            Some(et) => payload_exists(store@, idx as int) && (match et {
                ExecutableType::Application(c) => store@.actions[idx as int].kind
                    == ActionKind::Desktop && c@ == desktop_exec_of(store@, idx as int + 1),
                ExecutableType::Binary(p) => store@.actions[idx as int].kind == ActionKind::Program
                    && p@ == program_path_of(store@, idx as int + 1),
            }),
            None => !payload_exists(store@, idx as int),
        },
{
    let actions = store.actions();
    proof {
        assert(store@.actions[idx as int] == actions@[idx as int]@);
    }
    let id = actions[idx].id;
    proof {
        assert(store@.actions[idx as int].id == idx + 1);
        assert(id as int == idx + 1);
    }
    match actions[idx].kind {
        ActionKind::Desktop => {
            let desktops = store.desktops();
            let n = desktops.len();
            let mut i: usize = 0;
            while i < n
                invariant
                    store.wf(),
                    i <= n,
                    idx < store@.actions.len(),
                    id as int == idx + 1,
                    store@.actions[idx as int].kind == ActionKind::Desktop,
                    n == store@.desktops.len(),
                    store@.desktops == desktops@.map_values(|a: crate::store::DesktopItem| a@),
                    forall|l: int| 0 <= l < i ==> #[trigger] store@.desktops[l].id != id as int,
                decreases n - i,
            {
                proof {
                    assert(store@.desktops[i as int] == desktops@[i as int]@);
                }
                if desktops[i].id == id {
                    let c = desktops[i].exec_cmd.clone();
                    proof {
                        assert(has_desktop_row(store@.desktops, id as int));
                        let w = choose|w: int|
                            0 <= w < store@.desktops.len() && store@.desktops[w].id == id as int;
                        if w < i as int {
                            assert(store@.desktops[w].id != id as int);
                        } else if w > i as int {
                            assert(store@.desktops[i as int].id != store@.desktops[w].id);
                        }
                        assert(w == i as int);
                    }
                    return Some(ExecutableType::Application(c));
                }
                i = i + 1;
            }
            proof {
                assert(!has_desktop_row(store@.desktops, idx as int + 1));
            }
            None
        },
        ActionKind::Program => {
            let programs = store.programs();
            let n = programs.len();
            let mut i: usize = 0;
            while i < n
                invariant
                    store.wf(),
                    i <= n,
                    idx < store@.actions.len(),
                    id as int == idx + 1,
                    store@.actions[idx as int].kind == ActionKind::Program,
                    n == store@.programs.len(),
                    store@.programs == programs@.map_values(|a: crate::store::ProgramItem| a@),
                    forall|l: int| 0 <= l < i ==> #[trigger] store@.programs[l].id != id as int,
                decreases n - i,
            {
                proof {
                    assert(store@.programs[i as int] == programs@[i as int]@);
                }
                if programs[i].id == id {
                    let p = programs[i].path.clone();
                    proof {
                        assert(has_program_row(store@.programs, id as int));
                        let w = choose|w: int|
                            0 <= w < store@.programs.len() && store@.programs[w].id == id as int;
                        if w < i as int {
                            assert(store@.programs[w].id != id as int);
                        } else if w > i as int {
                            assert(store@.programs[i as int].id != store@.programs[w].id);
                        }
                        assert(w == i as int);
                    }
                    return Some(ExecutableType::Binary(p));
                }
                i = i + 1;
            }
            proof {
                assert(!has_program_row(store@.programs, idx as int + 1));
            }
            None
        },
    }
}

/// The popularity of the action at `idx`, with hour bonus and kind
/// multiplier, as `action_base` states it.
fn compute_action_base(store: &ActionStore, idx: usize, now: u64, hour: u64) -> (r: u64)
    requires
        store.wf(),
        idx < store@.actions.len(),
        hour as int == hour_of_minutes(now as int),
    ensures
        r as int == action_base(store@, idx as int, now as int),
        r <= 700_000_000_000_000,
{
    let actions = store.actions();
    proof {
        assert(store@.actions[idx as int] == actions@[idx as int]@);
    }
    let key = u64_to_string(actions[idx].id);
    let desktop = match actions[idx].kind {
        ActionKind::Desktop => true,
        ActionKind::Program => false,
    };
    let (base, hours) = base_and_hour_stats(store.executions(), key.as_str(), now, hour);
    proof {
        assert(store@.executions.len() <= EXEC_CAP);
    }
    popularity(base, hours, desktop)
}

/// Some candidate in the list carries this action id.
pub open spec fn has_id(s: Seq<RankedItemView>, id: int) -> bool {
    exists|k: int| 0 <= k < s.len() && s[k].id == id
}

/// A sound direct-tier candidate: it stands for a matching stored
/// action and carries exactly the direct-tier relevance.
pub open spec fn direct_item_ok(v: StoreView, it: RankedItemView, filter: Seq<char>, now: int) -> bool {
    exists|a: int|
        #[trigger] item_from_action(v, it, a) && direct_matches(v, a, filter) && it.relevance
            == direct_relevance(v, a, filter, now)
}

/// A sound fuzzy-tier candidate: it stands for a stored action whose
/// trigram similarity passes the threshold, carries the fuzzy-tier
/// relevance, and was not already found by the direct tier.
pub open spec fn fuzzy_item_ok(
    v: StoreView,
    it: RankedItemView,
    filter: Seq<char>,
    now: int,
    existing: Seq<RankedItemView>,
) -> bool {
    exists|a: int|
        #[trigger] item_from_action(v, it, a) && fuzzy_passes(filter, v.actions[a].searchname)
            && it.relevance == fuzzy_relevance(v, a, filter, now) && !has_id(existing, a + 1)
}

/// A sound popularity candidate: it stands for a stored action and
/// carries the raw decayed base as its relevance.
pub open spec fn popular_item_ok(v: StoreView, it: RankedItemView, now: int) -> bool {
    exists|a: int|
        #[trigger] item_from_action(v, it, a) && it.relevance == action_raw_base(v, a, now)
}

/// How many of the first `upto` stored actions the direct tier
/// yields: those matching the query that carry a payload row.
pub open spec fn direct_match_count_upto(v: StoreView, filter: Seq<char>, upto: int) -> int
    decreases upto,
{
    if upto <= 0 {
        0
    } else {
        direct_match_count_upto(v, filter, upto - 1) + if direct_matches(v, upto - 1, filter)
            && payload_exists(v, upto - 1) {
            1int
        } else {
            0int
        }
    }
}

/// How many candidates the direct tier yields in all: the fuzzy tier
/// runs exactly when this stays under five.
pub open spec fn direct_match_count(v: StoreView, filter: Seq<char>) -> int {
    direct_match_count_upto(v, filter, v.actions.len() as int)
}

/// Builds the candidate for the stored action at `idx`, with the given
/// relevance; `None` when the action has no payload row.
fn make_handler(store: &ActionStore, idx: usize, rel: u64) -> (r: Option<ExecutableHandler>)
    requires
        store.wf(),
        idx < store@.actions.len(),
    ensures
        match r {
            Some(h) => item_from_action(store@, h@, idx as int) && h@.relevance == rel as int,
            None => !payload_exists(store@, idx as int),
        },
{
    match find_payload(store, idx) {
        Some(et) => {
            let actions = store.actions();
            proof {
                assert(store@.actions[idx as int] == actions@[idx as int]@);
                assert(store@.actions[idx as int].id == idx + 1);
            }
            Some(
                ExecutableHandler {
                    id: actions[idx].id,
                    name: actions[idx].name.clone(),
                    executable_type: et,
                    relevance: rel,
                },
            )
        },
        None => None,
    }
}

/// Decides whether a candidate with this action id is already listed.
fn contains_id(v: &Vec<ExecutableHandler>, id: u64) -> (r: bool)
    ensures
        r == has_id(items_view(v@), id as int),
{
    let mut i: usize = 0;
    while i < v.len()
        invariant
            i <= v@.len(),
            forall|k: int| 0 <= k < i ==> (#[trigger] items_view(v@)[k]).id != id as int,
        decreases v@.len() - i,
    {
        proof {
            assert(items_view(v@)[i as int] == v@[i as int]@);
        }
        if v[i].id == id {
            return true;
        }
        i = i + 1;
    }
    false
}

/// The direct tier: every stored action whose searchname or lowercased
/// name contains the query, scored by match tier and token points.
fn collect_direct(
    store: &ActionStore,
    filter_lc: &Vec<char>,
    toks: &Vec<Vec<char>>,
    now: u64,
    hour: u64,
) -> (r: Vec<ExecutableHandler>)
    requires
        store.wf(),
        toks.deep_view() == tokens_of(filter_lc@),
        toks@.len() <= 0x1000_0000,
        hour as int == hour_of_minutes(now as int),
    ensures
        forall|k: int|
            0 <= k < r@.len() ==> direct_item_ok(store@, (#[trigger] r@[k])@, filter_lc@, now as int),
        forall|a: int|
            0 <= a < store@.actions.len() && direct_matches(store@, a, filter_lc@)
                && payload_exists(store@, a) ==> has_id(items_view(r@), a + 1),
        distinct_ids(items_view(r@)),
        r@.len() as int == direct_match_count(store@, filter_lc@),
{
    let actions = store.actions();
    let n = actions.len();
    proof {
        assert(n == store@.actions.len());
    }
    let mut out: Vec<ExecutableHandler> = Vec::new();
    let mut idx: usize = 0;
    while idx < n
        invariant
            store.wf(),
            toks.deep_view() == tokens_of(filter_lc@),
            toks@.len() <= 0x1000_0000,
            hour as int == hour_of_minutes(now as int),
            idx <= n,
            n == store@.actions.len(),
            out@.len() as int == direct_match_count_upto(store@, filter_lc@, idx as int),
            store@.actions == actions@.map_values(|a: crate::store::Action| a@),
            forall|k: int|
                0 <= k < out@.len() ==> direct_item_ok(
                    store@,
                    (#[trigger] out@[k])@,
                    filter_lc@,
                    now as int,
                ),
            forall|a: int|
                0 <= a < idx && direct_matches(store@, a, filter_lc@) && payload_exists(store@, a)
                    ==> has_id(items_view(out@), a + 1),
            forall|k: int| 0 <= k < out@.len() ==> 1 <= (#[trigger] out@[k])@.id <= idx,
            forall|k: int, l: int|
                0 <= k < l < out@.len() ==> (#[trigger] out@[k])@.id < (#[trigger] out@[l])@.id,
        decreases n - idx,
    {
        proof {
            assert(store@.actions[idx as int] == actions@[idx as int]@);
        }
        let sn_chars = chars_of(actions[idx].searchname.as_str());
        let name_chars = chars_of(actions[idx].name.as_str());
        let name_lc = lowercase_chars(&name_chars);
        let hit = contains_chars(&sn_chars, filter_lc) || contains_chars(&name_lc, filter_lc);
        proof {
            assert(hit == direct_matches(store@, idx as int, filter_lc@));
        }
        if hit {
            let pop = compute_action_base(store, idx, now, hour);
            let mq = match_quality_chars(&sn_chars, filter_lc);
            proof {
                assert(1 <= mq <= 100);
                assert(toks.deep_view().len() == toks@.len());
            }
            let tok = token_sum_chars(&sn_chars, toks);
            let rel = combined_relevance(pop, mq, toks.len() as u64, tok);
            match make_handler(store, idx, rel) {
                Some(h) => {
                    proof {
                        assert(h@.relevance == direct_relevance(
                            store@,
                            idx as int,
                            filter_lc@,
                            now as int,
                        ));
                        assert(direct_item_ok(store@, h@, filter_lc@, now as int));
                        assert(payload_exists(store@, idx as int));
                    }
                    let ghost old_out = out@;
                    out.push(h);
                    proof {
                        assert(forall|k: int| 0 <= k < old_out.len() ==> out@[k] == old_out[k]);
                        assert(out@[old_out.len() as int] == h);
                        assert(items_view(out@)[old_out.len() as int] == h@);
                        assert forall|a: int|
                            0 <= a < idx + 1 && direct_matches(store@, a, filter_lc@)
                                && payload_exists(store@, a) implies has_id(
                            items_view(out@),
                            a + 1,
                        ) by {
                            if a < idx {
                                let w = choose|w: int|
                                    0 <= w < items_view(old_out).len() && items_view(old_out)[w].id
                                        == a + 1;
                                assert(items_view(out@)[w].id == a + 1);
                            } else {
                                assert(items_view(out@)[old_out.len() as int].id == a + 1);
                            }
                        }
                    }
                },
                None => {},
            }
        }
        idx = idx + 1;
    }
    out
}

/// The fuzzy fallback tier: every stored action whose trigram
/// similarity to the query is above the threshold and that the direct
/// tier did not already find.
fn collect_fuzzy(
    store: &ActionStore,
    filter_lc: &Vec<char>,
    toks: &Vec<Vec<char>>,
    q_tris: &Vec<Vec<char>>,
    existing: &Vec<ExecutableHandler>,
    now: u64,
    hour: u64,
) -> (r: Vec<ExecutableHandler>)
    requires
        store.wf(),
        toks.deep_view() == tokens_of(filter_lc@),
        1 <= toks@.len() <= 0x1000_0000,
        q_tris.deep_view() == trigrams_of(filter_lc@),
        1 <= q_tris@.len() <= 0x1000_0000,
        hour as int == hour_of_minutes(now as int),
    ensures
        forall|k: int|
            0 <= k < r@.len() ==> fuzzy_item_ok(
                store@,
                (#[trigger] r@[k])@,
                filter_lc@,
                now as int,
                items_view(existing@),
            ),
        distinct_ids(items_view(r@)),
        forall|a: int|
            0 <= a < store@.actions.len() && fuzzy_passes(
                filter_lc@,
                (#[trigger] store@.actions[a]).searchname,
            ) && payload_exists(store@, a) && store@.actions[a].searchname.len() <= 0x1000_0000
                && !has_id(items_view(existing@), a + 1) ==> has_id(items_view(r@), a + 1),
{
    let actions = store.actions();
    let n = actions.len();
    proof {
        assert(n == store@.actions.len());
    }
    let mut out: Vec<ExecutableHandler> = Vec::new();
    let mut idx: usize = 0;
    while idx < n
        invariant
            store.wf(),
            toks.deep_view() == tokens_of(filter_lc@),
            1 <= toks@.len() <= 0x1000_0000,
            q_tris.deep_view() == trigrams_of(filter_lc@),
            1 <= q_tris@.len() <= 0x1000_0000,
            hour as int == hour_of_minutes(now as int),
            idx <= n,
            n == store@.actions.len(),
            store@.actions == actions@.map_values(|a: crate::store::Action| a@),
            forall|k: int|
                0 <= k < out@.len() ==> fuzzy_item_ok(
                    store@,
                    (#[trigger] out@[k])@,
                    filter_lc@,
                    now as int,
                    items_view(existing@),
                ),
            forall|k: int, l: int|
                0 <= k < l < out@.len() ==> (#[trigger] out@[k])@.id < (#[trigger] out@[l])@.id,
            forall|k: int| 0 <= k < out@.len() ==> 1 <= (#[trigger] out@[k])@.id <= idx,
            forall|a: int|
                0 <= a < idx && fuzzy_passes(
                    filter_lc@,
                    (#[trigger] store@.actions[a]).searchname,
                ) && payload_exists(store@, a) && store@.actions[a].searchname.len()
                    <= 0x1000_0000 && !has_id(items_view(existing@), a + 1) ==> has_id(
                    items_view(out@),
                    a + 1,
                ),
        decreases n - idx,
    {
        proof {
            assert(store@.actions[idx as int] == actions@[idx as int]@);
            assert(store@.actions[idx as int].id == idx + 1);
        }
        let already = contains_id(existing, actions[idx].id);
        let sn_chars = chars_of(actions[idx].searchname.as_str());
        if !already && sn_chars.len() <= 0x1000_0000 {
            let (m, u) = trigram_stats_chars(q_tris, &sn_chars);
            if 10 * (m as u64) > (u as u64) {
                proof {
                    assert(fuzzy_passes(filter_lc@, store@.actions[idx as int].searchname));
                }
                let pop = compute_action_base(store, idx, now, hour);
                let tok = token_sum_chars(&sn_chars, toks);
                let rel = fuzzy_relevance_value(
                    pop,
                    toks.len() as u64,
                    tok,
                    m as u64,
                    u as u64,
                );
                match make_handler(store, idx, rel) {
                    Some(h) => {
                        proof {
                            assert(h@.relevance == fuzzy_relevance(
                                store@,
                                idx as int,
                                filter_lc@,
                                now as int,
                            ));
                            assert(fuzzy_item_ok(
                                store@,
                                h@,
                                filter_lc@,
                                now as int,
                                items_view(existing@),
                            ));
                        }
                        let ghost old_out = out@;
                        out.push(h);
                        proof {
                            assert(forall|k: int| 0 <= k < old_out.len() ==> out@[k] == old_out[k]);
                            assert(out@[old_out.len() as int] == h);
                            assert(items_view(out@)[old_out.len() as int] == h@);
                            assert forall|a: int|
                                0 <= a < idx + 1 && fuzzy_passes(
                                    filter_lc@,
                                    (#[trigger] store@.actions[a]).searchname,
                                ) && payload_exists(store@, a) && store@.actions[a].searchname.len()
                                    <= 0x1000_0000 && !has_id(items_view(existing@), a + 1) implies
                                has_id(items_view(out@), a + 1) by {
                                if a < idx {
                                    let w = choose|w: int|
                                        0 <= w < items_view(old_out).len() && items_view(
                                            old_out,
                                        )[w].id == a + 1;
                                    assert(items_view(out@)[w].id == a + 1);
                                } else {
                                    assert(items_view(out@)[old_out.len() as int].id == a + 1);
                                }
                            }
                        }
                    },
                    None => {
                        proof {
                            assert(!payload_exists(store@, idx as int));
                        }
                    },
                }
            } else {
                proof {
                    assert(!fuzzy_passes(filter_lc@, store@.actions[idx as int].searchname));
                }
            }
        } else {
            proof {
                if already {
                    assert(has_id(items_view(existing@), idx + 1));
                } else {
                    assert(store@.actions[idx as int].searchname.len() > 0x1000_0000) by {
                        assert(sn_chars@ == store@.actions[idx as int].searchname);
                    }
                }
            }
        }
        idx = idx + 1;
    }
    out
}

/// The raw decayed base of the action at `idx`, as `action_raw_base`.
fn compute_raw_base(store: &ActionStore, idx: usize, now: u64) -> (r: u64)
    requires
        store.wf(),
        idx < store@.actions.len(),
    ensures
        r as int == action_raw_base(store@, idx as int, now as int),
        r <= 700_000_000_000_000,
{
    let actions = store.actions();
    proof {
        assert(store@.actions[idx as int] == actions@[idx as int]@);
    }
    let key = u64_to_string(actions[idx].id);
    let (base, _hours) = base_and_hour_stats(store.executions(), key.as_str(), now, 0);
    proof {
        assert(store@.executions.len() <= EXEC_CAP);
        lemma_base_score_bounds(store@.executions, key@, now as int);
    }
    base
}


/// The candidate is sound for a ranking of this query: it stands for a
/// stored action and carries the direct-tier or fuzzy-tier relevance.
pub open spec fn result_item_ok(v: StoreView, it: RankedItemView, filter: Seq<char>, now: int) -> bool {
    exists|a: int|
        #[trigger] item_from_action(v, it, a) && ((direct_matches(v, a, filter) && it.relevance
            == direct_relevance(v, a, filter, now)) || (fuzzy_passes(
            filter,
            v.actions[a].searchname,
        ) && it.relevance == fuzzy_relevance(v, a, filter, now)))
}

/// Orders candidates by rank and keeps the ten best. Every survivor
/// comes from the input; a dropped candidate is only ever crowded out
/// by ten that rank at least as high.
fn top_ten(cands: Vec<ExecutableHandler>) -> (r: Vec<ExecutableHandler>)
    ensures
        r@.len() <= 10,
        sorted_ranked(items_view(r@)),
        distinct_ids(items_view(cands@)) ==> distinct_ids(items_view(r@)),
        forall|k: int| 0 <= k < r@.len() ==> appears_in(#[trigger] r@[k], cands@),
        forall|j: int|
            0 <= j < cands@.len() ==> appears_in(#[trigger] cands@[j], r@) || (r@.len() == 10
                && forall|k: int|
                0 <= k < r@.len() ==> rank_leq((#[trigger] r@[k])@, cands@[j]@)),
{
    let ghost orig = cands@;
    let mut sorted = sort_by_rank(cands);
    let ghost sv = sorted@;
    proof {
        lemma_multiset_membership(sv, orig);
        lemma_multiset_membership(orig, sv);
    }
    sorted.truncate(10);
    proof {
        if sv.len() <= 10 {
            assert(sorted@ =~= sv);
        } else {
            assert(sorted@ =~= sv.subrange(0, 10));
        }
        assert(forall|k: int| 0 <= k < sorted@.len() ==> #[trigger] sorted@[k] == sv[k]);
        assert forall|i: int, j: int|
            0 <= i < j < items_view(sorted@).len() implies rank_leq(
            #[trigger] items_view(sorted@)[i],
            #[trigger] items_view(sorted@)[j],
        ) by {
            assert(items_view(sorted@)[i] == sv[i]@ && items_view(sorted@)[j] == sv[j]@);
            assert(items_view(sv)[i] == sv[i]@ && items_view(sv)[j] == sv[j]@);
        }
        if distinct_ids(items_view(orig)) {
            assert forall|k: int, l: int|
                0 <= k < l < items_view(sorted@).len() implies (#[trigger] items_view(
                sorted@,
            )[k]).id != (#[trigger] items_view(sorted@)[l]).id by {
                assert(items_view(sv)[k].id != items_view(sv)[l].id);
                assert(items_view(sorted@)[k] == sv[k]@ && items_view(sorted@)[l] == sv[l]@);
            }
        }
        assert forall|k: int| 0 <= k < sorted@.len() implies appears_in(
            #[trigger] sorted@[k],
            orig,
        ) by {
            assert(sorted@[k] == sv[k]);
        }
        assert forall|j: int|
            0 <= j < orig.len() implies appears_in(#[trigger] orig[j], sorted@) || (sorted@.len()
            == 10 && forall|k: int|
            0 <= k < sorted@.len() ==> rank_leq((#[trigger] sorted@[k])@, orig[j]@)) by {
            let p = choose|p: int| 0 <= p < sv.len() && sv[p] == orig[j];
            if p < sorted@.len() {
                assert(sorted@[p] == orig[j]);
                assert(appears_in(orig[j], sorted@));
            } else {
                assert(sv.len() > 10);
                assert(sorted@.len() == 10);
                assert forall|k: int| 0 <= k < sorted@.len() implies rank_leq(
                    (#[trigger] sorted@[k])@,
                    orig[j]@,
                ) by {
                    assert(items_view(sv)[k] == sv[k]@ && items_view(sv)[p] == sv[p]@);
                    assert(rank_leq(sv[k]@, sv[p]@));
                }
            }
        }
    }
    sorted
}

/// Every stored action with a payload row, scored by raw popularity.
fn collect_popular(store: &ActionStore, now: u64) -> (r: Vec<ExecutableHandler>)
    requires
        store.wf(),
    ensures
        forall|k: int|
            0 <= k < r@.len() ==> popular_item_ok(store@, (#[trigger] r@[k])@, now as int),
        forall|a: int|
            0 <= a < store@.actions.len() && payload_exists(store@, a) ==> has_id(
                items_view(r@),
                a + 1,
            ),
        distinct_ids(items_view(r@)),
{
    let actions = store.actions();
    let n = actions.len();
    proof {
        assert(n == store@.actions.len());
    }
    let mut out: Vec<ExecutableHandler> = Vec::new();
    let mut idx: usize = 0;
    while idx < n
        invariant
            store.wf(),
            idx <= n,
            n == store@.actions.len(),
            forall|k: int|
                0 <= k < out@.len() ==> popular_item_ok(store@, (#[trigger] out@[k])@, now as int),
            forall|a: int|
                0 <= a < idx && payload_exists(store@, a) ==> has_id(items_view(out@), a + 1),
            forall|k: int| 0 <= k < out@.len() ==> 1 <= (#[trigger] out@[k])@.id <= idx,
            forall|k: int, l: int|
                0 <= k < l < out@.len() ==> (#[trigger] out@[k])@.id < (#[trigger] out@[l])@.id,
        decreases n - idx,
    {
        let raw = compute_raw_base(store, idx, now);
        match make_handler(store, idx, raw) {
            Some(h) => {
                proof {
                    assert(popular_item_ok(store@, h@, now as int));
                }
                let ghost old_out = out@;
                out.push(h);
                proof {
                    assert(forall|k: int| 0 <= k < old_out.len() ==> out@[k] == old_out[k]);
                    assert(out@[old_out.len() as int] == h);
                    assert(items_view(out@)[old_out.len() as int] == h@);
                    assert forall|a: int|
                        0 <= a < idx + 1 && payload_exists(store@, a) implies has_id(
                        items_view(out@),
                        a + 1,
                    ) by {
                        if a < idx {
                            let w = choose|w: int|
                                0 <= w < items_view(old_out).len() && items_view(old_out)[w].id == a
                                    + 1;
                            assert(items_view(out@)[w].id == a + 1);
                        } else {
                            assert(items_view(out@)[old_out.len() as int].id == a + 1);
                        }
                    }
                }
            },
            None => {},
        }
        idx = idx + 1;
    }
    out
}

/// The actions the launcher offers for an empty query: the most popular
/// discovered actions, ordered purely by their decayed base score with
/// names breaking ties.
pub fn get_popular_actions(store: &ActionStore, now: u64) -> (r: Vec<ExecutableHandler>)
    requires
        store.wf(),
    ensures
        r@.len() <= 10,
        sorted_ranked(items_view(r@)),
        distinct_ids(items_view(r@)),
        forall|k: int|
            0 <= k < r@.len() ==> popular_item_ok(store@, (#[trigger] r@[k])@, now as int),
        forall|a: int|
            0 <= a < store@.actions.len() && payload_exists(store@, a) ==> has_id(
                items_view(r@),
                a + 1,
            ) || (r@.len() == 10 && forall|k: int|
                0 <= k < r@.len() ==> (#[trigger] r@[k])@.relevance >= action_raw_base(
                    store@,
                    a,
                    now as int,
                )),
{
    let cands = collect_popular(store, now);
    let ghost cv = cands@;
    let r = top_ten(cands);
    proof {
        assert forall|k: int| 0 <= k < r@.len() implies popular_item_ok(
            store@,
            (#[trigger] r@[k])@,
            now as int,
        ) by {
            let j = choose|j: int| 0 <= j < cv.len() && cv[j] == r@[k];
        }
        assert forall|a: int|
            0 <= a < store@.actions.len() && payload_exists(store@, a) implies has_id(
            items_view(r@),
            a + 1,
        ) || (r@.len() == 10 && forall|k: int|
            0 <= k < r@.len() ==> (#[trigger] r@[k])@.relevance >= action_raw_base(
                store@,
                a,
                now as int,
            )) by {
            let w = choose|w: int| 0 <= w < items_view(cv).len() && items_view(cv)[w].id == a + 1;
            assert(cv[w]@.id == a + 1);
            assert(popular_item_ok(store@, cv[w]@, now as int));
            let a2 = choose|a2: int|
                item_from_action(store@, cv[w]@, a2) && cv[w]@.relevance == action_raw_base(
                    store@,
                    a2,
                    now as int,
                );
            assert(a2 == a);
            if appears_in(cv[w], r@) {
                let p = choose|p: int| 0 <= p < r@.len() && r@[p] == cv[w];
                assert(items_view(r@)[p].id == a + 1);
                assert(has_id(items_view(r@), a + 1));
            } else {
                assert(r@.len() == 10);
                assert forall|k: int| 0 <= k < r@.len() implies (#[trigger] r@[k])@.relevance
                    >= action_raw_base(store@, a, now as int) by {
                    assert(rank_leq(r@[k]@, cv[w]@));
                }
            }
        }
    }
    r
}

/// Ranks the store's discovered actions against a query: the direct
/// tier always runs; the trigram fuzzy tier fills in when the direct
/// tier found fewer than five candidates; results are ordered by
/// relevance with names breaking ties, ten at most. A blank query asks
/// for the popularity ranking instead.
pub fn get_actions_filtered(store: &ActionStore, filter: &str, now: u64) -> (r: Vec<
    ExecutableHandler,
>)
    requires
        store.wf(),
        filter@.len() <= 0x1000_0000,
    ensures
        r@.len() <= 10,
        sorted_ranked(items_view(r@)),
        distinct_ids(items_view(r@)),
        all_space(filter@) ==> forall|k: int|
            0 <= k < r@.len() ==> popular_item_ok(store@, (#[trigger] r@[k])@, now as int),
        all_space(filter@) ==> forall|a: int|
            0 <= a < store@.actions.len() && payload_exists(store@, a) ==> has_id(
                items_view(r@),
                a + 1,
            ) || (r@.len() == 10 && forall|k: int|
                0 <= k < r@.len() ==> (#[trigger] r@[k])@.relevance >= action_raw_base(
                    store@,
                    a,
                    now as int,
                )),
        !all_space(filter@) ==> forall|k: int|
            0 <= k < r@.len() ==> result_item_ok(
                store@,
                (#[trigger] r@[k])@,
                lower_seq(filter@),
                now as int,
            ),
        !all_space(filter@) ==> forall|a: int|
            0 <= a < store@.actions.len() && direct_matches(store@, a, lower_seq(filter@))
                && payload_exists(store@, a) ==> has_id(items_view(r@), a + 1) || (r@.len() == 10
                && forall|k: int|
                0 <= k < r@.len() ==> (#[trigger] r@[k])@.relevance >= direct_relevance(
                    store@,
                    a,
                    lower_seq(filter@),
                    now as int,
                )),
        !all_space(filter@) ==> forall|a: int|
            0 <= a < store@.actions.len() && direct_match_count(store@, lower_seq(filter@)) < 5
                && fuzzy_passes(lower_seq(filter@), (#[trigger] store@.actions[a]).searchname)
                && payload_exists(store@, a) && !direct_matches(store@, a, lower_seq(filter@))
                && store@.actions[a].searchname.len() <= 0x1000_0000 ==> has_id(
                items_view(r@),
                a + 1,
            ) || (r@.len() == 10 && forall|k: int|
                0 <= k < r@.len() ==> (#[trigger] r@[k])@.relevance >= fuzzy_relevance(
                    store@,
                    a,
                    lower_seq(filter@),
                    now as int,
                )),
        !all_space(filter@) && direct_match_count(store@, lower_seq(filter@)) >= 5 ==> forall|
            k: int,
        |
            0 <= k < r@.len() ==> direct_item_ok(
                store@,
                (#[trigger] r@[k])@,
                lower_seq(filter@),
                now as int,
            ),
{
    let f_chars = chars_of(filter);
    if all_space_chars(&f_chars) {
        return get_popular_actions(store, now);
    }
    let f_lc = lowercase_chars(&f_chars);
    let ghost q = lower_seq(filter@);
    proof {
        assert(f_lc@ == q);
        lemma_tokens_count(q);
    }
    let toks = split_tokens(&f_lc);
    proof {
        assert(toks.deep_view().len() == toks@.len());
        assert(!crate::text::all_space(q)) by {
            let w = choose|i: int|
                0 <= i < filter@.len() && !crate::text::is_space_char(filter@[i]);
            assert(q[w] == crate::text::lower_char(filter@[w]));
            if crate::text::is_upper_char(filter@[w]) {
                crate::text::lemma_lower_char_code(filter@[w]);
                assert(97 <= q[w] as u32 <= 122);
                assert(!crate::text::is_space_char(q[w])) by {
                    if q[w] == ' ' {
                        assert(q[w] as u32 == 32);
                    }
                    if q[w] == '\t' {
                        assert(q[w] as u32 == 9);
                    }
                    if q[w] == '\n' {
                        assert(q[w] as u32 == 10);
                    }
                    if q[w] == '\r' {
                        assert(q[w] as u32 == 13);
                    }
                }
            } else {
                assert(q[w] == filter@[w]);
            }
            assert(0 <= w < q.len() && !crate::text::is_space_char(q[w]));
        }
        crate::matching::lemma_tokens_nonempty(q);
    }
    let q_tris = generate_trigrams(&f_lc);
    proof {
        assert(q_tris.deep_view().len() == q_tris@.len());
        assert(q_tris@.len() <= 0x1000_0000);
    }
    let hour = hour_of(now);
    let mut combined = collect_direct(store, &f_lc, &toks, now, hour);
    let ghost direct_v = combined@;
    let ghost dcount = direct_match_count(store@, q);
    proof {
        assert(direct_v.len() as int == dcount);
    }
    let ghost mut fuzzy_v: Seq<ExecutableHandler> = Seq::empty();
    if combined.len() < 5 {
        let mut fuzzy = collect_fuzzy(store, &f_lc, &toks, &q_tris, &combined, now, hour);
        proof {
            fuzzy_v = fuzzy@;
        }
        combined.append(&mut fuzzy);
        proof {
            assert(combined@ == direct_v + fuzzy_v);
            assert(forall|k: int| 0 <= k < direct_v.len() ==> combined@[k] == direct_v[k]);
            assert(forall|k: int|
                0 <= k < fuzzy_v.len() ==> combined@[direct_v.len() + k] == fuzzy_v[k]);
            assert forall|k: int, l: int|
                0 <= k < l < combined@.len() implies (#[trigger] combined@[k])@.id != (
                #[trigger] combined@[l])@.id by {
                if k < direct_v.len() && l >= direct_v.len() {
                    let lf = l - direct_v.len();
                    assert(combined@[l] == fuzzy_v[lf]);
                    assert(fuzzy_item_ok(
                        store@,
                        fuzzy_v[lf]@,
                        q,
                        now as int,
                        items_view(direct_v),
                    ));
                    let a = choose|a: int|
                        item_from_action(store@, fuzzy_v[lf]@, a) && fuzzy_passes(
                            q,
                            store@.actions[a].searchname,
                        ) && fuzzy_v[lf]@.relevance == fuzzy_relevance(store@, a, q, now as int)
                            && !has_id(items_view(direct_v), a + 1);
                    assert(fuzzy_v[lf]@.id == a + 1);
                    if combined@[k]@.id == a + 1 {
                        assert(items_view(direct_v)[k].id == a + 1);
                        assert(has_id(items_view(direct_v), a + 1));
                    }
                } else if k >= direct_v.len() {
                    let kf = k - direct_v.len();
                    let lf = l - direct_v.len();
                    assert(combined@[k] == fuzzy_v[kf] && combined@[l] == fuzzy_v[lf]);
                    assert(items_view(fuzzy_v)[kf].id != items_view(fuzzy_v)[lf].id);
                } else {
                    assert(items_view(direct_v)[k].id != items_view(direct_v)[l].id);
                }
            }
            assert forall|k: int| 0 <= k < combined@.len() implies result_item_ok(
                store@,
                (#[trigger] combined@[k])@,
                q,
                now as int,
            ) by {
                if k < direct_v.len() {
                    assert(direct_item_ok(store@, direct_v[k]@, q, now as int));
                } else {
                    let kf = k - direct_v.len();
                    assert(combined@[k] == fuzzy_v[kf]);
                    assert(fuzzy_item_ok(
                        store@,
                        fuzzy_v[kf]@,
                        q,
                        now as int,
                        items_view(direct_v),
                    ));
                }
            }
        }
    } else {
        proof {
            assert forall|k: int| 0 <= k < combined@.len() implies result_item_ok(
                store@,
                (#[trigger] combined@[k])@,
                q,
                now as int,
            ) by {
                assert(direct_item_ok(store@, combined@[k]@, q, now as int));
            }
        }
    }
    let ghost cv = combined@;
    proof {
        assert(forall|k: int|
            0 <= k < direct_v.len() ==> #[trigger] cv[k] == direct_v[k]);
    }
    let r = top_ten(combined);
    proof {
        assert forall|k: int| 0 <= k < r@.len() implies result_item_ok(
            store@,
            (#[trigger] r@[k])@,
            q,
            now as int,
        ) by {
            let j = choose|j: int| 0 <= j < cv.len() && cv[j] == r@[k];
        }
        assert forall|a: int|
            0 <= a < store@.actions.len() && direct_matches(store@, a, q) && payload_exists(
                store@,
                a,
            ) implies has_id(items_view(r@), a + 1) || (r@.len() == 10 && forall|k: int|
            0 <= k < r@.len() ==> (#[trigger] r@[k])@.relevance >= direct_relevance(
                store@,
                a,
                q,
                now as int,
            )) by {
            let w = choose|w: int|
                0 <= w < items_view(direct_v).len() && items_view(direct_v)[w].id == a + 1;
            assert(direct_v[w]@.id == a + 1);
            assert(cv[w] == direct_v[w]);
            assert(direct_item_ok(store@, direct_v[w]@, q, now as int));
            let a2 = choose|a2: int|
                item_from_action(store@, direct_v[w]@, a2) && direct_matches(store@, a2, q)
                    && direct_v[w]@.relevance == direct_relevance(store@, a2, q, now as int);
            assert(a2 == a);
            if appears_in(cv[w], r@) {
                let p = choose|p: int| 0 <= p < r@.len() && r@[p] == cv[w];
                assert(items_view(r@)[p].id == a + 1);
                assert(has_id(items_view(r@), a + 1));
            } else {
                assert(r@.len() == 10);
                assert forall|k: int| 0 <= k < r@.len() implies (#[trigger] r@[k])@.relevance
                    >= direct_relevance(store@, a, q, now as int) by {
                    assert(rank_leq(r@[k]@, cv[w]@));
                }
            }
        }
        assert forall|a: int|
            0 <= a < store@.actions.len() && dcount < 5 && fuzzy_passes(
                q,
                (#[trigger] store@.actions[a]).searchname,
            ) && payload_exists(store@, a) && !direct_matches(store@, a, q)
                && store@.actions[a].searchname.len() <= 0x1000_0000 implies has_id(
            items_view(r@),
            a + 1,
        ) || (r@.len() == 10 && forall|k: int|
            0 <= k < r@.len() ==> (#[trigger] r@[k])@.relevance >= fuzzy_relevance(
                store@,
                a,
                q,
                now as int,
            )) by {
            assert(cv == direct_v + fuzzy_v);
            assert(!has_id(items_view(direct_v), a + 1)) by {
                if has_id(items_view(direct_v), a + 1) {
                    let w0 = choose|w0: int|
                        0 <= w0 < items_view(direct_v).len() && items_view(direct_v)[w0].id == a
                            + 1;
                    assert(direct_item_ok(store@, direct_v[w0]@, q, now as int));
                    let a3 = choose|a3: int|
                        item_from_action(store@, direct_v[w0]@, a3) && direct_matches(
                            store@,
                            a3,
                            q,
                        ) && direct_v[w0]@.relevance == direct_relevance(store@, a3, q, now as int);
                    assert(a3 == a);
                }
            }
            assert(has_id(items_view(fuzzy_v), a + 1));
            let w = choose|w: int|
                0 <= w < items_view(fuzzy_v).len() && items_view(fuzzy_v)[w].id == a + 1;
            let f = fuzzy_v[w];
            assert(fuzzy_item_ok(store@, f@, q, now as int, items_view(direct_v)));
            let a2 = choose|a2: int|
                item_from_action(store@, f@, a2) && fuzzy_passes(q, store@.actions[a2].searchname)
                    && f@.relevance == fuzzy_relevance(store@, a2, q, now as int) && !has_id(
                    items_view(direct_v),
                    a2 + 1,
                );
            assert(a2 == a);
            assert(cv[direct_v.len() + w] == f);
            if appears_in(f, r@) {
                let p = choose|p: int| 0 <= p < r@.len() && r@[p] == f;
                assert(items_view(r@)[p].id == a + 1);
                assert(has_id(items_view(r@), a + 1));
            } else {
                assert(r@.len() == 10);
                assert forall|k: int| 0 <= k < r@.len() implies (#[trigger] r@[k])@.relevance
                    >= fuzzy_relevance(store@, a, q, now as int) by {
                    assert(rank_leq(r@[k]@, cv[direct_v.len() + w]@));
                }
            }
        }
        if dcount >= 5 {
            assert forall|k: int| 0 <= k < r@.len() implies direct_item_ok(
                store@,
                (#[trigger] r@[k])@,
                q,
                now as int,
            ) by {
                let j = choose|j: int| 0 <= j < cv.len() && cv[j] == r@[k];
                assert(cv == direct_v);
                assert(direct_item_ok(store@, direct_v[j]@, q, now as int));
            }
        }
    }
    r
}

impl ActionStore {
    /// The ranking entry point of the store, as the presentation layer
    /// calls it on every keystroke: the full contract of
    /// `get_actions_filtered`, completeness clauses included.
    pub fn query_actions(&self, filter: &str, now: u64) -> (r: Vec<ExecutableHandler>)
        requires
            self.wf(),
            filter@.len() <= 0x1000_0000,
        ensures
            r@.len() <= 10,
            sorted_ranked(items_view(r@)),
            distinct_ids(items_view(r@)),
            all_space(filter@) ==> forall|k: int|
                0 <= k < r@.len() ==> popular_item_ok(self@, (#[trigger] r@[k])@, now as int),
            all_space(filter@) ==> forall|a: int|
                0 <= a < self@.actions.len() && payload_exists(self@, a) ==> has_id(
                    items_view(r@),
                    a + 1,
                ) || (r@.len() == 10 && forall|k: int|
                    0 <= k < r@.len() ==> (#[trigger] r@[k])@.relevance >= action_raw_base(
                        self@,
                        a,
                        now as int,
                    )),
            !all_space(filter@) ==> forall|k: int|
                0 <= k < r@.len() ==> result_item_ok(
                    self@,
                    (#[trigger] r@[k])@,
                    lower_seq(filter@),
                    now as int,
                ),
            !all_space(filter@) ==> forall|a: int|
                0 <= a < self@.actions.len() && direct_matches(self@, a, lower_seq(filter@))
                    && payload_exists(self@, a) ==> has_id(items_view(r@), a + 1) || (r@.len()
                    == 10 && forall|k: int|
                    0 <= k < r@.len() ==> (#[trigger] r@[k])@.relevance >= direct_relevance(
                        self@,
                        a,
                        lower_seq(filter@),
                        now as int,
                    )),
            !all_space(filter@) ==> forall|a: int|
                0 <= a < self@.actions.len() && direct_match_count(self@, lower_seq(filter@)) < 5
                    && fuzzy_passes(lower_seq(filter@), (#[trigger] self@.actions[a]).searchname)
                    && payload_exists(self@, a) && !direct_matches(self@, a, lower_seq(filter@))
                    && self@.actions[a].searchname.len() <= 0x1000_0000 ==> has_id(
                    items_view(r@),
                    a + 1,
                ) || (r@.len() == 10 && forall|k: int|
                    0 <= k < r@.len() ==> (#[trigger] r@[k])@.relevance >= fuzzy_relevance(
                        self@,
                        a,
                        lower_seq(filter@),
                        now as int,
                    )),
            !all_space(filter@) && direct_match_count(self@, lower_seq(filter@)) >= 5 ==> forall|
                k: int,
            |
                0 <= k < r@.len() ==> direct_item_ok(
                    self@,
                    (#[trigger] r@[k])@,
                    lower_seq(filter@),
                    now as int,
                ),
    {
        get_actions_filtered(self, filter, now)
    }
}


/// For candidates in the same match tier that earn the same token
/// points against one query, a strictly larger base score means a
/// strictly larger relevance: popularity decides within a tier.
pub proof fn lemma_base_score_orders_relevance(
    base_a: int,
    base_b: int,
    mq: int,
    k: int,
    tok: int,
)
    requires
        base_a > base_b >= 0,
        1 <= mq <= 100,
        k >= 0,
        0 <= tok <= 15 * k,
    ensures
        rel_with_tokens(base_a, mq, k, tok) > rel_with_tokens(base_b, mq, k, tok),
{
    if k == 0 {
        vstd::arithmetic::mul::lemma_mul_strict_inequality(base_b, base_a, mq);
        lemma_mul_is_commutative(base_a, mq);
        lemma_mul_is_commutative(base_b, mq);
    } else {
        let f = 10 * k + tok;
        let den = 10 * k;
        let na = base_a * mq * f;
        let nb = base_b * mq * f;
        assert(na >= nb + den) by (nonlinear_arith)
            requires
                base_a > base_b >= 0 && mq >= 1 && f >= den >= 1 && na == base_a * mq * f && nb
                    == base_b * mq * f,
        ;
        lemma_div_is_ordered(nb + den, na, den);
        vstd::arithmetic::div_mod::lemma_div_plus_one(nb, den);
        assert(nb / den + 1 <= na / den);
    }
}

/// For one query and equal positive base scores, an exact match always
/// outranks a prefix match.
pub proof fn lemma_exact_outranks_prefix(base: int, filter: Seq<char>, sn_p: Seq<char>)
    requires
        base >= 1,
        sn_p != filter,
        starts_with_seq(sn_p, filter),
        tokens_of(filter).len() >= 1,
    ensures
        rel_with_tokens(
            base,
            match_quality(filter, filter),
            tokens_of(filter).len() as int,
            token_sum(filter, tokens_of(filter)),
        ) > rel_with_tokens(
            base,
            match_quality(sn_p, filter),
            tokens_of(filter).len() as int,
            token_sum(sn_p, tokens_of(filter)),
        ),
{
    let toks = tokens_of(filter);
    let k = toks.len() as int;
    assert(match_quality(filter, filter) == 100);
    assert(match_quality(sn_p, filter) == 50);
    assert(contains_seq(filter, filter)) by {
        assert(occurs_at(filter, filter, 0));
    }
    crate::matching::lemma_contained_token_sum(filter, filter, toks);
    lemma_token_sum_bounds(sn_p, toks);
    lemma_rel_lower_bound(base, 100, k, token_sum(filter, toks));
    lemma_rel_upper_bound(base, 50, k, token_sum(sn_p, toks));
    assert(200 * base > 125 * base) by (nonlinear_arith)
        requires
            base >= 1,
    ;
}

/// For one query and equal positive base scores, a prefix match always
/// outranks a substring match.
pub proof fn lemma_prefix_outranks_substring(base: int, filter: Seq<char>, sn_p: Seq<char>, sn_s: Seq<char>)
    requires
        base >= 1,
        sn_p != filter,
        starts_with_seq(sn_p, filter),
        sn_s != filter,
        !starts_with_seq(sn_s, filter),
        contains_seq(sn_s, filter),
        tokens_of(filter).len() >= 1,
    ensures
        rel_with_tokens(
            base,
            match_quality(sn_p, filter),
            tokens_of(filter).len() as int,
            token_sum(sn_p, tokens_of(filter)),
        ) > rel_with_tokens(
            base,
            match_quality(sn_s, filter),
            tokens_of(filter).len() as int,
            token_sum(sn_s, tokens_of(filter)),
        ),
{
    let toks = tokens_of(filter);
    let k = toks.len() as int;
    assert(match_quality(sn_p, filter) == 50);
    assert(match_quality(sn_s, filter) == 10);
    assert(contains_seq(sn_p, filter)) by {
        assert(occurs_at(sn_p, filter, 0));
    }
    crate::matching::lemma_contained_token_sum(sn_p, filter, toks);
    lemma_token_sum_bounds(sn_s, toks);
    lemma_rel_lower_bound(base, 50, k, token_sum(sn_p, toks));
    lemma_rel_upper_bound(base, 10, k, token_sum(sn_s, toks));
    assert(100 * base > 25 * base) by (nonlinear_arith)
        requires
            base >= 1,
    ;
}

/// For one query and equal positive base scores, a substring match
/// always outranks a fuzzy-tier candidate whose trigram similarity is
/// at most one half.
pub proof fn lemma_substring_outranks_fuzzy(base: int, filter: Seq<char>, sn_s: Seq<char>, sn_f: Seq<char>)
    requires
        base >= 1,
        contains_seq(sn_s, filter),
        tokens_of(filter).len() >= 1,
        2 * trigram_stats(filter, sn_f).0 <= trigram_stats(filter, sn_f).1,
        trigram_stats(filter, sn_f).0 >= 0,
        trigram_stats(filter, sn_f).1 >= 1,
    ensures
        rel_with_tokens(
            base,
            match_quality(sn_s, filter),
            tokens_of(filter).len() as int,
            token_sum(sn_s, tokens_of(filter)),
        ) > fuzzy_relevance_of(base, filter, sn_f),
{
    let toks = tokens_of(filter);
    let k = toks.len() as int;
    let m = trigram_stats(filter, sn_f).0;
    let u = trigram_stats(filter, sn_f).1;
    let tok_f = token_sum(sn_f, toks);
    assert(match_quality(sn_s, filter) >= 10);
    assert(match_quality(sn_s, filter) <= 100);
    crate::matching::lemma_contained_token_sum(sn_s, filter, toks);
    lemma_token_sum_bounds(sn_s, toks);
    lemma_token_sum_bounds(sn_f, toks);
    lemma_rel_lower_bound(base, match_quality(sn_s, filter), k, token_sum(sn_s, toks));
    assert(rel_with_tokens(base, match_quality(sn_s, filter), k, token_sum(sn_s, toks)) >= 2
        * match_quality(sn_s, filter) * base);
    assert(2 * match_quality(sn_s, filter) * base >= 20 * base) by (nonlinear_arith)
        requires
            base >= 1 && match_quality(sn_s, filter) >= 10,
    ;
    let num = base * (10 * k * u + tok_f * u + 300 * k * m);
    let den = 10 * k * u;
    assert(10 * k * u + tok_f * u + 300 * k * m <= 175 * (k * u)) by (nonlinear_arith)
        requires
            k >= 1 && u >= 1 && 0 <= tok_f <= 15 * k && 2 * m <= u && m >= 0,
    ;
    assert(num <= base * (175 * (k * u))) by (nonlinear_arith)
        requires
            base >= 1 && num == base * (10 * k * u + tok_f * u + 300 * k * m) && 10 * k * u + tok_f
                * u + 300 * k * m <= 175 * (k * u),
    ;
    assert(base * (175 * (k * u)) <= (10 * k * u) * (18 * base)) by (nonlinear_arith)
        requires
            base >= 1 && k >= 1 && u >= 1,
    ;
    assert(den >= 10) by (nonlinear_arith)
        requires
            k >= 1 && u >= 1 && den == 10 * k * u,
    ;
    lemma_div_is_ordered(num, (10 * k * u) * (18 * base), den);
    lemma_div_multiples_vanish(18 * base, den);
    assert(num / den <= 18 * base);
    assert(20 * base > 18 * base) by (nonlinear_arith)
        requires
            base >= 1,
    ;
}

/// The fuzzy relevance written over its raw ingredients.
pub open spec fn fuzzy_relevance_of(base: int, filter: Seq<char>, sn: Seq<char>) -> int {
    fuzzy_formula(
        base,
        tokens_of(filter).len() as int,
        token_sum(sn, tokens_of(filter)),
        trigram_stats(filter, sn).0,
        trigram_stats(filter, sn).1,
    )
}

/// A candidate whose token points reach the containment floor earns at
/// least twice its tier value times its base.
proof fn lemma_rel_lower_bound(base: int, mq: int, k: int, tok: int)
    requires
        base >= 0,
        mq >= 1,
        k >= 1,
        tok >= 10 * k,
    ensures
        rel_with_tokens(base, mq, k, tok) >= 2 * mq * base,
{
    let den = 10 * k;
    let num = base * mq * (10 * k + tok);
    assert(num >= (2 * mq * base) * den) by (nonlinear_arith)
        requires
            base >= 0 && mq >= 1 && k >= 1 && tok >= 10 * k && num == base * mq * (10 * k + tok)
                && den == 10 * k,
    ;
    assert((2 * mq * base) * den == den * (2 * mq * base)) by (nonlinear_arith);
    lemma_div_is_ordered(den * (2 * mq * base), num, den);
    lemma_div_multiples_vanish(2 * mq * base, den);
}

/// No candidate earns more than two and a half times its tier value
/// times its base.
proof fn lemma_rel_upper_bound(base: int, mq: int, k: int, tok: int)
    requires
        base >= 0,
        mq >= 1,
        k >= 1,
        tok <= 15 * k,
        tok >= 0,
    ensures
        rel_with_tokens(base, mq, k, tok) * 2 <= 5 * mq * base,
{
    let den = 10 * k;
    let num = base * mq * (10 * k + tok);
    assert(num * 2 <= (5 * mq * base) * den) by (nonlinear_arith)
        requires
            base >= 0 && mq >= 1 && k >= 1 && 0 <= tok <= 15 * k && num == base * mq * (10 * k
                + tok) && den == 10 * k,
    ;
    assert(num >= 0) by (nonlinear_arith)
        requires
            base >= 0 && mq >= 1 && k >= 1 && tok >= 0 && num == base * mq * (10 * k + tok),
    ;
    assert(num / den >= 0) by {
        vstd::arithmetic::div_mod::lemma_div_pos_is_pos(num, den);
    }
    assert(num / den * den <= num) by {
        vstd::arithmetic::div_mod::lemma_fundamental_div_mod(num, den);
        vstd::arithmetic::div_mod::lemma_mod_division_less_than_divisor(num, den);
    }
    assert(num / den * 2 * den <= num * 2) by (nonlinear_arith)
        requires
            den >= 1 && num >= 0 && num / den * den <= num && num / den >= 0,
    ;
    assert(num / den * 2 * den <= (5 * mq * base) * den);
    assert(num / den * 2 <= 5 * mq * base) by (nonlinear_arith)
        requires
            den >= 1 && num / den * 2 * den <= (5 * mq * base) * den,
    ;
}


/// The scanned-scenario strings, pinned: `Firefox` projects to the
/// searchname `firefox`, the query `fire` is its prefix-tier match,
/// and `ls` does not match that query at all — so, by the completeness
/// and soundness clauses of `get_actions_filtered`, a store scanned
/// from those two discoveries answers `fire` with the Firefox action
/// alone.
pub proof fn lemma_firefox_scenario_strings()
    ensures
        searchname_seq("Firefox"@) == "firefox"@,
        lower_seq("fire"@) == "fire"@,
        match_quality("firefox"@, "fire"@) == 50,
        searchname_seq("ls"@) == "ls"@,
        !contains_seq("ls"@, "fire"@),
{
    reveal_strlit("Firefox");
    reveal_strlit("firefox");
    reveal_strlit("fire");
    reveal_strlit("ls");
    assert forall|i: int| 0 <= i < "Firefox"@.len() implies crate::text::is_word_char(
        #[trigger] "Firefox"@[i],
    ) || crate::text::is_space_char("Firefox"@[i]) by {
        assert("Firefox"@.len() == 7);
    }
    crate::text::lemma_searchname_of_clean("Firefox"@);
    assert(lower_seq("Firefox"@) == "firefox"@) by {
        assert forall|k: int| 0 <= k < lower_seq("Firefox"@).len() implies lower_seq(
            "Firefox"@,
        )[k] == "firefox"@[k] by {
            if k == 0 {
                crate::text::lemma_lower_char_code('F');
                assert(crate::text::lower_char('F') as u32 == 102);
                assert('f' as u32 == 102);
                crate::text::lemma_char_code_injective(crate::text::lower_char('F'), 'f');
            }
        }
        assert(lower_seq("Firefox"@) =~= "firefox"@);
    }
    assert(lower_seq("fire"@) == "fire"@) by {
        assert forall|k: int| 0 <= k < lower_seq("fire"@).len() implies lower_seq("fire"@)[k]
            == "fire"@[k] by {}
        assert(lower_seq("fire"@) =~= "fire"@);
    }
    assert forall|i: int| 0 <= i < "ls"@.len() implies crate::text::is_word_char(
        #[trigger] "ls"@[i],
    ) || crate::text::is_space_char("ls"@[i]) by {
        assert("ls"@.len() == 2);
    }
    crate::text::lemma_searchname_of_clean("ls"@);
    assert(searchname_seq("ls"@) == "ls"@) by {
        assert forall|k: int| 0 <= k < lower_seq("ls"@).len() implies lower_seq("ls"@)[k]
            == "ls"@[k] by {}
        assert(lower_seq("ls"@) =~= "ls"@);
    }
    assert("firefox"@ != "fire"@) by {
        assert("firefox"@.len() != "fire"@.len());
    }
    assert(starts_with_seq("firefox"@, "fire"@)) by {
        assert(occurs_at("firefox"@, "fire"@, 0));
    }
    assert(!contains_seq("ls"@, "fire"@)) by {
        assert forall|i: int| !occurs_at("ls"@, "fire"@, i) by {
            assert("ls"@.len() == 2 && "fire"@.len() == 4);
        }
    }
}

} // verus!
