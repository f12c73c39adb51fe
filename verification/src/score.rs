//! Popularity scoring: each execution contributes a weight that decays
//! with age on a 24-hour half-scale, executions at the current hour of
//! day earn a bonus, and desktop entries get a small kind multiplier.
//! Weights are kept as integers scaled by 1000.

use vstd::prelude::*;
use vstd::arithmetic::div_mod::lemma_basic_div;
use crate::store::{
    ActionStore, ActionKind, StoreView, ExecutionRecord, ExecutionView, count_execs, EXEC_CAP,
};
use crate::text::{str_eq, dec_str, u64_to_string};

verus! {

/// Hour of day of a timestamp counted in local minutes.
pub open spec fn hour_of_minutes(m: int) -> int {
    (m / 60) % 24
}

/// Age of an execution at query time; the clock never runs backwards in
/// the model, so a future timestamp counts as fresh.
pub open spec fn age_minutes(now: int, t: int) -> int {
    if t <= now {
        now - t
    } else {
        0
    }
}

/// Decayed weight of one execution: 1000 when fresh, half after a day.
pub open spec fn decay_weight(age: int) -> int {
    1440000int / (1440 + age)
}

/// Sum of decayed weights of this action's executions.
pub open spec fn base_score_at(s: Seq<ExecutionView>, id: Seq<char>, now: int) -> int
    decreases s.len(),
{
    if s.len() == 0 {
        0
    } else {
        base_score_at(s.drop_last(), id, now) + if s.last().action_id == id {
            decay_weight(age_minutes(now, s.last().minutes))
        } else {
            0int
        }
    }
}

/// How many of this action's executions fell in the given hour of day.
pub open spec fn hour_count_at(s: Seq<ExecutionView>, id: Seq<char>, hour: int) -> int
    decreases s.len(),
{
    if s.len() == 0 {
        0
    } else {
        hour_count_at(s.drop_last(), id, hour) + if s.last().action_id == id && hour_of_minutes(
            s.last().minutes,
        ) == hour {
            1int
        } else {
            0int
        }
    }
}

/// The popularity score: the decayed base, multiplied by the
/// hour-of-day bonus (half the matching-hour count), and by 11/10 for
/// desktop entries.
pub open spec fn popularity_score(base: int, hours: int, desktop: bool) -> int {
    let s = base * (2 + hours) / 2;
    if desktop {
        s * 11 / 10
    } else {
        s
    }
}

pub proof fn lemma_decay_weight_bounds(age: int)
    requires
        age >= 0,
    ensures
        0 <= decay_weight(age) <= 1000,
{
    assert(1440000int / (1440 + age) <= 1000) by (nonlinear_arith)
        requires
            age >= 0,
    ;
    assert(1440000int / (1440 + age) >= 0) by (nonlinear_arith)
        requires
            age >= 0,
    ;
}

pub proof fn lemma_base_score_bounds(s: Seq<ExecutionView>, id: Seq<char>, now: int)
    ensures
        0 <= base_score_at(s, id, now) <= 1000 * s.len(),
    decreases s.len(),
{
    if s.len() > 0 {
        lemma_base_score_bounds(s.drop_last(), id, now);
        lemma_decay_weight_bounds(age_minutes(now, s.last().minutes));
    }
}

pub proof fn lemma_hour_count_bounds(s: Seq<ExecutionView>, id: Seq<char>, hour: int)
    ensures
        0 <= hour_count_at(s, id, hour) <= s.len(),
    decreases s.len(),
{
    if s.len() > 0 {
        lemma_hour_count_bounds(s.drop_last(), id, hour);
    }
}

/// Computes the decayed weight of one execution.
pub fn decay(now: u64, t: u64) -> (r: u64)
    ensures
        r as int == decay_weight(age_minutes(now as int, t as int)),
        r <= 1000,
{
    let age: u64 = if t <= now {
        now - t
    } else {
        0
    };
    proof {
        lemma_decay_weight_bounds(age as int);
    }
    if age > 1438560 {
        proof {
            lemma_basic_div(1440000, 1440 + age as int);
        }
        0
    } else {
        1440000 / (1440 + age)
    }
}

/// Computes the hour of day of a minute timestamp.
pub fn hour_of(minutes: u64) -> (r: u64)
    ensures
        r as int == hour_of_minutes(minutes as int),
        r < 24,
{
    (minutes / 60) % 24
}

/// One pass over the ledger: the decayed base score of this action and
/// the number of its executions in the given hour of day.
pub fn base_and_hour_stats(execs: &Vec<ExecutionRecord>, action_id: &str, now: u64, hour: u64) -> (r:
    (u64, u64))
    requires
        execs@.len() <= EXEC_CAP,
    ensures
        ({
            let evs = execs@.map_values(|e: ExecutionRecord| e@);
            &&& r.0 as int == base_score_at(evs, action_id@, now as int)
            &&& r.0 <= 1000 * evs.len()
            &&& r.1 as int == hour_count_at(evs, action_id@, hour as int)
            &&& r.1 <= evs.len()
        }),
{
    let ghost evs = execs@.map_values(|e: ExecutionRecord| e@);
    let mut base: u64 = 0;
    let mut hours: u64 = 0;
    let mut i: usize = 0;
    while i < execs.len()
        invariant
            i <= execs@.len(),
            execs@.len() <= EXEC_CAP,
            evs == execs@.map_values(|e: ExecutionRecord| e@),
            evs.len() == execs@.len(),
            base as int == base_score_at(evs.take(i as int), action_id@, now as int),
            base <= 1000 * i,
            hours as int == hour_count_at(evs.take(i as int), action_id@, hour as int),
            hours <= i,
        decreases execs@.len() - i,
    {
        proof {
            assert(evs.take(i + 1).drop_last() =~= evs.take(i as int));
            assert(evs.take(i + 1).last() == evs[i as int]);
            assert(evs[i as int] == execs@[i as int]@);
        }
        if str_eq(execs[i].action_id.as_str(), action_id) {
            let w = decay(now, execs[i].minutes);
            base = base + w;
            let h = hour_of(execs[i].minutes);
            if h == hour {
                hours = hours + 1;
            }
        }
        i = i + 1;
    }
    proof {
        assert(evs.take(execs@.len() as int) =~= evs);
    }
    (base, hours)
}

/// Computes the popularity score from the two ledger statistics.
pub fn popularity(base: u64, hours: u64, desktop: bool) -> (r: u64)
    requires
        base <= 1000 * EXEC_CAP,
        hours <= EXEC_CAP,
    ensures
        r as int == popularity_score(base as int, hours as int, desktop),
        r <= 700_000_000_000_000,
{
    proof {
        assert(base * (2 + hours) <= 1048576000 * 1048578) by (nonlinear_arith)
            requires
                base <= 1048576000 && hours <= 1048576,
        ;
    }
    let s = base * (2 + hours) / 2;
    if desktop {
        s * 11 / 10
    } else {
        s
    }
}

/// The ledger key names a stored desktop action: the key is the
/// decimal id of an actions row of Desktop kind. Builtin string keys
/// never are, so they score without the kind multiplier.
pub open spec fn desktop_key(v: StoreView, key: Seq<char>) -> bool {
    exists|i: int|
        0 <= i < v.actions.len() && dec_str((#[trigger] v.actions[i]).id) == key && v.actions[
            i].kind == ActionKind::Desktop
}

impl ActionStore {
    /// Decides `desktop_key`: whether this ledger key names a stored
    /// desktop action.
    pub fn key_names_desktop(&self, action_id: &str) -> (r: bool)
        ensures
            r == desktop_key(self@, action_id@),
    {
        let actions = self.actions();
        let mut i: usize = 0;
        while i < actions.len()
            invariant
                i <= actions@.len(),
                self@.actions == actions@.map_values(|a: crate::store::Action| a@),
                self@.actions.len() == actions@.len(),
                forall|j: int|
                    0 <= j < i ==> !(dec_str((#[trigger] self@.actions[j]).id) == action_id@
                        && self@.actions[j].kind == ActionKind::Desktop),
            decreases actions@.len() - i,
        {
            proof {
                assert(self@.actions[i as int] == actions@[i as int]@);
            }
            let key = u64_to_string(actions[i].id);
            if str_eq(key.as_str(), action_id) {
                match actions[i].kind {
                    ActionKind::Desktop => {
                        return true;
                    },
                    ActionKind::Program => {},
                }
            }
            i = i + 1;
        }
        false
    }

    /// Appends one execution record stamped with the wall clock; the
    /// timestamp is whatever the clock returned. Reports whether the
    /// ledger recorded it.
    pub fn log_execution(&mut self, action_id: &str) -> (r: bool)
        requires
            old(self).wf(),
        ensures
            final(self).wf(),
            exists|m: int|
                #[trigger] crate::store::log_execution_spec(old(self)@, action_id@, m) == (
                final(self)@,
                r,
            ),
    {
        let now = crate::outside::local_now_minutes();
        let r = self.log_execution_at(action_id, now);
        proof {
            assert(crate::store::log_execution_spec(old(self)@, action_id@, now as int) == (
            self@,
            r,
            ));
        }
        r
    }

    /// The persisted relevance of a single known action id: its
    /// popularity score at the given time — with the desktop kind
    /// multiplier when the id names a stored desktop action — and its
    /// execution count. The one relevance formula is shared with the
    /// bulk ranking path.
    pub fn get_action_relevance(&self, action_id: &str, now: u64) -> (r: (u64, u64))
        requires
            self.wf(),
        ensures
            r.0 as int == popularity_score(
                base_score_at(self@.executions, action_id@, now as int),
                hour_count_at(self@.executions, action_id@, hour_of_minutes(now as int)),
                desktop_key(self@, action_id@),
            ),
            r.1 as int == count_execs(self@.executions, action_id@),
    {
        let hour = hour_of(now);
        let (base, hours) = base_and_hour_stats(self.executions(), action_id, now, hour);
        let desktop = self.key_names_desktop(action_id);
        let score = popularity(base, hours, desktop);
        let count = self.get_execution_count(action_id);
        (score, count)
    }
}

} // verus!
