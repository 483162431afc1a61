//! Properties of the cohort state machine that span its operations.
use vstd::prelude::*;
use crate::timers::{
    advance, fires, is_next_due, spec_next_due, shift_fires, step_nanos, arithmetic_fire, cumulative, gap_at, geometric_gaps, cohort_wf, keep_unmarked, restored, schedule, settle, shifted, silence_first_id,
    silence_if_alerting, silenced, spec_adjust, spec_cancel_timer, spec_clear_all, spec_pause_all,
    spec_rebuild, spec_reset_all, spec_silence_alerting, spec_silence_timer, spec_start_all,
    spec_tick_all, started, stopped, unmarked, CohortModel, Timer,
};

verus! {

/// One operation on a cohort.
pub enum CohortOp {
    Rebuild(Option<Seq<u64>>),
    Start,
    Pause,
    Reset,
    Clear,
    Tick(nat),
    Adjust(int),
    SilenceAlerting,
    SilenceTimer(u64),
    Cancel(u64),
}

pub open spec fn apply_op(c: CohortModel, op: CohortOp) -> CohortModel {
    match op {
        CohortOp::Rebuild(f) => spec_rebuild(c, f),
        CohortOp::Start => spec_start_all(c),
        CohortOp::Pause => spec_pause_all(c),
        CohortOp::Reset => spec_reset_all(c),
        CohortOp::Clear => spec_clear_all(c),
        CohortOp::Tick(step) => spec_tick_all(c, step),
        CohortOp::Adjust(d) => spec_adjust(c, d),
        CohortOp::SilenceAlerting => spec_silence_alerting(c),
        CohortOp::SilenceTimer(id) => spec_silence_timer(c, id),
        CohortOp::Cancel(id) => spec_cancel_timer(c, id),
    }
}

/// The ids the operation hands out fit in a `u64`.
pub open spec fn ids_fit(c: CohortModel, op: CohortOp) -> bool {
    match op {
        CohortOp::Rebuild(Some(f)) => c.timers_running || c.next_timer_id + f.len() <= u64::MAX,
        CohortOp::Reset => c.next_timer_id + c.regimen.len() <= u64::MAX,
        _ => true,
    }
}

pub open spec fn apply_ops(c: CohortModel, ops: Seq<CohortOp>) -> CohortModel
    decreases ops.len(),
{
    if ops.len() == 0 {
        c
    } else {
        apply_op(apply_ops(c, ops.drop_last()), ops.last())
    }
}

/// The operation leaves the regimen alone (it neither builds nor clears).
pub open spec fn keeps_regimen(op: CohortOp) -> bool {
    !(op is Rebuild) && !(op is Clear)
}

// ─── Filters ────────────────────────────────────────────────────────────────
proof fn lemma_filter_all(s: Seq<Timer>, pred: spec_fn(Timer) -> bool, q: spec_fn(Timer) -> bool)
    requires
        forall|i: int| 0 <= i < s.len() ==> q(#[trigger] s[i]),
    ensures
        forall|i: int| 0 <= i < s.filter(pred).len() ==> q(#[trigger] s.filter(pred)[i]),
    decreases s.len(),
{
    reveal(Seq::filter);
    if s.len() > 0 {
        let s2 = s.drop_last();
        assert forall|i: int| 0 <= i < s2.len() implies q(#[trigger] s2[i]) by {
            assert(s2[i] == s[i]);
        }
        lemma_filter_all(s2, pred, q);
        let f2 = s2.filter(pred);
        let f = s.filter(pred);
        assert forall|i: int| 0 <= i < f.len() implies q(#[trigger] f[i]) by {
            if i < f2.len() {
                assert(f[i] == f2[i]);
            } else {
                assert(f[i] == s.last());
                assert(q(s[s.len() - 1]));
            }
        }
    }
}

pub open spec fn ids_increasing(s: Seq<Timer>) -> bool {
    forall|i: int, j: int| 0 <= i < j < s.len() ==> (#[trigger] s[i]).id < (#[trigger] s[j]).id
}

proof fn lemma_filter_ids_increasing(s: Seq<Timer>, pred: spec_fn(Timer) -> bool)
    requires
        ids_increasing(s),
    ensures
        ids_increasing(s.filter(pred)),
    decreases s.len(),
{
    reveal(Seq::filter);
    if s.len() > 0 {
        let s2 = s.drop_last();
        let last = s.last();
        assert(ids_increasing(s2)) by {
            assert forall|i: int, j: int| 0 <= i < j < s2.len() implies (#[trigger] s2[i]).id < (
            #[trigger] s2[j]).id by {
                assert(s2[i] == s[i] && s2[j] == s[j]);
            }
        }
        lemma_filter_ids_increasing(s2, pred);
        let q = |t: Timer| t.id < last.id;
        assert forall|i: int| 0 <= i < s2.len() implies q(#[trigger] s2[i]) by {
            assert(s2[i] == s[i]);
            assert(s[i].id < s[s.len() - 1].id);
        }
        lemma_filter_all(s2, pred, q);
        let f2 = s2.filter(pred);
        let f = s.filter(pred);
        assert forall|i: int, j: int| 0 <= i < j < f.len() implies (#[trigger] f[i]).id < (
        #[trigger] f[j]).id by {
            if j < f2.len() {
                assert(f[i] == f2[i] && f[j] == f2[j]);
            } else {
                assert(f[j] == last);
                assert(f[i] == f2[i]);
                assert(q(f2[i]));
            }
        }
    }
}

proof fn lemma_filter_keeps_wf(c: CohortModel, pred: spec_fn(Timer) -> bool)
    requires
        cohort_wf(c),
    ensures
        cohort_wf(CohortModel { timers: c.timers.filter(pred), ..c }),
{
    let s = c.timers;
    lemma_filter_all(s, pred, |t: Timer| t.inv());
    lemma_filter_all(s, pred, |t: Timer| t.id < c.next_timer_id);
    lemma_filter_ids_increasing(s, pred);
}

proof fn lemma_map_keeps_wf(c: CohortModel, f: spec_fn(Timer) -> Timer)
    requires
        cohort_wf(c),
        forall|t: Timer| t.inv() ==> (#[trigger] f(t)).inv(),
        forall|t: Timer| (#[trigger] f(t)).id == t.id,
    ensures
        cohort_wf(CohortModel { timers: c.timers.map_values(f), ..c }),
{
    let m = c.timers.map_values(f);
    assert forall|i: int, j: int| 0 <= i < j < m.len() implies (#[trigger] m[i]).id < (
    #[trigger] m[j]).id by {
        assert(f(c.timers[i]).id == c.timers[i].id);
        assert(f(c.timers[j]).id == c.timers[j].id);
    }
    assert forall|i: int| 0 <= i < m.len() implies (#[trigger] m[i]).inv() && m[i].id
        < c.next_timer_id by {
        assert(c.timers[i].inv());
        assert(f(c.timers[i]).id == c.timers[i].id);
    }
}

proof fn lemma_schedule_wf(c: CohortModel, f: Seq<u64>)
    requires
        c.next_timer_id + f.len() <= u64::MAX,
    ensures
        cohort_wf(
            CohortModel {
                timers: schedule(f, c.next_timer_id),
                next_timer_id: (c.next_timer_id + f.len()) as u64,
                ..c
            },
        ),
{
}

// ─── The invariant ──────────────────────────────────────────────────────────
/// Every operation keeps a well-formed cohort well formed: running timers
/// have time left, alerting timers have none and are stopped, and ids stay
/// unique, increasing along the list, and below the next id.
pub proof fn law_operations_keep_wf(c: CohortModel, op: CohortOp)
    requires
        cohort_wf(c),
        ids_fit(c, op),
    ensures
        cohort_wf(apply_op(c, op)),
{
    match op {
        CohortOp::Rebuild(f) => {
            if !c.timers_running {
                match f {
                    Some(fs) => lemma_schedule_wf(c, fs),
                    None => {},
                }
            }
        },
        CohortOp::Start => lemma_map_keeps_wf(c, |t: Timer| started(t)),
        CohortOp::Pause => lemma_map_keeps_wf(c, |t: Timer| stopped(t)),
        CohortOp::Reset => {
            if c.regimen.len() == 0 {
                lemma_map_keeps_wf(c, |t: Timer| restored(t));
            } else {
                lemma_schedule_wf(c, c.regimen);
            }
        },
        CohortOp::Clear => {},
        CohortOp::Tick(step) => {
            let f = |t: Timer| advance(t, step);
            lemma_map_keeps_wf(c, f);
            let c1 = CohortModel { timers: c.timers.map_values(f), ..c };
            lemma_filter_keeps_wf(c1, |t: Timer| unmarked(t));
        },
        CohortOp::Adjust(d) => lemma_map_keeps_wf(c, |t: Timer| shifted(t, d)),
        CohortOp::SilenceAlerting => {
            let f = |t: Timer| silence_if_alerting(t);
            lemma_map_keeps_wf(c, f);
            let c1 = CohortModel { timers: c.timers.map_values(f), ..c };
            lemma_filter_keeps_wf(c1, |t: Timer| unmarked(t));
        },
        CohortOp::SilenceTimer(id) => {
            let s = silence_first_id(c.timers, id);
            assert forall|i: int| 0 <= i < s.len() implies (#[trigger] s[i]).inv() && s[i].id
                < c.next_timer_id && s[i].id == c.timers[i].id by {
                assert(c.timers[i].inv());
            }
            assert forall|i: int, j: int| 0 <= i < j < s.len() implies (#[trigger] s[i]).id < (
            #[trigger] s[j]).id by {
                assert(s[i].id == c.timers[i].id);
                assert(s[j].id == c.timers[j].id);
            }
        },
        CohortOp::Cancel(id) => lemma_filter_keeps_wf(c, |t: Timer| t.id != id),
    }
}


// ─── The regimen and reset ──────────────────────────────────────────────────
proof fn lemma_op_keeps_regimen(c: CohortModel, op: CohortOp)
    requires
        keeps_regimen(op),
    ensures
        apply_op(c, op).regimen == c.regimen,
{
}

proof fn lemma_ops_keep_regimen(c: CohortModel, ops: Seq<CohortOp>)
    requires
        forall|i: int| 0 <= i < ops.len() ==> keeps_regimen(#[trigger] ops[i]),
    ensures
        apply_ops(c, ops).regimen == c.regimen,
    decreases ops.len(),
{
    if ops.len() > 0 {
        let rest = ops.drop_last();
        assert forall|i: int| 0 <= i < rest.len() implies keeps_regimen(#[trigger] rest[i]) by {
            assert(rest[i] == ops[i]);
        }
        lemma_ops_keep_regimen(c, rest);
        assert(keeps_regimen(ops[ops.len() - 1]));
        lemma_op_keeps_regimen(apply_ops(c, rest), ops.last());
    }
}

/// Reset restores the whole regimen: after a cohort is built from fire times
/// `f` and then run, paused, adjusted, silenced, cancelled or reset in any
/// order, a reset gives back one stopped timer per fire time, each with its
/// full time and its gap, including the timers that had fired and been removed.
pub proof fn law_reset_restores_regimen(c: CohortModel, f: Seq<u64>, ops: Seq<CohortOp>)
    requires
        !c.timers_running,
        c.next_timer_id + f.len() <= u64::MAX,
        f.len() > 0,
        forall|i: int| 0 <= i < ops.len() ==> keeps_regimen(#[trigger] ops[i]),
        apply_ops(spec_rebuild(c, Some(f)), ops).next_timer_id + f.len() <= u64::MAX,
    ensures
        ({
            let r = spec_reset_all(apply_ops(spec_rebuild(c, Some(f)), ops));
            &&& r.timers.len() == f.len()
            &&& forall|k: int|
                0 <= k < f.len() ==> {
                    &&& (#[trigger] r.timers[k]).total_nanos == f[k]
                    &&& r.timers[k].remaining_nanos == f[k]
                    &&& r.timers[k].gap_nanos == crate::timers::gap_at(f, k)
                    &&& !r.timers[k].is_active
                    &&& !r.timers[k].is_alerting
                    &&& !r.timers[k].marked_for_removal
                }
            &&& r.is_paused
            &&& !r.timers_running
            &&& !r.all_timers_completed
            &&& r.regimen == f
        }),
{
    let b = spec_rebuild(c, Some(f));
    assert(b.regimen == f);
    lemma_ops_keep_regimen(b, ops);
}

// ─── Splitting a countdown ──────────────────────────────────────────────────
/// Counting a timer down by `a` and then by `b` is counting it down by `a + b`.
pub proof fn law_advance_additive(t: Timer, a: nat, b: nat)
    ensures
        advance(advance(t, a), b) == advance(t, a + b),
{
}

proof fn lemma_keep_push(x: Seq<Timer>, y: Timer)
    ensures
        keep_unmarked(x.push(y)) == if unmarked(y) {
            keep_unmarked(x).push(y)
        } else {
            keep_unmarked(x)
        },
{
    reveal(Seq::filter);
    assert(x.push(y).drop_last() =~= x);
}

proof fn lemma_keep_map_commute(s: Seq<Timer>, f: spec_fn(Timer) -> Timer)
    requires
        forall|t: Timer| (#[trigger] f(t)).marked_for_removal == t.marked_for_removal,
    ensures
        keep_unmarked(s.map_values(f)) == keep_unmarked(s).map_values(f),
    decreases s.len(),
{
    reveal(Seq::filter);
    if s.len() == 0 {
        assert(s.map_values(f) =~= Seq::<Timer>::empty());
        assert(keep_unmarked(s).map_values(f) =~= Seq::<Timer>::empty());
    } else {
        let s2 = s.drop_last();
        lemma_keep_map_commute(s2, f);
        assert(s.map_values(f) =~= s2.map_values(f).push(f(s.last())));
        lemma_keep_push(s2.map_values(f), f(s.last()));
        assert(s =~= s2.push(s.last()));
        lemma_keep_push(s2, s.last());
        if unmarked(s.last()) {
            assert(keep_unmarked(s2).push(s.last()).map_values(f) =~= keep_unmarked(s2).map_values(
                f,
            ).push(f(s.last())));
        }
    }
}

proof fn lemma_keep_idempotent(s: Seq<Timer>)
    ensures
        keep_unmarked(keep_unmarked(s)) == keep_unmarked(s),
    decreases s.len(),
{
    reveal(Seq::filter);
    if s.len() > 0 {
        let s2 = s.drop_last();
        lemma_keep_idempotent(s2);
        assert(s =~= s2.push(s.last()));
        lemma_keep_push(s2, s.last());
        if unmarked(s.last()) {
            lemma_keep_push(keep_unmarked(s2), s.last());
        }
    }
}

/// Ticking a cohort by `a` and then by `b` leaves it exactly as ticking it
/// once by `a + b`: the timers, their order, the alerts, and completion.
pub proof fn law_tick_additive(c: CohortModel, a: nat, b: nat)
    ensures
        spec_tick_all(spec_tick_all(c, a), b) == spec_tick_all(c, a + b),
{
    let fa = |t: Timer| advance(t, a);
    let fb = |t: Timer| advance(t, b);
    let fab = |t: Timer| advance(t, a + b);
    let x = c.timers.map_values(fa);
    let t1 = keep_unmarked(x);
    lemma_keep_map_commute(x, fb);
    lemma_keep_idempotent(x.map_values(fb));
    assert(x.map_values(fb) =~= c.timers.map_values(fab));
    assert(keep_unmarked(t1.map_values(fb)) == keep_unmarked(x.map_values(fb))) by {
        lemma_keep_map_commute(x, fb);
    }
    if t1.len() == 0 {
        assert(t1.map_values(fb) =~= Seq::<Timer>::empty());
        reveal(Seq::filter);
    }
}

// ─── Moving timers ──────────────────────────────────────────────────────────
/// Moving the cohort by `d` and then by `-d` gives it back unchanged, as long
/// as no counting timer reaches zero or overflows on the way.
pub proof fn law_adjust_round_trip(c: CohortModel, d: int)
    requires
        forall|i: int|
            0 <= i < c.timers.len() && (#[trigger] c.timers[i]).remaining_nanos > 0
                && !c.timers[i].is_alerting ==> 0 < c.timers[i].remaining_nanos + d <= u64::MAX,
    ensures
        spec_adjust(spec_adjust(c, d), -d) == c,
{
    let r = spec_adjust(spec_adjust(c, d), -d);
    assert(r.timers =~= c.timers);
}

// ─── Pausing ────────────────────────────────────────────────────────────────
/// Starting, pausing and starting again leaves every timer as the first start did.
pub proof fn law_restart_after_pause(c: CohortModel)
    requires
        cohort_wf(c),
    ensures
        spec_start_all(spec_pause_all(spec_start_all(c))) == spec_start_all(c),
{
    let a = spec_start_all(c);
    let r = spec_start_all(spec_pause_all(a));
    assert forall|i: int| 0 <= i < c.timers.len() implies #[trigger] r.timers[i] == a.timers[i] by {
        assert(c.timers[i].inv());
    }
    assert(r.timers =~= a.timers);
}

// ─── Silencing ──────────────────────────────────────────────────────────────
pub open spec fn quiet_and_kept(t: Timer) -> bool {
    !t.is_alerting && !t.marked_for_removal
}

/// The timers neither alerting nor silenced, in order.
pub open spec fn quiet_timers(s: Seq<Timer>) -> Seq<Timer> {
    s.filter(|t: Timer| quiet_and_kept(t))
}

proof fn lemma_silence_filter(s: Seq<Timer>)
    ensures
        keep_unmarked(s.map_values(|t: Timer| silence_if_alerting(t))) == quiet_timers(s),
    decreases s.len(),
{
    reveal(Seq::filter);
    let f = |t: Timer| silence_if_alerting(t);
    if s.len() == 0 {
        assert(s.map_values(f) =~= Seq::<Timer>::empty());
    } else {
        let s2 = s.drop_last();
        lemma_silence_filter(s2);
        assert(s.map_values(f) =~= s2.map_values(f).push(f(s.last())));
        lemma_keep_push(s2.map_values(f), f(s.last()));
    }
}

/// Silencing the alerting timers removes exactly them (and the timers
/// already silenced); every other timer stays, unchanged and in order.
pub proof fn law_silence_removes_exactly_alerting(c: CohortModel)
    ensures
        spec_silence_alerting(c).timers == quiet_timers(c.timers),
        forall|i: int|
            0 <= i < spec_silence_alerting(c).timers.len() ==> !(
            #[trigger] spec_silence_alerting(c).timers[i]).is_alerting,
{
    lemma_silence_filter(c.timers);
    let q = |t: Timer| !t.is_alerting;
    assert forall|i: int| 0 <= i < quiet_timers(c.timers).len() implies q(
        #[trigger] quiet_timers(c.timers)[i],
    ) by {
        c.timers.lemma_filter_pred(|t: Timer| quiet_and_kept(t), i);
    }
}


// ─── Schedules ──────────────────────────────────────────────────────────────
pub open spec fn nondecreasing(f: Seq<u64>) -> bool {
    forall|i: int, j: int| 0 <= i <= j < f.len() ==> f[i] <= f[j]
}

/// The sum of the gaps of the first `k` fire times.
pub open spec fn gap_sum(f: Seq<u64>, k: int) -> int
    decreases k,
{
    if k <= 0 {
        0
    } else {
        gap_sum(f, k - 1) + gap_at(f, k - 1)
    }
}

/// Over nondecreasing fire times, each timer's fire time is the sum of the
/// gaps up to and including its own.
pub proof fn law_gaps_add_up(f: Seq<u64>, k: int)
    requires
        nondecreasing(f),
        0 <= k < f.len(),
    ensures
        gap_sum(f, k + 1) == f[k],
    decreases k,
{
    assert(gap_sum(f, k + 1) == gap_sum(f, k) + gap_at(f, k));
    if k > 0 {
        law_gaps_add_up(f, k - 1);
        assert(f[k - 1] <= f[k]);
    } else {
        assert(gap_sum(f, 0) == 0);
    }
}

/// An evenly spaced cohort starts at the offset (or one interval in when
/// there is none), and every later timer comes one interval after the
/// previous, as long as the last fire time fits in a `u64`.
pub proof fn law_arithmetic_spacing(count: nat, interval: u64, offset: u64, k: int)
    requires
        0 < k < count,
        (if offset > 0 {
            offset as int
        } else {
            interval as int
        }) + (count - 1) * interval <= u64::MAX,
    ensures
        arithmetic_fire(count, interval, offset)[0] == (if offset > 0 {
            offset
        } else {
            interval
        }),
        gap_at(arithmetic_fire(count, interval, offset), k) == interval,
{
    let base: int = if offset > 0 {
        offset as int
    } else {
        interval as int
    };
    assert(k * interval <= (count - 1) * interval) by (nonlinear_arith)
        requires
            k <= count - 1,
    ;
    assert((k - 1) * interval + interval == k * interval) by (nonlinear_arith);
    assert(0 * interval == 0) by (nonlinear_arith);
}

proof fn lemma_cumulative_values(g: Seq<u64>, k: int)
    requires
        0 <= k < g.len(),
        gap_sum_u(g, g.len() as int) <= u64::MAX,
    ensures
        cumulative(g).len() == g.len(),
        cumulative(g)[k] == gap_sum_u(g, k + 1),
    decreases g.len(),
{
    let g2 = g.drop_last();
    lemma_gap_sum_u_monotone(g, g2.len() as int, g.len() as int);
    assert forall|j: int| 0 <= j <= g2.len() implies gap_sum_u(g2, j) == gap_sum_u(g, j) by {
        lemma_gap_sum_u_prefix(g, g2, j);
    }
    if g.len() > 1 {
        if k < g2.len() {
            lemma_cumulative_values(g2, k);
        }
        lemma_cumulative_values(g2, g2.len() - 1);
    } else {
        assert(g2.len() == 0);
        assert(cumulative(g2) =~= Seq::<u64>::empty());
    }
}

/// The sum of the first `k` gaps.
pub open spec fn gap_sum_u(g: Seq<u64>, k: int) -> int
    decreases k,
{
    if k <= 0 {
        0
    } else {
        gap_sum_u(g, k - 1) + g[k - 1]
    }
}

proof fn lemma_gap_sum_u_prefix(g: Seq<u64>, g2: Seq<u64>, j: int)
    requires
        g2.len() <= g.len(),
        forall|i: int| 0 <= i < g2.len() ==> g2[i] == g[i],
        0 <= j <= g2.len(),
    ensures
        gap_sum_u(g2, j) == gap_sum_u(g, j),
    decreases j,
{
    if j > 0 {
        lemma_gap_sum_u_prefix(g, g2, j - 1);
    }
}

proof fn lemma_gap_sum_u_monotone(g: Seq<u64>, i: int, j: int)
    requires
        0 <= i <= j <= g.len(),
    ensures
        gap_sum_u(g, i) <= gap_sum_u(g, j),
    decreases j - i,
{
    if i < j {
        lemma_gap_sum_u_monotone(g, i, j - 1);
    }
}

/// Building a cohort from gaps (as the geometric schedule does) and reading
/// back each timer's gap gives the gaps again, as long as their total fits.
pub proof fn law_cumulative_gaps_round_trip(g: Seq<u64>, k: int)
    requires
        0 <= k < g.len(),
        gap_sum_u(g, g.len() as int) <= u64::MAX,
    ensures
        gap_at(cumulative(g), k) == g[k],
{
    lemma_cumulative_values(g, k);
    assert(gap_sum_u(g, k + 1) == gap_sum_u(g, k) + g[k]);
    if k > 0 {
        lemma_cumulative_values(g, k - 1);
    } else {
        assert(gap_sum_u(g, 0) == 0);
    }
}


// ─── Clearing ───────────────────────────────────────────────────────────────
/// A cleared cohort cannot be brought back: resetting after a clear gives no timers.
pub proof fn law_clear_forgets_regimen(c: CohortModel)
    ensures
        spec_reset_all(spec_clear_all(c)).timers.len() == 0,
        spec_clear_all(c).regimen.len() == 0,
{
    assert(spec_clear_all(c).timers.map_values(|t: Timer| restored(t)).len() == 0);
}

// ─── What timers keep ───────────────────────────────────────────────────────
/// The operation neither builds nor resets: it only moves, stops, starts,
/// silences or removes existing timers.
pub open spec fn keeps_timers(op: CohortOp) -> bool {
    ||| op is Start
    ||| op is Pause
    ||| op is Tick
    ||| op is Adjust
    ||| op is SilenceAlerting
    ||| op is SilenceTimer
    ||| op is Cancel
}

/// `t` is one of `ts` with the same id, fire time and gap.
pub open spec fn same_schedule_as_one_of(t: Timer, ts: Seq<Timer>) -> bool {
    exists|j: int|
        0 <= j < ts.len() && (#[trigger] ts[j]).id == t.id && ts[j].total_nanos == t.total_nanos
            && ts[j].gap_nanos == t.gap_nanos
}

proof fn lemma_map_keeps_schedule(s: Seq<Timer>, f: spec_fn(Timer) -> Timer)
    requires
        forall|t: Timer|
            (#[trigger] f(t)).id == t.id && f(t).total_nanos == t.total_nanos && f(t).gap_nanos
                == t.gap_nanos,
    ensures
        forall|i: int|
            0 <= i < s.map_values(f).len() ==> same_schedule_as_one_of(
                #[trigger] s.map_values(f)[i],
                s,
            ),
{
    assert forall|i: int| 0 <= i < s.map_values(f).len() implies same_schedule_as_one_of(
        #[trigger] s.map_values(f)[i],
        s,
    ) by {
        assert(s.map_values(f)[i] == f(s[i]));
        assert(f(s[i]).id == s[i].id);
    }
}

/// A timer's fire time and gap are fixed when it is built: running,
/// pausing, moving, silencing or cancelling timers never changes them, and
/// never invents a timer (every remaining timer is one that was there, with
/// the same id, fire time and gap).
pub proof fn law_ops_keep_schedule(c: CohortModel, op: CohortOp)
    requires
        keeps_timers(op),
    ensures
        forall|i: int|
            0 <= i < apply_op(c, op).timers.len() ==> same_schedule_as_one_of(
                #[trigger] apply_op(c, op).timers[i],
                c.timers,
            ),
{
    let s = c.timers;
    match op {
        CohortOp::Start => lemma_map_keeps_schedule(s, |t: Timer| started(t)),
        CohortOp::Pause => lemma_map_keeps_schedule(s, |t: Timer| stopped(t)),
        CohortOp::Adjust(d) => lemma_map_keeps_schedule(s, |t: Timer| shifted(t, d)),
        CohortOp::Tick(step) => {
            let f = |t: Timer| advance(t, step);
            lemma_map_keeps_schedule(s, f);
            let m = s.map_values(f);
            let q = |t: Timer| same_schedule_as_one_of(t, s);
            assert forall|i: int| 0 <= i < m.len() implies q(#[trigger] m[i]) by {}
            lemma_filter_all(m, |t: Timer| unmarked(t), q);
        },
        CohortOp::SilenceAlerting => {
            let f = |t: Timer| silence_if_alerting(t);
            lemma_map_keeps_schedule(s, f);
            let m = s.map_values(f);
            let q = |t: Timer| same_schedule_as_one_of(t, s);
            assert forall|i: int| 0 <= i < m.len() implies q(#[trigger] m[i]) by {}
            lemma_filter_all(m, |t: Timer| unmarked(t), q);
        },
        CohortOp::SilenceTimer(id) => {
            let r = silence_first_id(s, id);
            assert forall|i: int| 0 <= i < r.len() implies same_schedule_as_one_of(
                #[trigger] r[i],
                s,
            ) by {
                assert(r[i].id == s[i].id);
            }
        },
        CohortOp::Cancel(id) => {
            let q = |t: Timer| same_schedule_as_one_of(t, s);
            assert forall|i: int| 0 <= i < s.len() implies q(#[trigger] s[i]) by {
                assert(s[i].id == s[i].id);
            }
            lemma_filter_all(s, |t: Timer| t.id != id, q);
        },
        _ => {},
    }
}

// ─── Built cohorts ──────────────────────────────────────────────────────────
proof fn lemma_push_nondecreasing(p: Seq<u64>, x: u64)
    requires
        nondecreasing(p),
        p.len() == 0 || p.last() <= x,
    ensures
        nondecreasing(p.push(x)),
{
    let q = p.push(x);
    assert forall|i: int, j: int| 0 <= i <= j < q.len() implies q[i] <= q[j] by {
        if j == p.len() && i < p.len() {
            assert(p[i] <= p[p.len() - 1]);
        } else if j < p.len() {
            assert(q[i] == p[i] && q[j] == p[j]);
        }
    }
}

proof fn lemma_cumulative_nondecreasing(g: Seq<u64>)
    ensures
        nondecreasing(cumulative(g)),
    decreases g.len(),
{
    if g.len() > 0 {
        lemma_cumulative_nondecreasing(g.drop_last());
        let p = cumulative(g.drop_last());
        let prev: nat = if p.len() == 0 {
            0
        } else {
            p.last() as nat
        };
        let next: nat = prev + (g.last() as nat);
        let x: u64 = if next <= u64::MAX {
            next as u64
        } else {
            u64::MAX
        };
        lemma_push_nondecreasing(p, x);
    } else {
        assert(cumulative(g) =~= Seq::<u64>::empty());
    }
}

/// The fire times the library builds never go backwards: evenly spaced ones,
/// ones accumulated from gaps, and geometric ones with their first gap set
/// by the offset or the interval.
pub proof fn law_built_fire_times_nondecreasing(
    count: nat,
    interval: u64,
    offset: u64,
    tail_gaps: Seq<u64>,
)
    ensures
        nondecreasing(arithmetic_fire(count, interval, offset)),
        nondecreasing(cumulative(tail_gaps)),
        nondecreasing(cumulative(geometric_gaps(tail_gaps, interval, offset))),
{
    let f = arithmetic_fire(count, interval, offset);
    let base: int = if offset > 0 {
        offset as int
    } else {
        interval as int
    };
    assert forall|i: int, j: int| 0 <= i <= j < f.len() implies f[i] <= f[j] by {
        assert(i * interval <= j * interval) by (nonlinear_arith)
            requires
                0 <= i <= j,
        ;
    }
    lemma_cumulative_nondecreasing(tail_gaps);
    lemma_cumulative_nondecreasing(geometric_gaps(tail_gaps, interval, offset));
}

/// A rebuilt cohort has one stopped, unfired timer per fire time, numbered
/// on from the next id, each with its fire time as both total and remaining
/// time; the fire times are remembered for resets. The first timer's gap is
/// its fire time, and over fire times that never go backwards (all the
/// library builds, see `law_built_fire_times_nondecreasing`) the totals
/// never decrease and each later gap is the difference of consecutive totals.
pub proof fn law_rebuilt_cohort(c: CohortModel, f: Seq<u64>)
    requires
        !c.timers_running,
        c.next_timer_id + f.len() <= u64::MAX,
    ensures
        ({
            let r = spec_rebuild(c, Some(f));
            &&& r.timers.len() == f.len()
            &&& r.next_timer_id == c.next_timer_id + f.len()
            &&& r.regimen == f
            &&& !r.timers_running
            &&& forall|i: int|
                0 <= i < f.len() ==> {
                    let t = #[trigger] r.timers[i];
                    &&& t.id == c.next_timer_id + i
                    &&& t.total_nanos == f[i]
                    &&& t.remaining_nanos == f[i]
                    &&& !t.is_active && !t.is_alerting && !t.marked_for_removal
                }
            &&& f.len() > 0 ==> r.timers[0].gap_nanos == r.timers[0].total_nanos
            &&& nondecreasing(f) ==> forall|i: int, j: int|
                0 <= i <= j < f.len() ==> (#[trigger] r.timers[i]).total_nanos <= (
                #[trigger] r.timers[j]).total_nanos
            &&& nondecreasing(f) ==> forall|i: int|
                0 < i < f.len() ==> (#[trigger] r.timers[i]).gap_nanos == r.timers[i].total_nanos
                    - r.timers[i - 1].total_nanos
        }),
{
    let r = spec_rebuild(c, Some(f));
    if nondecreasing(f) {
        assert forall|i: int| 0 < i < f.len() implies (#[trigger] r.timers[i]).gap_nanos
            == r.timers[i].total_nanos - r.timers[i - 1].total_nanos by {
            assert(f[i - 1] <= f[i]);
        }
    }
}

// ─── A whole tick ───────────────────────────────────────────────────────────
/// `after` is `before` counted down by `step`: same id, and a running timer
/// with time left has that much less, stopping at zero.
pub open spec fn ticked_from(before: Timer, after: Timer, step: nat) -> bool {
    &&& after == advance(before, step)
    &&& after.id == before.id
    &&& before.is_active && before.remaining_nanos > 0 ==> after.remaining_nanos == if step
        >= before.remaining_nanos {
        0
    } else {
        before.remaining_nanos - step
    }
}

/// A tick counts every timer down by the same step and then drops the
/// silenced ones: each timer left is one that was there, counted down, and
/// not silenced; every timer not silenced is still there; the order of the
/// timers is kept; and a running cohort that empties has completed.
pub proof fn law_tick_whole(c: CohortModel, step: nat)
    ensures
        ({
            let r = spec_tick_all(c, step);
            &&& forall|i: int|
                0 <= i < r.timers.len() ==> !(#[trigger] r.timers[i]).marked_for_removal && exists|
                    j: int,
                | 0 <= j < c.timers.len() && ticked_from(#[trigger] c.timers[j], r.timers[i], step)
            &&& forall|j: int|
                0 <= j < c.timers.len() && !(#[trigger] c.timers[j]).marked_for_removal
                    ==> r.timers.contains(advance(c.timers[j], step))
            &&& cohort_wf(c) ==> cohort_wf(r) && ids_increasing(r.timers)
            &&& r.timers.len() == 0 ==> !r.timers_running
            &&& c.timers_running && r.timers.len() == 0 ==> r.all_timers_completed
            &&& r.timers.len() > 0 ==> r.timers_running == c.timers_running
                && r.all_timers_completed == c.all_timers_completed
        }),
{
    let r = spec_tick_all(c, step);
    let x = c.timers.map_values(|t: Timer| advance(t, step));
    let p = |t: Timer| unmarked(t);
    assert(r.timers == x.filter(p));
    assert forall|i: int| 0 <= i < r.timers.len() implies !(#[trigger] r.timers[i]).marked_for_removal
        && exists|j: int| 0 <= j < c.timers.len() && ticked_from(
        #[trigger] c.timers[j],
        r.timers[i],
        step,
    ) by {
        x.lemma_filter_pred(p, i);
        x.lemma_filter_contains_rev(p, r.timers[i]);
        let j = choose|j: int| 0 <= j < x.len() && x[j] == r.timers[i];
        assert(ticked_from(c.timers[j], r.timers[i], step));
    }
    assert forall|j: int|
        0 <= j < c.timers.len() && !(#[trigger] c.timers[j]).marked_for_removal implies r.timers.contains(
        advance(c.timers[j], step),
    ) by {
        assert(x[j] == advance(c.timers[j], step));
        assert(p(x[j]));
        x.lemma_filter_contains(p, j);
    }
    if cohort_wf(c) {
        law_operations_keep_wf(c, CohortOp::Tick(step));
        assert(apply_op(c, CohortOp::Tick(step)) == r);
    }
}

/// What a frame's tick leaves: the cohort ticked by `step`, then, when the
/// alert logic silences (no sound to play for a new alert, or its repeats
/// used up), with its alerting timers silenced.
pub open spec fn spec_tick_step(c: CohortModel, step: nat, silence: bool) -> CohortModel {
    let t = spec_tick_all(c, step);
    if silence {
        spec_silence_alerting(t)
    } else {
        t
    }
}

/// A whole tick, silencing included: each timer left was there, counted
/// down by the step, and is neither silenced nor (when silencing) alerting;
/// every other timer that was there is still there; the cohort stays well
/// formed and in order; and a running cohort that empties has completed.
pub proof fn law_tick_step(c: CohortModel, step: nat, silence: bool)
    ensures
        ({
            let r = spec_tick_step(c, step, silence);
            &&& forall|i: int|
                0 <= i < r.timers.len() ==> !(#[trigger] r.timers[i]).marked_for_removal && (silence
                    ==> !r.timers[i].is_alerting) && exists|j: int|
                    0 <= j < c.timers.len() && ticked_from(#[trigger] c.timers[j], r.timers[i], step)
            &&& forall|j: int|
                0 <= j < c.timers.len() && !(#[trigger] c.timers[j]).marked_for_removal && !(silence
                    && advance(c.timers[j], step).is_alerting) ==> r.timers.contains(
                    advance(c.timers[j], step),
                )
            &&& cohort_wf(c) ==> cohort_wf(r)
            &&& r.timers.len() == 0 ==> !r.timers_running
            &&& c.timers_running && r.timers.len() == 0 ==> r.all_timers_completed
        }),
{
    law_tick_whole(c, step);
    let t = spec_tick_all(c, step);
    if silence {
        let r = spec_silence_alerting(t);
        let y = t.timers.map_values(|x: Timer| silence_if_alerting(x));
        let p = |x: Timer| unmarked(x);
        assert(r.timers == y.filter(p));
        assert forall|i: int| 0 <= i < r.timers.len() implies !(#[trigger] r.timers[i]).marked_for_removal
            && !r.timers[i].is_alerting && exists|j: int|
            0 <= j < c.timers.len() && ticked_from(#[trigger] c.timers[j], r.timers[i], step) by {
            y.lemma_filter_pred(p, i);
            y.lemma_filter_contains_rev(p, r.timers[i]);
            let k = choose|k: int| 0 <= k < y.len() && y[k] == r.timers[i];
            assert(t.timers[k] == r.timers[i]);
            assert(!(#[trigger] t.timers[k]).marked_for_removal && exists|j: int|
                0 <= j < c.timers.len() && ticked_from(#[trigger] c.timers[j], t.timers[k], step));
        }
        assert forall|j: int|
            0 <= j < c.timers.len() && !(#[trigger] c.timers[j]).marked_for_removal && !(silence
                && advance(c.timers[j], step).is_alerting) implies r.timers.contains(
            advance(c.timers[j], step),
        ) by {
            let a = advance(c.timers[j], step);
            assert(t.timers.contains(a));
            let k = choose|k: int| 0 <= k < t.timers.len() && t.timers[k] == a;
            assert(y[k] == a);
            assert(p(y[k]));
            y.lemma_filter_contains(p, k);
        }
        if cohort_wf(c) {
            law_operations_keep_wf(t, CohortOp::SilenceAlerting);
            assert(apply_op(t, CohortOp::SilenceAlerting) == r);
        }
    }
}

// ─── What each operation does to a timer ────────────────────────────────────
/// A tick at `speed_pct` percent speed of `dt_nanos` takes exactly
/// `dt_nanos * speed_pct / 100` nanoseconds (rounded down) off a running
/// timer with time left, stopping at zero, where it stops and alerts; a timer
/// that is not running, or has no time left, is not touched.
pub proof fn law_tick_takes_scaled_time(t: Timer, dt_nanos: u64, speed_pct: u32)
    ensures
        ({
            let taken: int = (dt_nanos as int * speed_pct as int) / 100;
            let after = advance(t, step_nanos(dt_nanos, speed_pct));
            &&& t.is_active && t.remaining_nanos > 0 ==> {
                &&& after.remaining_nanos == (if taken >= t.remaining_nanos {
                    0
                } else {
                    t.remaining_nanos - taken
                })
                &&& taken >= t.remaining_nanos ==> after.is_alerting && !after.is_active
                &&& taken < t.remaining_nanos ==> after.is_alerting == t.is_alerting
                    && after.is_active
                &&& fires(t, step_nanos(dt_nanos, speed_pct)) == (taken >= t.remaining_nanos)
            }
            &&& !(t.is_active && t.remaining_nanos > 0) ==> after == t && !fires(
                t,
                step_nanos(dt_nanos, speed_pct),
            )
            &&& after.id == t.id && after.total_nanos == t.total_nanos && after.gap_nanos
                == t.gap_nanos && after.marked_for_removal == t.marked_for_removal
        }),
{
    let taken: int = (dt_nanos as int * speed_pct as int) / 100;
    let prod: nat = (dt_nanos as nat) * (speed_pct as nat);
    assert(prod == dt_nanos as int * speed_pct as int);
    assert(step_nanos(dt_nanos, speed_pct) == prod / 100);
    assert(step_nanos(dt_nanos, speed_pct) as int == taken);
}

/// Moving time by `delta` moves every timer that has time left and is not
/// alerting, running or paused alike, to its time plus `delta` (stopping at
/// zero and at the largest count); one that reaches zero stops and alerts,
/// and that is exactly when the move reports a new alert. Other timers are
/// not touched.
pub proof fn law_adjust_moves_every_counting_timer(c: CohortModel, delta: int)
    ensures
        spec_adjust(c, delta).timers.len() == c.timers.len(),
        forall|i: int|
            0 <= i < c.timers.len() ==> {
                let t = #[trigger] c.timers[i];
                let r = spec_adjust(c, delta).timers[i];
                let v = t.remaining_nanos + delta;
                let moved: int = if v <= 0 {
                    0
                } else if v > u64::MAX {
                    u64::MAX as int
                } else {
                    v
                };
                &&& t.remaining_nanos > 0 && !t.is_alerting ==> {
                    &&& r.remaining_nanos == moved
                    &&& moved == 0 ==> r.is_alerting && !r.is_active
                    &&& moved > 0 ==> r.is_active == t.is_active && !r.is_alerting
                    &&& r.id == t.id && r.total_nanos == t.total_nanos && r.gap_nanos == t.gap_nanos
                }
                &&& !(t.remaining_nanos > 0 && !t.is_alerting) ==> r == t
                &&& shift_fires(t, delta) == (t.remaining_nanos > 0 && !t.is_alerting && v <= 0)
            },
{
}

/// Pausing stops every timer and changes nothing else about it, so no
/// countdown moves any timer until the cohort is started again.
pub proof fn law_pause_stops_every_timer(c: CohortModel, step: nat)
    ensures
        spec_pause_all(c).timers.len() == c.timers.len(),
        spec_pause_all(c).is_paused,
        forall|i: int|
            0 <= i < c.timers.len() ==> {
                let t = #[trigger] c.timers[i];
                let p = spec_pause_all(c).timers[i];
                &&& !p.is_active
                &&& p.remaining_nanos == t.remaining_nanos && p.is_alerting == t.is_alerting
                &&& p.id == t.id && p.total_nanos == t.total_nanos && p.gap_nanos == t.gap_nanos
                &&& p.marked_for_removal == t.marked_for_removal
                &&& advance(p, step) == p
            },
{
}

/// Starting runs every timer that has time left and is not alerting, leaves
/// every other timer as it was, and marks the cohort running and not
/// completed.
pub proof fn law_start_runs_every_waiting_timer(c: CohortModel)
    ensures
        spec_start_all(c).timers.len() == c.timers.len(),
        spec_start_all(c).timers_running,
        !spec_start_all(c).is_paused,
        !spec_start_all(c).all_timers_completed,
        forall|i: int|
            0 <= i < c.timers.len() ==> {
                let t = #[trigger] c.timers[i];
                let r = spec_start_all(c).timers[i];
                &&& t.remaining_nanos > 0 && !t.is_alerting ==> r.is_active
                &&& r.remaining_nanos == t.remaining_nanos && r.is_alerting == t.is_alerting
                &&& r.id == t.id && r.total_nanos == t.total_nanos && r.gap_nanos == t.gap_nanos
                &&& r.marked_for_removal == t.marked_for_removal
                &&& !(t.remaining_nanos > 0 && !t.is_alerting) ==> r == t
            },
{
}

spec fn counting(t: Timer) -> bool {
    !t.is_alerting && t.remaining_nanos > 0
}

/// `k` is the first of `ts[..n]` counting toward an alert with the least time left.
spec fn least_counting(ts: Seq<Timer>, n: int, k: int) -> bool {
    &&& 0 <= k < n
    &&& counting(ts[k])
    &&& forall|j: int|
        0 <= j < n && counting(#[trigger] ts[j]) ==> ts[k].remaining_nanos <= ts[j].remaining_nanos
    &&& forall|j: int|
        0 <= j < k && counting(#[trigger] ts[j]) ==> ts[k].remaining_nanos < ts[j].remaining_nanos
}

proof fn lemma_least_counting_exists(ts: Seq<Timer>, n: int) -> (k: int)
    requires
        0 <= n <= ts.len(),
        exists|j: int| 0 <= j < n && counting(#[trigger] ts[j]),
    ensures
        least_counting(ts, n, k),
    decreases n,
{
    let m = n - 1;
    if exists|j: int| 0 <= j < m && counting(#[trigger] ts[j]) {
        let k0 = lemma_least_counting_exists(ts, m);
        if counting(ts[m]) && ts[m].remaining_nanos < ts[k0].remaining_nanos {
            assert forall|j: int| 0 <= j < n && counting(#[trigger] ts[j]) implies ts[m].remaining_nanos
                <= ts[j].remaining_nanos by {
                if j < m {
                    assert(ts[k0].remaining_nanos <= ts[j].remaining_nanos);
                }
            }
            assert forall|j: int| 0 <= j < m && counting(#[trigger] ts[j]) implies ts[m].remaining_nanos
                < ts[j].remaining_nanos by {
                assert(ts[k0].remaining_nanos <= ts[j].remaining_nanos);
            }
            m
        } else {
            k0
        }
    } else {
        assert forall|j: int| 0 <= j < n && counting(#[trigger] ts[j]) implies j == m by {}
        m
    }
}

/// The next timer due is the first of those still counting toward an alert
/// (time left, not alerting) with the least time left; there is none exactly
/// when no timer is counting.
pub proof fn law_next_due_is_least_pending(ts: Seq<Timer>)
    ensures
        spec_next_due(ts) is None <==> forall|j: int|
            0 <= j < ts.len() ==> (#[trigger] ts[j]).is_alerting || ts[j].remaining_nanos == 0,
        spec_next_due(ts) matches Some(id) ==> exists|k: int|
            {
                &&& 0 <= k < ts.len() && (#[trigger] ts[k]).id == id
                &&& !ts[k].is_alerting && ts[k].remaining_nanos > 0
                &&& forall|j: int|
                    0 <= j < ts.len() && !ts[j].is_alerting && ts[j].remaining_nanos > 0
                        ==> ts[k].remaining_nanos <= #[trigger] ts[j].remaining_nanos
                &&& forall|j: int|
                    0 <= j < k && !ts[j].is_alerting && ts[j].remaining_nanos > 0
                        ==> ts[k].remaining_nanos < #[trigger] ts[j].remaining_nanos
            },
{
    if exists|j: int| 0 <= j < ts.len() && counting(#[trigger] ts[j]) {
        let k = lemma_least_counting_exists(ts, ts.len() as int);
        assert(is_next_due(ts, k));
        let w = choose|k: int| is_next_due(ts, k);
        assert(is_next_due(ts, w));
    } else {
        if exists|k: int| is_next_due(ts, k) {
            let w = choose|k: int| is_next_due(ts, k);
            assert(counting(ts[w]));
        }
    }
}

/// Silencing a row silences the first timer with that id (it stops alerting
/// and is removed on the next tick) and leaves every other timer as it was;
/// cancelling a row removes every timer with that id and keeps the others
/// in order.
pub proof fn law_row_silence_and_cancel(c: CohortModel, id: u64)
    ensures
        spec_silence_timer(c, id).timers.len() == c.timers.len(),
        forall|i: int|
            0 <= i < c.timers.len() ==> {
                let t = #[trigger] c.timers[i];
                let r = spec_silence_timer(c, id).timers[i];
                let first = t.id == id && forall|j: int| 0 <= j < i ==> c.timers[j].id != id;
                &&& first ==> !r.is_alerting && r.marked_for_removal && r.id == t.id
                    && r.remaining_nanos == t.remaining_nanos && r.total_nanos == t.total_nanos
                    && r.is_active == t.is_active
                &&& !first ==> r == t
            },
        forall|i: int|
            0 <= i < spec_cancel_timer(c, id).timers.len() ==> (
            #[trigger] spec_cancel_timer(c, id).timers[i]).id != id
                && c.timers.contains(spec_cancel_timer(c, id).timers[i]),
        forall|j: int|
            0 <= j < c.timers.len() && (#[trigger] c.timers[j]).id != id
                ==> spec_cancel_timer(c, id).timers.contains(c.timers[j]),
{
    let p = |t: Timer| t.id != id;
    let f = c.timers.filter(p);
    assert(spec_cancel_timer(c, id).timers == f);
    assert forall|i: int| 0 <= i < f.len() implies (#[trigger] f[i]).id != id && c.timers.contains(
        f[i],
    ) by {
        c.timers.lemma_filter_pred(p, i);
        c.timers.lemma_filter_contains_rev(p, f[i]);
    }
    assert forall|j: int| 0 <= j < c.timers.len() && (#[trigger] c.timers[j]).id != id implies f.contains(
        c.timers[j],
    ) by {
        c.timers.lemma_filter_contains(p, j);
    }
}

} // verus!
