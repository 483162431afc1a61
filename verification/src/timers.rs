//! Timers and the cohort they form: building a cohort from fire times,
//! counting down, alerting, silencing, pausing, resetting, and clearing.
//! Time is kept in whole nanoseconds.
use vstd::prelude::*;
use crate::timetext::{clock_text, format_clock, whole_secs, NANOS_PER_SEC};

verus! {

/// One countdown of a cohort.
#[derive(Clone, Copy)]
pub struct Timer {
    pub id: u64,
    /// Time from the start of the cohort until this timer fires.
    pub total_nanos: u64,
    pub remaining_nanos: u64,
    /// Time between the previous timer firing (or the start) and this one firing.
    pub gap_nanos: u64,
    pub is_active: bool,
    pub is_alerting: bool,
    pub marked_for_removal: bool,
}

/// The countdown a time step of `dt_nanos` amounts to at `speed_pct` percent speed.
pub open spec fn step_nanos(dt_nanos: u64, speed_pct: u32) -> nat {
    ((dt_nanos as nat) * (speed_pct as nat)) / 100
}

/// The full product of two 64-bit counts.
fn mul_wide(a: u64, b: u64) -> (r: u128)
    ensures
        r == a as int * b as int,
        r <= 0xffff_ffff_ffff_fffe_0000_0000_0000_0001u128,
{
    assert(a as int * b as int <= u64::MAX as int * u64::MAX as int) by (nonlinear_arith);
    assert(u64::MAX as int * u64::MAX as int == 0xffff_ffff_ffff_fffe_0000_0000_0000_0001int);
    (a as u128) * (b as u128)
}

/// Whether a countdown of `step` makes `t` fire.
pub open spec fn fires(t: Timer, step: nat) -> bool {
    t.is_active && t.remaining_nanos > 0 && step >= t.remaining_nanos
}

/// `t` after counting down `step` nanoseconds: only a running timer with time
/// left moves; reaching zero stops it and starts its alert.
pub open spec fn advance(t: Timer, step: nat) -> Timer {
    if t.is_active && t.remaining_nanos > 0 {
        if step >= t.remaining_nanos {
            Timer { remaining_nanos: 0, is_active: false, is_alerting: true, ..t }
        } else {
            Timer { remaining_nanos: (t.remaining_nanos - step) as u64, ..t }
        }
    } else {
        t
    }
}

/// `t` after its alert is silenced: no longer alerting, and due to be removed.
pub open spec fn silenced(t: Timer) -> Timer {
    Timer { is_alerting: false, marked_for_removal: true, ..t }
}

/// `t` moved by `delta` nanoseconds (clamped at zero and at the largest count),
/// when it still has time left and is not alerting; reaching zero starts its alert.
pub open spec fn shifted(t: Timer, delta: int) -> Timer {
    if t.remaining_nanos > 0 && !t.is_alerting {
        let moved = t.remaining_nanos + delta;
        let r: u64 = if moved <= 0 {
            0
        } else if moved > u64::MAX {
            u64::MAX
        } else {
            moved as u64
        };
        if r == 0 {
            Timer { remaining_nanos: 0, is_active: false, is_alerting: true, ..t }
        } else {
            Timer { remaining_nanos: r, ..t }
        }
    } else {
        t
    }
}

impl Timer {
    /// A running timer has time left; an alerting one has none and is not running.
    pub open spec fn inv(self) -> bool {
        &&& self.is_active ==> self.remaining_nanos > 0 && !self.is_alerting
        &&& self.is_alerting ==> self.remaining_nanos == 0 && !self.is_active
    }

    /// A fresh, stopped timer.
    pub fn new(id: u64, duration_nanos: u64, gap_nanos: u64) -> (t: Timer)
        ensures
            t == (Timer {
                id,
                total_nanos: duration_nanos,
                remaining_nanos: duration_nanos,
                gap_nanos,
                is_active: false,
                is_alerting: false,
                marked_for_removal: false,
            }),
    {
        Timer {
            id,
            total_nanos: duration_nanos,
            remaining_nanos: duration_nanos,
            gap_nanos,
            is_active: false,
            is_alerting: false,
            marked_for_removal: false,
        }
    }

    /// Counts down `dt_nanos` at `speed_pct` percent speed. Returns whether
    /// the timer fired (its alert just started).
    pub fn tick(&mut self, dt_nanos: u64, speed_pct: u32) -> (alerted: bool)
        ensures
            *final(self) == advance(*old(self), step_nanos(dt_nanos, speed_pct)),
            alerted == fires(*old(self), step_nanos(dt_nanos, speed_pct)),
    {
        if self.is_active && self.remaining_nanos > 0 {
            let prod: u128 = mul_wide(dt_nanos, speed_pct as u64);
            let step: u128 = prod / 100;
            if step >= self.remaining_nanos as u128 {
                self.remaining_nanos = 0;
                self.is_active = false;
                self.is_alerting = true;
                return true;
            } else {
                self.remaining_nanos = self.remaining_nanos - (step as u64);
            }
        }
        false
    }

    /// Ends the alert; the timer is then removed from its cohort.
    pub fn silence(&mut self)
        ensures
            *final(self) == silenced(*old(self)),
    {
        self.is_alerting = false;
        self.marked_for_removal = true;
    }

    /// Remaining time as a clock string (whole seconds).
    pub fn format_time(&self) -> (r: String)
        ensures
            r@ == clock_text(whole_secs(self.remaining_nanos as nat)),
    {
        format_clock(self.remaining_nanos / NANOS_PER_SEC)
    }
}

// ─── Schedules ──────────────────────────────────────────────────────────────
/// The gap before the `k`-th fire time: the distance from the previous one
/// (from the start for the first), or zero if the times go backwards.
pub open spec fn gap_at(fire: Seq<u64>, k: int) -> u64 {
    if k == 0 {
        fire[0]
    } else if fire[k] >= fire[k - 1] {
        (fire[k] - fire[k - 1]) as u64
    } else {
        0
    }
}

/// Stopped timers firing at the given times, numbered from `first_id`.
pub open spec fn schedule(fire: Seq<u64>, first_id: u64) -> Seq<Timer> {
    Seq::new(
        fire.len(),
        |k: int|
            Timer {
                id: (first_id + k) as u64,
                total_nanos: fire[k],
                remaining_nanos: fire[k],
                gap_nanos: gap_at(fire, k),
                is_active: false,
                is_alerting: false,
                marked_for_removal: false,
            },
    )
}

/// Fire times of an evenly spaced cohort of `count` timers: the first fires
/// at the offset if there is one, else after one interval; each later one a
/// further interval on. Times saturate at the largest count.
pub open spec fn arithmetic_fire(count: nat, interval: u64, offset: u64) -> Seq<u64> {
    let base: nat = if offset > 0 {
        offset as nat
    } else {
        interval as nat
    };
    Seq::new(
        count,
        |k: int|
            if base + k * interval <= u64::MAX {
                (base + k * interval) as u64
            } else {
                u64::MAX
            },
    )
}

/// Fire times of an evenly spaced cohort.
pub fn arithmetic_fire_times(count: u32, interval_nanos: u64, offset_nanos: u64) -> (r: Vec<u64>)
    ensures
        r@ == arithmetic_fire(count as nat, interval_nanos, offset_nanos),
{
    let base: u64 = if offset_nanos > 0 {
        offset_nanos
    } else {
        interval_nanos
    };
    let ghost spec = arithmetic_fire(count as nat, interval_nanos, offset_nanos);
    let mut out: Vec<u64> = Vec::new();
    for i in 0..count
        invariant
            spec == arithmetic_fire(count as nat, interval_nanos, offset_nanos),
            base == (if offset_nanos > 0 {
                offset_nanos
            } else {
                interval_nanos
            }),
            out@ == spec.take(i as int),
    {
        let prod: u128 = mul_wide(i as u64, interval_nanos);
        let sum: u128 = (base as u128) + prod;
        let v: u64 = if sum <= 0xffff_ffff_ffff_ffff {
            sum as u64
        } else {
            0xffff_ffff_ffff_ffff
        };
        out.push(v);
        assert(out@ =~= spec.take(i + 1));
    }
    assert(spec.take(count as int) =~= spec);
    out
}

/// Cumulative fire times of a cohort given the gap before each timer
/// (saturating at the largest count).
pub open spec fn cumulative(gaps: Seq<u64>) -> Seq<u64>
    decreases gaps.len(),
{
    if gaps.len() == 0 {
        Seq::<u64>::empty()
    } else {
        let p = cumulative(gaps.drop_last());
        let prev: nat = if p.len() == 0 {
            0
        } else {
            p.last() as nat
        };
        let next: nat = prev + (gaps.last() as nat);
        p.push(
            if next <= u64::MAX {
                next as u64
            } else {
                u64::MAX
            },
        )
    }
}

proof fn lemma_cumulative_len(gaps: Seq<u64>)
    ensures
        cumulative(gaps).len() == gaps.len(),
    decreases gaps.len(),
{
    if gaps.len() > 0 {
        lemma_cumulative_len(gaps.drop_last());
    }
}

/// Fire times from the gaps between consecutive timers.
pub fn cumulative_fire_times(gaps: &Vec<u64>) -> (r: Vec<u64>)
    ensures
        r@ == cumulative(gaps@),
{
    let mut out: Vec<u64> = Vec::new();
    let mut acc: u64 = 0;
    for i in 0..gaps.len()
        invariant
            out@ == cumulative(gaps@.take(i as int)),
            out@.len() == i,
            acc == (if i == 0 {
                0
            } else {
                out@.last()
            }),
    {
        let sum: u128 = (acc as u128) + (gaps[i] as u128);
        let v: u64 = if sum <= 0xffff_ffff_ffff_ffff {
            sum as u64
        } else {
            0xffff_ffff_ffff_ffff
        };
        proof {
            lemma_cumulative_len(gaps@.take(i as int));
            assert(gaps@.take(i + 1).drop_last() =~= gaps@.take(i as int));
        }
        out.push(v);
        acc = v;
    }
    assert(gaps@.take(gaps.len() as int) =~= gaps@);
    out
}

/// Gaps of a geometric cohort: the first is the offset when there is one,
/// else the base interval; the later ones follow as given (the offset
/// replaces only the first gap, so the tail keeps its spacing).
pub open spec fn geometric_gaps(tail_gaps: Seq<u64>, interval: u64, offset: u64) -> Seq<u64> {
    seq![if offset > 0 { offset } else { interval }] + tail_gaps
}

/// Fire times of a geometric cohort from the gaps after the first.
pub fn geometric_fire_times(tail_gaps: &Vec<u64>, interval_nanos: u64, offset_nanos: u64) -> (r:
    Vec<u64>)
    ensures
        r@ == cumulative(geometric_gaps(tail_gaps@, interval_nanos, offset_nanos)),
{
    let first: u64 = if offset_nanos > 0 {
        offset_nanos
    } else {
        interval_nanos
    };
    let mut gaps: Vec<u64> = Vec::new();
    gaps.push(first);
    for i in 0..tail_gaps.len()
        invariant
            gaps@ == seq![first] + tail_gaps@.take(i as int),
    {
        gaps.push(tail_gaps[i]);
        assert(gaps@ =~= seq![first] + tail_gaps@.take(i + 1));
    }
    assert(tail_gaps@.take(tail_gaps.len() as int) =~= tail_gaps@);
    cumulative_fire_times(&gaps)
}

// ─── Cohort ─────────────────────────────────────────────────────────────────
/// Abstract state of a cohort.
pub struct CohortModel {
    pub timers: Seq<Timer>,
    pub next_timer_id: u64,
    pub is_paused: bool,
    pub timers_running: bool,
    pub all_timers_completed: bool,
    /// The fire times the current cohort was built from, kept so that a reset
    /// restores every timer, including those already fired and removed.
    pub regimen: Seq<u64>,
}

/// The timers of the running app.
pub struct Cohort {
    pub timers: Vec<Timer>,
    pub next_timer_id: u64,
    pub is_paused: bool,
    pub timers_running: bool,
    pub all_timers_completed: bool,
    pub completed_timer_durations: Vec<u64>,
}

impl View for Cohort {
    type V = CohortModel;

    open spec fn view(&self) -> CohortModel {
        CohortModel {
            timers: self.timers@,
            next_timer_id: self.next_timer_id,
            is_paused: self.is_paused,
            timers_running: self.timers_running,
            all_timers_completed: self.all_timers_completed,
            regimen: self.completed_timer_durations@,
        }
    }
}

/// Every timer keeps the timer invariant; ids increase along the list and are
/// below the next id to hand out.
pub open spec fn cohort_wf(c: CohortModel) -> bool {
    &&& forall|i: int| 0 <= i < c.timers.len() ==> (#[trigger] c.timers[i]).inv()
    &&& forall|i: int| 0 <= i < c.timers.len() ==> (#[trigger] c.timers[i]).id < c.next_timer_id
    &&& forall|i: int, j: int|
        0 <= i < j < c.timers.len() ==> (#[trigger] c.timers[i]).id < (#[trigger] c.timers[j]).id
}

pub open spec fn unmarked(t: Timer) -> bool {
    !t.marked_for_removal
}

/// The timers not marked for removal, in order.
pub open spec fn keep_unmarked(ts: Seq<Timer>) -> Seq<Timer> {
    ts.filter(|t: Timer| unmarked(t))
}

/// After timers are removed: an emptied running cohort has completed.
pub open spec fn settle(c: CohortModel) -> CohortModel {
    if c.timers.len() == 0 && c.timers_running {
        CohortModel { all_timers_completed: true, timers_running: false, ..c }
    } else {
        c
    }
}

pub open spec fn spec_new_cohort() -> CohortModel {
    CohortModel {
        timers: Seq::<Timer>::empty(),
        next_timer_id: 1,
        is_paused: true,
        timers_running: false,
        all_timers_completed: false,
        regimen: Seq::<u64>::empty(),
    }
}

/// Rebuilding: nothing moves while a cohort is live; otherwise the timers are
/// replaced by those of the new fire times (the regimen is kept when there are none).
pub open spec fn spec_rebuild(c: CohortModel, fire: Option<Seq<u64>>) -> CohortModel {
    if c.timers_running {
        c
    } else {
        match fire {
            Some(f) => CohortModel {
                timers: schedule(f, c.next_timer_id),
                next_timer_id: (c.next_timer_id + f.len()) as u64,
                regimen: f,
                ..c
            },
            None => CohortModel { timers: Seq::<Timer>::empty(), ..c },
        }
    }
}

pub open spec fn started(t: Timer) -> Timer {
    if !t.is_alerting && t.remaining_nanos > 0 {
        Timer { is_active: true, ..t }
    } else {
        t
    }
}

pub open spec fn stopped(t: Timer) -> Timer {
    Timer { is_active: false, ..t }
}

pub open spec fn restored(t: Timer) -> Timer {
    Timer {
        remaining_nanos: t.total_nanos,
        is_active: false,
        is_alerting: false,
        marked_for_removal: false,
        ..t
    }
}

pub open spec fn spec_start_all(c: CohortModel) -> CohortModel {
    CohortModel {
        timers: c.timers.map_values(|t: Timer| started(t)),
        is_paused: false,
        timers_running: true,
        all_timers_completed: false,
        ..c
    }
}

pub open spec fn spec_pause_all(c: CohortModel) -> CohortModel {
    CohortModel { timers: c.timers.map_values(|t: Timer| stopped(t)), is_paused: true, ..c }
}

/// Reset: the whole regimen is rebuilt with fresh ids (or, with no regimen,
/// the present timers are wound back to their full time), paused.
pub open spec fn spec_reset_all(c: CohortModel) -> CohortModel {
    let ts = if c.regimen.len() == 0 {
        c.timers.map_values(|t: Timer| restored(t))
    } else {
        schedule(c.regimen, c.next_timer_id)
    };
    let next = if c.regimen.len() == 0 {
        c.next_timer_id
    } else {
        (c.next_timer_id + c.regimen.len()) as u64
    };
    CohortModel {
        timers: ts,
        next_timer_id: next,
        is_paused: true,
        timers_running: false,
        all_timers_completed: false,
        ..c
    }
}

pub open spec fn spec_clear_all(c: CohortModel) -> CohortModel {
    CohortModel {
        timers: Seq::<Timer>::empty(),
        is_paused: true,
        timers_running: false,
        all_timers_completed: false,
        regimen: Seq::<u64>::empty(),
        ..c
    }
}

pub open spec fn spec_tick_all(c: CohortModel, step: nat) -> CohortModel {
    settle(
        CohortModel {
            timers: keep_unmarked(c.timers.map_values(|t: Timer| advance(t, step))),
            ..c
        },
    )
}

pub open spec fn silence_if_alerting(t: Timer) -> Timer {
    if t.is_alerting {
        silenced(t)
    } else {
        t
    }
}

pub open spec fn spec_silence_alerting(c: CohortModel) -> CohortModel {
    settle(
        CohortModel {
            timers: keep_unmarked(c.timers.map_values(|t: Timer| silence_if_alerting(t))),
            ..c
        },
    )
}

pub open spec fn spec_adjust(c: CohortModel, delta: int) -> CohortModel {
    CohortModel { timers: c.timers.map_values(|t: Timer| shifted(t, delta)), ..c }
}

/// Whether moving `t` by `delta` starts its alert.
pub open spec fn shift_fires(t: Timer, delta: int) -> bool {
    t.remaining_nanos > 0 && !t.is_alerting && t.remaining_nanos + delta <= 0
}

/// What a tick of the whole cohort reports.
pub struct TickReport {
    /// Some timer fired during this tick.
    pub any_new_alert: bool,
    /// Some timer is alerting after this tick.
    pub any_alerting: bool,
}

proof fn lemma_keep_unmarked_step(s: Seq<Timer>, i: int)
    requires
        0 <= i < s.len(),
    ensures
        keep_unmarked(s.take(i + 1)) == if unmarked(s[i]) {
            keep_unmarked(s.take(i)).push(s[i])
        } else {
            keep_unmarked(s.take(i))
        },
{
    reveal(Seq::filter);
    assert(s.take(i + 1).drop_last() =~= s.take(i));
}

fn retain_unmarked(v: &Vec<Timer>) -> (r: Vec<Timer>)
    ensures
        r@ == keep_unmarked(v@),
{
    let mut out: Vec<Timer> = Vec::new();
    for i in 0..v.len()
        invariant
            out@ == keep_unmarked(v@.take(i as int)),
    {
        proof {
            lemma_keep_unmarked_step(v@, i as int);
        }
        if !v[i].marked_for_removal {
            out.push(v[i]);
        }
    }
    proof {
        reveal(Seq::filter);
        assert(v@.take(0) =~= Seq::<Timer>::empty());
    }
    assert(v@.take(v.len() as int) =~= v@);
    out
}

impl Cohort {
    /// An empty, paused cohort whose first timer will get id 1.
    pub fn new() -> (c: Cohort)
        ensures
            c@ == spec_new_cohort(),
    {
        Cohort {
            timers: Vec::new(),
            next_timer_id: 1,
            is_paused: true,
            timers_running: false,
            all_timers_completed: false,
            completed_timer_durations: Vec::new(),
        }
    }

    fn build(&mut self, fire: &Vec<u64>)
        requires
            old(self).next_timer_id + fire@.len() <= u64::MAX,
        ensures
            final(self).timers@ == schedule(fire@, old(self).next_timer_id),
            final(self).next_timer_id == old(self).next_timer_id + fire@.len(),
            final(self).is_paused == old(self).is_paused,
            final(self).timers_running == old(self).timers_running,
            final(self).all_timers_completed == old(self).all_timers_completed,
            final(self).completed_timer_durations == old(self).completed_timer_durations,
    {
        let ghost first = self.next_timer_id;
        let mut ts: Vec<Timer> = Vec::new();
        let mut prev: u64 = 0;
        for k in 0..fire.len()
            invariant
                self.next_timer_id == first + k,
                first + fire@.len() <= u64::MAX,
                ts@ == schedule(fire@.take(k as int), first),
                k > 0 ==> prev == fire@[k - 1],
                k == 0 ==> prev == 0,
                self.is_paused == old(self).is_paused,
                self.timers_running == old(self).timers_running,
                self.all_timers_completed == old(self).all_timers_completed,
                self.completed_timer_durations == old(self).completed_timer_durations,
                self.timers == old(self).timers,
        {
            let f = fire[k];
            let gap = if f >= prev {
                f - prev
            } else {
                0
            };
            let id = self.next_timer_id;
            self.next_timer_id = self.next_timer_id + 1;
            ts.push(Timer::new(id, f, gap));
            assert(gap == gap_at(fire@, k as int));
            assert(ts@ =~= schedule(fire@.take(k + 1), first));
            prev = f;
        }
        assert(fire@.take(fire.len() as int) =~= fire@);
        self.timers = ts;
    }

    /// Replaces the timers by those firing at `fire` (no timers when there is
    /// no schedule), unless a cohort is live.
    pub fn rebuild_timers(&mut self, fire: Option<Vec<u64>>)
        requires
            old(self).timers_running || (fire matches Some(f) ==> old(self).next_timer_id
                + f@.len() <= u64::MAX),
        ensures
            final(self)@ == spec_rebuild(
                old(self)@,
                match fire {
                    Some(f) => Some(f@),
                    None => None,
                },
            ),
    {
        if self.timers_running {
            return;
        }
        match fire {
            Some(f) => {
                self.build(&f);
                self.completed_timer_durations = f;
            },
            None => {
                self.timers = Vec::new();
            },
        }
    }

    /// Starts every timer that has time left and is not alerting.
    pub fn start_all(&mut self)
        ensures
            final(self)@ == spec_start_all(old(self)@),
    {
        let mut ts: Vec<Timer> = Vec::new();
        for i in 0..self.timers.len()
            invariant
                ts@ == self.timers@.take(i as int).map_values(|t: Timer| started(t)),
        {
            let mut t = self.timers[i];
            if !t.is_alerting && t.remaining_nanos > 0 {
                t.is_active = true;
            }
            ts.push(t);
            assert(ts@ =~= self.timers@.take(i + 1).map_values(|t: Timer| started(t)));
        }
        assert(self.timers@.take(self.timers.len() as int) =~= self.timers@);
        self.timers = ts;
        self.is_paused = false;
        self.timers_running = true;
        self.all_timers_completed = false;
    }

    /// Stops every timer and marks the cohort paused.
    pub fn pause_all(&mut self)
        ensures
            final(self)@ == spec_pause_all(old(self)@),
    {
        self.is_paused = true;
        let mut ts: Vec<Timer> = Vec::new();
        for i in 0..self.timers.len()
            invariant
                ts@ == self.timers@.take(i as int).map_values(|t: Timer| stopped(t)),
        {
            let mut t = self.timers[i];
            t.is_active = false;
            ts.push(t);
            assert(ts@ =~= self.timers@.take(i + 1).map_values(|t: Timer| stopped(t)));
        }
        assert(self.timers@.take(self.timers.len() as int) =~= self.timers@);
        self.timers = ts;
    }

    /// Restores the whole regimen the cohort was built from, paused.
    pub fn reset_all(&mut self)
        requires
            old(self).next_timer_id + old(self).completed_timer_durations@.len() <= u64::MAX,
        ensures
            final(self)@ == spec_reset_all(old(self)@),
    {
        if self.completed_timer_durations.len() == 0 {
            let mut ts: Vec<Timer> = Vec::new();
            for i in 0..self.timers.len()
                invariant
                    ts@ == self.timers@.take(i as int).map_values(|t: Timer| restored(t)),
            {
                let mut t = self.timers[i];
                t.remaining_nanos = t.total_nanos;
                t.is_active = false;
                t.is_alerting = false;
                t.marked_for_removal = false;
                ts.push(t);
                assert(ts@ =~= self.timers@.take(i + 1).map_values(|t: Timer| restored(t)));
            }
            assert(self.timers@.take(self.timers.len() as int) =~= self.timers@);
            self.timers = ts;
        } else {
            let regimen = self.completed_timer_durations.clone();
            self.build(&regimen);
        }
        self.is_paused = true;
        self.timers_running = false;
        self.all_timers_completed = false;
    }

    /// Removes every timer and forgets the regimen, paused.
    pub fn clear_all(&mut self)
        ensures
            final(self)@ == spec_clear_all(old(self)@),
    {
        self.pause_all();
        self.timers = Vec::new();
        self.completed_timer_durations = Vec::new();
        self.timers_running = false;
        self.all_timers_completed = false;
    }

    fn settle_exec(&mut self)
        ensures
            final(self)@ == settle(old(self)@),
    {
        if self.timers.len() == 0 && self.timers_running {
            self.all_timers_completed = true;
            self.timers_running = false;
        }
    }

    /// Counts every timer down by `dt_nanos` at `speed_pct` percent speed,
    /// then drops silenced timers.
    pub fn tick_all(&mut self, dt_nanos: u64, speed_pct: u32) -> (r: TickReport)
        ensures
            final(self)@ == spec_tick_all(old(self)@, step_nanos(dt_nanos, speed_pct)),
            r.any_new_alert == exists|i: int|
                0 <= i < old(self).timers@.len() && fires(
                    #[trigger] old(self).timers@[i],
                    step_nanos(dt_nanos, speed_pct),
                ),
            r.any_alerting == exists|i: int|
                0 <= i < old(self).timers@.len() && #[trigger] advance(
                    old(self).timers@[i],
                    step_nanos(dt_nanos, speed_pct),
                ).is_alerting,
    {
        let ghost step = step_nanos(dt_nanos, speed_pct);
        let ghost src = self.timers@;
        let mut ts: Vec<Timer> = Vec::new();
        let mut any_new_alert = false;
        let mut any_alerting = false;
        for i in 0..self.timers.len()
            invariant
                src == self.timers@,
                step == step_nanos(dt_nanos, speed_pct),
                ts@ == src.take(i as int).map_values(|t: Timer| advance(t, step)),
                any_new_alert == exists|k: int| 0 <= k < i && fires(#[trigger] src[k], step),
                any_alerting == exists|k: int|
                    0 <= k < i && #[trigger] advance(src[k], step).is_alerting,
        {
            let mut t = self.timers[i];
            let fired = t.tick(dt_nanos, speed_pct);
            if fired {
                any_new_alert = true;
            }
            if t.is_alerting {
                any_alerting = true;
            }
            ts.push(t);
            assert(ts@ =~= src.take(i + 1).map_values(|t: Timer| advance(t, step)));
        }
        assert(src.take(src.len() as int) =~= src);
        self.timers = retain_unmarked(&ts);
        self.settle_exec();
        TickReport { any_new_alert, any_alerting }
    }

    /// Silences every alerting timer and drops silenced timers.
    pub fn silence_alerting_timers(&mut self)
        ensures
            final(self)@ == spec_silence_alerting(old(self)@),
    {
        let mut ts: Vec<Timer> = Vec::new();
        for i in 0..self.timers.len()
            invariant
                ts@ == self.timers@.take(i as int).map_values(|t: Timer| silence_if_alerting(t)),
        {
            let mut t = self.timers[i];
            if t.is_alerting {
                t.silence();
            }
            ts.push(t);
            assert(ts@ =~= self.timers@.take(i + 1).map_values(
                |t: Timer| silence_if_alerting(t),
            ));
        }
        assert(self.timers@.take(self.timers.len() as int) =~= self.timers@);
        self.timers = retain_unmarked(&ts);
        self.settle_exec();
    }

    /// Moves every counting timer by `delta_nanos`; returns whether one of
    /// them reached zero and started alerting.
    pub fn adjust_time(&mut self, delta_nanos: i64) -> (newly_alerting: bool)
        ensures
            final(self)@ == spec_adjust(old(self)@, delta_nanos as int),
            newly_alerting == exists|i: int|
                0 <= i < old(self).timers@.len() && shift_fires(
                    #[trigger] old(self).timers@[i],
                    delta_nanos as int,
                ),
    {
        let ghost src = self.timers@;
        let mut ts: Vec<Timer> = Vec::new();
        let mut newly = false;
        for i in 0..self.timers.len()
            invariant
                src == self.timers@,
                ts@ == src.take(i as int).map_values(|t: Timer| shifted(t, delta_nanos as int)),
                newly == exists|k: int|
                    0 <= k < i && shift_fires(#[trigger] src[k], delta_nanos as int),
        {
            let mut t = self.timers[i];
            if t.remaining_nanos > 0 && !t.is_alerting {
                let moved: i128 = (t.remaining_nanos as i128) + (delta_nanos as i128);
                let r: u64 = if moved <= 0 {
                    0
                } else if moved > 0xffff_ffff_ffff_ffff {
                    0xffff_ffff_ffff_ffff
                } else {
                    moved as u64
                };
                t.remaining_nanos = r;
                if r == 0 {
                    t.is_active = false;
                    t.is_alerting = true;
                    newly = true;
                }
            }
            ts.push(t);
            assert(ts@ =~= src.take(i + 1).map_values(|t: Timer| shifted(t, delta_nanos as int)));
        }
        assert(src.take(src.len() as int) =~= src);
        self.timers = ts;
        newly
    }

    /// Whether every timer is alerting or already silenced: the alert now
    /// sounding is the last one of the cohort.
    pub fn is_final_alert(&self) -> (b: bool)
        ensures
            b == forall|i: int|
                0 <= i < self.timers@.len() ==> (#[trigger] self.timers@[i]).is_alerting
                    || self.timers@[i].marked_for_removal,
    {
        for i in 0..self.timers.len()
            invariant
                forall|k: int|
                    0 <= k < i ==> (#[trigger] self.timers@[k]).is_alerting
                        || self.timers@[k].marked_for_removal,
        {
            if !self.timers[i].is_alerting && !self.timers[i].marked_for_removal {
                return false;
            }
        }
        true
    }

    /// Whether some timer is alerting.
    pub fn any_alerting(&self) -> (b: bool)
        ensures
            b == exists|i: int|
                0 <= i < self.timers@.len() && (#[trigger] self.timers@[i]).is_alerting,
    {
        for i in 0..self.timers.len()
            invariant
                forall|k: int| 0 <= k < i ==> !(#[trigger] self.timers@[k]).is_alerting,
        {
            if self.timers[i].is_alerting {
                return true;
            }
        }
        false
    }
}


/// How a timer is shown in the list.
#[derive(Clone, Copy, PartialEq, Eq, Debug, Structural)]
pub enum DisplayMode {
    /// Its countdown as a clock string.
    Countdown,
    /// A progress bar over its gap (the next timer due, in progress-bar mode).
    Progress,
    /// The dimmed gap since the previous timer (other timers in progress-bar mode).
    Gap,
}

/// A timer still counting toward an alert.
pub open spec fn pending(t: Timer) -> bool {
    !t.is_alerting && t.remaining_nanos > 0
}

/// `k` is the first pending timer with the least remaining time.
pub open spec fn is_next_due(ts: Seq<Timer>, k: int) -> bool {
    &&& 0 <= k < ts.len()
    &&& pending(ts[k])
    &&& forall|j: int| 0 <= j < ts.len() && pending(ts[j]) ==> ts[k].remaining_nanos <= (
    #[trigger] ts[j]).remaining_nanos
    &&& forall|j: int| 0 <= j < k && pending(ts[j]) ==> ts[k].remaining_nanos < (
    #[trigger] ts[j]).remaining_nanos
}

/// The id of the next timer due, if any timer is pending.
pub open spec fn spec_next_due(ts: Seq<Timer>) -> Option<u64> {
    if exists|k: int| is_next_due(ts, k) {
        Some(ts[choose|k: int| is_next_due(ts, k)].id)
    } else {
        None
    }
}

pub open spec fn display_mode_of(t: Timer, progress_bars: bool, next: Option<u64>) -> DisplayMode {
    if t.is_alerting {
        DisplayMode::Countdown
    } else if progress_bars && next == Some(t.id) {
        DisplayMode::Progress
    } else if progress_bars {
        DisplayMode::Gap
    } else {
        DisplayMode::Countdown
    }
}

/// Timer `i` silenced if it is the first with the given id.
pub open spec fn silence_first_id(ts: Seq<Timer>, id: u64) -> Seq<Timer> {
    Seq::new(
        ts.len(),
        |i: int|
            if ts[i].id == id && (forall|j: int| 0 <= j < i ==> (#[trigger] ts[j]).id != id) {
                silenced(ts[i])
            } else {
                ts[i]
            },
    )
}

pub open spec fn spec_silence_timer(c: CohortModel, id: u64) -> CohortModel {
    CohortModel { timers: silence_first_id(c.timers, id), ..c }
}

pub open spec fn spec_cancel_timer(c: CohortModel, id: u64) -> CohortModel {
    CohortModel { timers: c.timers.filter(|t: Timer| t.id != id), ..c }
}

proof fn lemma_next_due_unique(ts: Seq<Timer>, a: int, b: int)
    requires
        is_next_due(ts, a),
        is_next_due(ts, b),
    ensures
        a == b,
{
    if a < b {
        assert(ts[b].remaining_nanos < ts[a].remaining_nanos);
    } else if b < a {
        assert(ts[a].remaining_nanos < ts[b].remaining_nanos);
    }
}

impl Cohort {
    /// The id of the pending timer with the least time left (the first such
    /// on a tie), if any.
    pub fn next_due(&self) -> (r: Option<u64>)
        ensures
            r == spec_next_due(self.timers@),
    {
        let ts = &self.timers;
        let mut best: Option<usize> = None;
        for i in 0..ts.len()
            invariant
                best matches Some(k) ==> {
                    &&& 0 <= k < i
                    &&& pending(ts@[k as int])
                    &&& forall|j: int|
                        0 <= j < i && pending(ts@[j]) ==> ts@[k as int].remaining_nanos <= (
                        #[trigger] ts@[j]).remaining_nanos
                    &&& forall|j: int|
                        0 <= j < k && pending(ts@[j]) ==> ts@[k as int].remaining_nanos < (
                        #[trigger] ts@[j]).remaining_nanos
                },
                best is None ==> forall|j: int| 0 <= j < i ==> !pending(#[trigger] ts@[j]),
        {
            let t = ts[i];
            if !t.is_alerting && t.remaining_nanos > 0 {
                match best {
                    Some(k) => {
                        if t.remaining_nanos < ts[k].remaining_nanos {
                            best = Some(i);
                        }
                    },
                    None => {
                        best = Some(i);
                    },
                }
            }
        }
        match best {
            Some(k) => {
                assert(is_next_due(ts@, k as int));
                proof {
                    let c = choose|k: int| is_next_due(ts@, k);
                    lemma_next_due_unique(ts@, c, k as int);
                }
                Some(ts[k].id)
            },
            None => {
                assert(!exists|k: int| is_next_due(ts@, k));
                None
            },
        }
    }

    /// How each timer is shown, given whether progress bars are on.
    pub fn display_modes(&self, progress_bars: bool) -> (r: Vec<DisplayMode>)
        ensures
            r@.len() == self.timers@.len(),
            forall|i: int|
                0 <= i < r@.len() ==> #[trigger] r@[i] == display_mode_of(
                    self.timers@[i],
                    progress_bars,
                    spec_next_due(self.timers@),
                ),
    {
        let next = self.next_due();
        let mut out: Vec<DisplayMode> = Vec::new();
        for i in 0..self.timers.len()
            invariant
                next == spec_next_due(self.timers@),
                out@.len() == i,
                forall|k: int|
                    0 <= k < i ==> #[trigger] out@[k] == display_mode_of(
                        self.timers@[k],
                        progress_bars,
                        next,
                    ),
        {
            let t = self.timers[i];
            let m = if t.is_alerting {
                DisplayMode::Countdown
            } else if progress_bars && next == Some(t.id) {
                DisplayMode::Progress
            } else if progress_bars {
                DisplayMode::Gap
            } else {
                DisplayMode::Countdown
            };
            out.push(m);
        }
        out
    }

    /// The gap label of each timer.
    pub fn gap_labels(&self) -> (r: Vec<String>)
        ensures
            r@.len() == self.timers@.len(),
            forall|i: int|
                0 <= i < r@.len() ==> (#[trigger] r@[i])@ == crate::timetext::gap_label_text(
                    self.timers@[i].gap_nanos as nat,
                ),
    {
        let mut out: Vec<String> = Vec::new();
        for i in 0..self.timers.len()
            invariant
                out@.len() == i,
                forall|k: int|
                    0 <= k < i ==> (#[trigger] out@[k])@ == crate::timetext::gap_label_text(
                        self.timers@[k].gap_nanos as nat,
                    ),
        {
            out.push(crate::timetext::gap_label(self.timers[i].gap_nanos));
        }
        out
    }

    /// Silences the first timer with the given id, if there is one.
    pub fn silence_timer(&mut self, id: u64)
        ensures
            final(self)@ == spec_silence_timer(old(self)@, id),
    {
        let ghost src = self.timers@;
        let mut found = false;
        let mut ts: Vec<Timer> = Vec::new();
        for i in 0..self.timers.len()
            invariant
                src == self.timers@,
                ts@ == silence_first_id(src, id).take(i as int),
                found == exists|j: int| 0 <= j < i && (#[trigger] src[j]).id == id,
        {
            let mut t = self.timers[i];
            let ghost first = !found && t.id == id;
            if !found && t.id == id {
                t.silence();
                found = true;
            }
            proof {
                if first {
                    assert forall|j: int| 0 <= j < i implies (#[trigger] src[j]).id != id by {}
                }
            }
            ts.push(t);
            assert(ts@ =~= silence_first_id(src, id).take(i + 1));
        }
        assert(silence_first_id(src, id).take(src.len() as int) =~= silence_first_id(src, id));
        self.timers = ts;
    }

    /// Removes every timer with the given id.
    pub fn cancel_timer(&mut self, id: u64)
        ensures
            final(self)@ == spec_cancel_timer(old(self)@, id),
    {
        let ghost src = self.timers@;
        let mut ts: Vec<Timer> = Vec::new();
        for i in 0..self.timers.len()
            invariant
                src == self.timers@,
                ts@ == src.take(i as int).filter(|t: Timer| t.id != id),
        {
            proof {
                reveal(Seq::filter);
                assert(src.take(i + 1).drop_last() =~= src.take(i as int));
            }
            if self.timers[i].id != id {
                ts.push(self.timers[i]);
            }
        }
        proof {
            reveal(Seq::filter);
        }
        assert(src.take(src.len() as int) =~= src);
        self.timers = ts;
    }
}

} // verus!
