use cascading_timers::timers::{
    arithmetic_fire_times, cumulative_fire_times, geometric_fire_times, Cohort, DisplayMode, Timer,
};

const NS: u64 = 1_000_000_000;

fn built(fire: Vec<u64>) -> Cohort {
    let mut c = Cohort::new();
    c.rebuild_timers(Some(fire));
    c
}

fn totals(c: &Cohort) -> Vec<u64> {
    c.timers.iter().map(|t| t.total_nanos).collect()
}

#[test]
fn timer_counts_down_and_fires() {
    let mut t = Timer::new(1, 10 * NS, 10 * NS);
    assert!(!t.tick(NS, 100), "a stopped timer does not move");
    assert_eq!(t.remaining_nanos, 10 * NS);
    t.is_active = true;
    assert!(!t.tick(4 * NS, 100));
    assert_eq!(t.remaining_nanos, 6 * NS);
    assert!(!t.tick(2 * NS, 200));
    assert_eq!(t.remaining_nanos, 2 * NS);
    assert!(!t.tick(2 * NS, 50));
    assert_eq!(t.remaining_nanos, NS);
    assert!(t.tick(5 * NS, 100));
    assert_eq!(t.remaining_nanos, 0);
    assert!(!t.is_active && t.is_alerting);
    assert!(!t.tick(NS, 100), "fires once");
    t.silence();
    assert!(!t.is_alerting && t.marked_for_removal);
}

#[test]
fn timer_fires_exactly_at_zero() {
    let mut t = Timer::new(1, 3 * NS, 3 * NS);
    t.is_active = true;
    assert!(t.tick(3 * NS, 100));
    assert_eq!(t.format_time(), "00:00");
}

#[test]
fn timer_format_time() {
    let t = Timer::new(1, 3725 * NS + 999_999_999, 0);
    assert_eq!(t.format_time(), "01:02:05");
    let t = Timer::new(1, 59 * NS, 0);
    assert_eq!(t.format_time(), "00:59");
}

#[test]
fn arithmetic_schedule() {
    assert_eq!(arithmetic_fire_times(3, 10, 0), vec![10, 20, 30]);
    assert_eq!(arithmetic_fire_times(3, 10, 4), vec![4, 14, 24]);
    assert_eq!(arithmetic_fire_times(0, 10, 4), Vec::<u64>::new());
    assert_eq!(arithmetic_fire_times(2, u64::MAX, 0), vec![u64::MAX, u64::MAX]);
}

#[test]
fn cumulative_schedule() {
    assert_eq!(cumulative_fire_times(&vec![5, 10, 20]), vec![5, 15, 35]);
    assert_eq!(cumulative_fire_times(&vec![u64::MAX, 1]), vec![u64::MAX, u64::MAX]);
    assert_eq!(cumulative_fire_times(&vec![]), Vec::<u64>::new());
}

#[test]
fn rebuild_gives_gaps_and_ids() {
    let c = built(vec![5, 15, 12, 40]);
    assert_eq!(totals(&c), vec![5, 15, 12, 40]);
    let gaps: Vec<u64> = c.timers.iter().map(|t| t.gap_nanos).collect();
    assert_eq!(gaps, vec![5, 10, 0, 28]);
    let ids: Vec<u64> = c.timers.iter().map(|t| t.id).collect();
    assert_eq!(ids, vec![1, 2, 3, 4]);
    assert_eq!(c.next_timer_id, 5);
    assert_eq!(c.completed_timer_durations, vec![5, 15, 12, 40]);
}

#[test]
fn rebuild_without_schedule_keeps_regimen() {
    let mut c = built(vec![5, 15]);
    c.rebuild_timers(None);
    assert!(c.timers.is_empty());
    assert_eq!(c.completed_timer_durations, vec![5, 15]);
}

#[test]
fn rebuild_ignored_while_running() {
    let mut c = built(vec![5, 15]);
    c.start_all();
    c.rebuild_timers(Some(vec![1]));
    assert_eq!(totals(&c), vec![5, 15]);
}

#[test]
fn cohort_runs_to_completion() {
    let mut c = built(vec![10 * NS, 20 * NS]);
    c.start_all();
    assert!(!c.is_paused && c.timers_running);
    assert!(c.timers.iter().all(|t| t.is_active));
    let r = c.tick_all(10 * NS, 100);
    assert!(r.any_new_alert && r.any_alerting);
    assert!(c.timers[0].is_alerting);
    assert!(!c.is_final_alert());
    c.silence_alerting_timers();
    assert_eq!(c.timers.len(), 1);
    let r = c.tick_all(5 * NS, 100);
    assert!(!r.any_new_alert && !r.any_alerting);
    let r = c.tick_all(5 * NS, 100);
    assert!(r.any_new_alert);
    assert!(c.is_final_alert());
    c.silence_alerting_timers();
    assert!(c.timers.is_empty());
    assert!(c.all_timers_completed && !c.timers_running);
}

#[test]
fn reset_restores_whole_regimen() {
    let mut c = built(vec![10 * NS, 20 * NS, 30 * NS]);
    c.start_all();
    c.tick_all(15 * NS, 100);
    c.silence_alerting_timers();
    assert_eq!(c.timers.len(), 2);
    c.reset_all();
    assert_eq!(totals(&c), vec![10 * NS, 20 * NS, 30 * NS]);
    assert!(c.timers.iter().all(|t| t.remaining_nanos == t.total_nanos && !t.is_active));
    let ids: Vec<u64> = c.timers.iter().map(|t| t.id).collect();
    assert_eq!(ids, vec![4, 5, 6]);
    assert!(c.is_paused && !c.timers_running && !c.all_timers_completed);
}

#[test]
fn reset_without_regimen_winds_back() {
    let mut c = Cohort::new();
    c.timers.push(Timer::new(7, 10, 10));
    c.next_timer_id = 8;
    c.timers[0].remaining_nanos = 3;
    c.timers[0].is_alerting = false;
    c.reset_all();
    assert_eq!(c.timers[0].remaining_nanos, 10);
    assert_eq!(c.timers[0].id, 7);
}

#[test]
fn clear_forgets_everything() {
    let mut c = built(vec![10, 20]);
    c.start_all();
    c.clear_all();
    assert!(c.timers.is_empty() && c.completed_timer_durations.is_empty());
    assert!(c.is_paused && !c.timers_running && !c.all_timers_completed);
    c.reset_all();
    assert!(c.timers.is_empty(), "a cleared cohort cannot be resurrected");
}

#[test]
fn pause_stops_and_start_resumes() {
    let mut c = built(vec![10 * NS, 20 * NS]);
    c.start_all();
    c.pause_all();
    assert!(c.is_paused && c.timers.iter().all(|t| !t.is_active));
    let r = c.tick_all(100 * NS, 100);
    assert!(!r.any_new_alert);
    c.start_all();
    assert!(c.timers.iter().all(|t| t.is_active));
}

#[test]
fn adjust_moves_and_can_fire() {
    let mut c = built(vec![10 * NS, 20 * NS]);
    c.start_all();
    assert!(!c.adjust_time(15 * 1_000_000_000));
    assert_eq!(totals(&c), vec![10 * NS, 20 * NS]);
    assert_eq!(c.timers[0].remaining_nanos, 25 * NS);
    assert!(!c.adjust_time(-15 * 1_000_000_000));
    assert_eq!(c.timers[0].remaining_nanos, 10 * NS);
    assert!(c.adjust_time(-15 * 1_000_000_000));
    assert!(c.timers[0].is_alerting && c.timers[0].remaining_nanos == 0);
    assert_eq!(c.timers[1].remaining_nanos, 5 * NS);
    assert!(!c.adjust_time(-15 * 1_000_000_000) || c.timers[1].is_alerting);
}

#[test]
fn split_tick_equals_whole_tick() {
    let mut a = built(vec![10 * NS, 20 * NS, 35 * NS]);
    let mut b = built(vec![10 * NS, 20 * NS, 35 * NS]);
    a.start_all();
    b.start_all();
    a.tick_all(7 * NS, 100);
    a.tick_all(14 * NS, 100);
    b.tick_all(21 * NS, 100);
    let ra: Vec<(u64, bool, bool)> =
        a.timers.iter().map(|t| (t.remaining_nanos, t.is_active, t.is_alerting)).collect();
    let rb: Vec<(u64, bool, bool)> =
        b.timers.iter().map(|t| (t.remaining_nanos, t.is_active, t.is_alerting)).collect();
    assert_eq!(ra, rb);
}

#[test]
fn silence_and_cancel_by_id() {
    let mut c = built(vec![10, 20, 30]);
    c.start_all();
    c.tick_all(10, 100);
    c.silence_timer(1);
    assert!(c.timers[0].marked_for_removal);
    c.cancel_timer(3);
    let ids: Vec<u64> = c.timers.iter().map(|t| t.id).collect();
    assert_eq!(ids, vec![1, 2]);
    c.tick_all(0, 100);
    let ids: Vec<u64> = c.timers.iter().map(|t| t.id).collect();
    assert_eq!(ids, vec![2]);
}

#[test]
fn next_due_and_display_modes() {
    let mut c = built(vec![10, 20, 20]);
    assert_eq!(c.next_due(), Some(1));
    c.start_all();
    c.tick_all(10, 100);
    assert_eq!(c.next_due(), Some(2), "first of equal minima");
    let modes = c.display_modes(true);
    assert_eq!(modes, vec![DisplayMode::Countdown, DisplayMode::Progress, DisplayMode::Gap]);
    assert_eq!(
        c.display_modes(false),
        vec![DisplayMode::Countdown, DisplayMode::Countdown, DisplayMode::Countdown]
    );
    assert!(c.any_alerting());
    c.silence_alerting_timers();
    assert!(!c.any_alerting());
    let empty = Cohort::new();
    assert_eq!(empty.next_due(), None);
}

#[test]
fn gap_labels_per_timer() {
    let c = built(vec![90 * NS, 3690 * NS]);
    assert_eq!(c.gap_labels(), vec!["+ 01:30".to_string(), "+ 01:00:00".to_string()]);
}

#[test]
fn geometric_schedule_offset_replaces_first_gap() {
    assert_eq!(geometric_fire_times(&vec![20 * NS, 40 * NS], 10 * NS, 0), vec![10 * NS, 30 * NS, 70 * NS]);
    assert_eq!(geometric_fire_times(&vec![20 * NS, 40 * NS], 10 * NS, 3 * NS), vec![3 * NS, 23 * NS, 63 * NS]);
    assert_eq!(geometric_fire_times(&vec![], 10 * NS, 0), vec![10 * NS]);
}

#[test]
fn whole_tick_keeps_order_and_drops_silenced() {
    let mut c = built(vec![10 * NS, 20 * NS, 30 * NS]);
    c.start_all();
    c.silence_timer(2);
    c.tick_all(4 * NS, 50);
    let left: Vec<(u64, u64)> = c.timers.iter().map(|t| (t.id, t.remaining_nanos)).collect();
    assert_eq!(left, vec![(1, 8 * NS), (3, 28 * NS)]);
    assert!(c.timers.iter().all(|t| !t.marked_for_removal));
    c.tick_all(60 * NS, 100);
    assert!(c.timers.iter().all(|t| t.is_alerting && t.remaining_nanos == 0));
    c.silence_alerting_timers();
    assert!(c.timers.is_empty());
    assert!(!c.timers_running && c.all_timers_completed);
}

#[test]
fn built_fire_times_never_decrease() {
    let a = arithmetic_fire_times(4, u64::MAX / 2, 0);
    assert!(a.windows(2).all(|w| w[0] <= w[1]));
    assert_eq!(a[3], u64::MAX);
    let g = cumulative_fire_times(&vec![5, 0, u64::MAX, 1]);
    assert_eq!(g, vec![5, 5, u64::MAX, u64::MAX]);
}

#[test]
fn tick_then_silence_completes_an_emptied_cohort() {
    let mut c = built(vec![5 * NS, 20 * NS]);
    c.start_all();
    let report = c.tick_all(6 * NS, 100);
    assert!(report.any_new_alert);
    c.silence_alerting_timers();
    let left: Vec<(u64, u64)> = c.timers.iter().map(|t| (t.id, t.remaining_nanos)).collect();
    assert_eq!(left, vec![(2, 14 * NS)]);
    assert!(c.timers_running && !c.all_timers_completed);
    c.tick_all(14 * NS, 100);
    c.silence_alerting_timers();
    assert!(c.timers.is_empty() && !c.timers_running && c.all_timers_completed);
}
