use cascading_timers::config::Config;
use cascading_timers::fields::{is_valid_count, parse_count, CohortPlan, DisabledField, Fields, Validity};

fn fresh() -> Fields {
    Fields::from_config(&Config::default())
}

fn val(interval: bool, duration: bool, ratio: bool) -> Validity {
    Validity { interval, duration, ratio }
}

#[test]
fn count_validity() {
    assert!(is_valid_count(" 5 "));
    assert!(!is_valid_count("0"));
    assert!(!is_valid_count(""));
    assert!(!is_valid_count("x"));
    assert!(is_valid_count("+3"));
    assert_eq!(parse_count(" 12 "), 12);
    assert_eq!(parse_count("abc"), 0);
}

#[test]
fn launch_state_from_config() {
    let mut cfg = Config::default();
    cfg.geometric_enabled = true;
    cfg.randomize_enabled = true;
    cfg.geometric_ratio = "1.5".to_string();
    cfg.randomize_sigma = "2".to_string();
    let f = Fields::from_config(&cfg);
    assert!(!f.geometric_enabled, "geometric is off when randomized");
    assert!(f.randomize_enabled);
    assert_eq!(f.input_ratio, "1.5");
    assert_eq!(f.input_sigma, "2");
    assert_eq!(f.speed_pct, 100);
    assert_eq!(f.disabled_field, DisabledField::NoField);
}

#[test]
fn normal_mode_locks_missing_field() {
    let mut f = fresh();
    f.input_count = "4".to_string();
    assert_eq!(f.begin_normal(val(true, false, false)), DisabledField::Duration);
    f.calculated_duration_nanos = 40_000_000_000;
    f.finish_normal();
    assert_eq!(f.input_duration, "0:40");
    assert!(f.needs_rebuild);
}

#[test]
fn normal_mode_interval_and_count() {
    let mut f = fresh();
    assert_eq!(f.begin_normal(val(false, true, false)), DisabledField::NoField);
    f.input_count = "3".to_string();
    assert_eq!(f.begin_normal(val(false, true, false)), DisabledField::Interval);
    f.calculated_interval_nanos = 20_500_000_000;
    f.finish_normal();
    assert_eq!(f.input_interval, "0:20.5");
    f.input_count.clear();
    assert_eq!(f.begin_normal(val(true, true, false)), DisabledField::NoField);
    assert_eq!(f.input_interval, "", "the released interval is cleared");
}

#[test]
fn normal_mode_count_is_computed() {
    let mut f = fresh();
    assert_eq!(f.begin_normal(val(true, true, false)), DisabledField::Count);
    f.calculated_count = 7;
    f.finish_normal();
    assert_eq!(f.input_count, "7");
    assert_eq!(f.get_effective_count(), 7);
}

#[test]
fn releasing_a_lock_clears_its_buffer() {
    let mut f = fresh();
    f.input_count = "4".to_string();
    f.begin_normal(val(true, false, false));
    f.input_duration = "1:00".to_string();
    assert_eq!(f.begin_normal(val(false, false, false)), DisabledField::NoField);
    assert_eq!(f.input_duration, "");
    f.set_disabled_field(DisabledField::NoField);
    assert_eq!(f.disabled_field, DisabledField::NoField);
}

#[test]
fn geometric_needs_count() {
    let mut f = fresh();
    f.geometric_enabled = true;
    assert_eq!(f.begin_geometric(val(true, true, true)), DisabledField::NoField);
    f.input_count = "5".to_string();
    assert_eq!(f.begin_geometric(val(true, true, false)), DisabledField::Ratio);
    f.calculated_ratio_text = "1.2500".to_string();
    f.finish_geometric(true);
    assert_eq!(f.input_ratio, "1.2500");
    assert!(!f.geom_invalid && f.needs_rebuild);
}

#[test]
fn geometric_unsolvable_blanks_and_flags() {
    let mut f = fresh();
    f.input_count = "5".to_string();
    f.input_interval = "5m".to_string();
    assert_eq!(f.begin_geometric(val(true, false, true)), DisabledField::Duration);
    f.input_duration = "stale".to_string();
    f.finish_geometric(false);
    assert!(f.geom_invalid);
    assert_eq!(f.input_duration, "");
    f.leave_geometric();
    assert!(!f.geom_invalid);
}

#[test]
fn random_mode_requests_rebuild() {
    let mut f = fresh();
    f.input_count = "3".to_string();
    f.update_field_states_random(false);
    assert!(!f.needs_rebuild);
    f.update_field_states_random(true);
    assert!(f.needs_rebuild);
}

#[test]
fn randomize_switches_geometric_off() {
    let mut f = fresh();
    f.geometric_enabled = true;
    f.input_interval = "5m".to_string();
    f.set_randomize(true);
    assert!(f.randomize_enabled && !f.geometric_enabled);
    assert_eq!(f.input_interval, "");
    f.set_randomize(false);
    assert!(!f.randomize_enabled);
}

#[test]
fn effective_interval_follows_lock() {
    let mut f = fresh();
    f.calculated_interval_nanos = 5;
    assert_eq!(f.get_effective_interval(9), 9);
    f.disabled_field = DisabledField::Interval;
    assert_eq!(f.get_effective_interval(9), 5);
}

#[test]
fn clear_keeps_typed_interval() {
    let mut f = fresh();
    f.input_interval = "5m".to_string();
    f.input_count = "3".to_string();
    f.input_offset = "1m".to_string();
    f.speed_pct = 150;
    f.geometric_enabled = true;
    f.clear_all();
    assert_eq!(f.input_interval, "5m");
    assert_eq!(f.input_count, "");
    assert_eq!(f.input_offset, "");
    assert_eq!(f.speed_pct, 100);
    assert!(!f.geometric_enabled);
    f.disabled_field = DisabledField::Interval;
    f.clear_all();
    assert_eq!(f.input_interval, "");
}

#[test]
fn random_mode_released_duration_lock_is_not_valid() {
    let mut f = fresh();
    f.input_count = "3".to_string();
    f.disabled_field = DisabledField::Duration;
    f.input_duration = "10".to_string();
    f.update_field_states_random(true);
    assert_eq!(f.disabled_field, DisabledField::NoField);
    assert_eq!(f.input_duration, "");
    assert!(!f.needs_rebuild);
}

#[test]
fn cohort_size_is_capped() {
    let mut f = fresh();
    f.input_count = "7".to_string();
    assert_eq!(f.cohort_size(), 7);
    f.input_count = "40".to_string();
    assert_eq!(f.cohort_size(), 25);
    f.disabled_field = DisabledField::Count;
    f.calculated_count = 30;
    assert_eq!(f.cohort_size(), 25);
    f.calculated_count = 4;
    assert_eq!(f.cohort_size(), 4);
}

#[test]
fn plan_kind_by_mode() {
    let mut f = fresh();
    assert_eq!(f.plan_kind(5, true), CohortPlan::NoCohort, "no count");
    f.input_count = "3".to_string();
    assert_eq!(f.plan_kind(5, false), CohortPlan::Arithmetic);
    assert_eq!(f.plan_kind(0, true), CohortPlan::NoCohort, "no interval");
    f.geometric_enabled = true;
    assert_eq!(f.plan_kind(5, true), CohortPlan::Geometric);
    assert_eq!(f.plan_kind(5, false), CohortPlan::NoCohort, "ratio not positive");
    f.geom_invalid = true;
    assert_eq!(f.plan_kind(5, true), CohortPlan::NoCohort, "unsolvable series");
    f.randomize_enabled = true;
    assert_eq!(f.plan_kind(0, false), CohortPlan::Random, "random needs no interval");
    f.disabled_field = DisabledField::Interval;
    f.calculated_interval_nanos = 7;
    f.randomize_enabled = false;
    f.geometric_enabled = false;
    assert_eq!(f.plan_kind(0, false), CohortPlan::Arithmetic, "computed interval is used");
}
