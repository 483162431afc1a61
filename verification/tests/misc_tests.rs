use cascading_timers::alert::{
    after_tick, choose_alert_sound, preview_volume, AlertAction, AlertSound, AlertState,
};
use cascading_timers::config::{format_flag, parse_flag, setting_keys, settings_section, Config};
use cascading_timers::icon::fallback_icon;
use cascading_timers::ratio::{auto_extend_ratio, split_ratio, Extension, RatioText};
use cascading_timers::sanitize::{sanitize_count, sanitize_ratio, sanitize_sigma, sanitize_time};
use cascading_timers::timers::TickReport;

fn ext(s: &str) -> (String, Extension) {
    let mut t = s.to_string();
    let e = auto_extend_ratio(&mut t);
    (t, e)
}

#[test]
fn sanitizers() {
    let mut s = "1.5e-3σ".to_string();
    sanitize_sigma(&mut s);
    assert_eq!(s, "1.53");
    let mut s = "3/2 x".to_string();
    sanitize_ratio(&mut s);
    assert_eq!(s, "3/2");
    let mut s = "1h 30M, 5x:".to_string();
    sanitize_time(&mut s);
    assert_eq!(s, "1h 30M 5:");
    let mut once = "a1.b2".to_string();
    sanitize_sigma(&mut once);
    let mut twice = once.clone();
    sanitize_sigma(&mut twice);
    assert_eq!(once, twice);
}

#[test]
fn count_clamps_to_maximum() {
    let mut s = "999".to_string();
    sanitize_count(&mut s);
    assert_eq!(s, "25");
    let mut s = "1a2".to_string();
    sanitize_count(&mut s);
    assert_eq!(s, "12");
    let mut s = "25".to_string();
    sanitize_count(&mut s);
    assert_eq!(s, "25");
    let mut s = "99999999999".to_string();
    sanitize_count(&mut s);
    assert_eq!(s, "25");
    let mut s = "x26".to_string();
    sanitize_count(&mut s);
    assert_eq!(s, "25");
    let mut s = "007".to_string();
    sanitize_count(&mut s);
    assert_eq!(s, "007");
    let mut s = "abc".to_string();
    sanitize_count(&mut s);
    assert_eq!(s, "");
}

#[test]
fn ratio_parts() {
    assert!(split_ratio("  ").is_none());
    match split_ratio(" 3 / 2 ") {
        Some(RatioText::Fraction(n, d)) => {
            assert_eq!(n, "3");
            assert_eq!(d, "2");
        },
        _ => panic!("expected a fraction"),
    }
    match split_ratio("1/2/3") {
        Some(RatioText::Fraction(n, d)) => {
            assert_eq!(n, "1");
            assert_eq!(d, "2/3");
        },
        _ => panic!("expected a fraction"),
    }
    match split_ratio(" 1.5 ") {
        Some(RatioText::Plain(t)) => assert_eq!(t, "1.5"),
        _ => panic!("expected a plain number"),
    }
}

#[test]
fn ratio_padding() {
    assert_eq!(ext("1.5"), ("1.5000".to_string(), Extension::Done));
    assert_eq!(ext(".5"), ("0.5000".to_string(), Extension::Done));
    assert_eq!(ext("2"), ("2.0000".to_string(), Extension::Done));
    assert_eq!(ext("007.25"), ("7.2500".to_string(), Extension::Done));
    assert_eq!(ext("5."), ("5.0000".to_string(), Extension::Done));
    assert_eq!(ext(" 1.5 "), ("1.5000".to_string(), Extension::Done));
    assert_eq!(ext("1.23456"), ("1.23456".to_string(), Extension::Done));
    assert_eq!(ext("1.2345"), ("1.2345".to_string(), Extension::Done));
    assert_eq!(ext("3/2"), ("3/2".to_string(), Extension::Done));
    assert_eq!(ext(""), ("".to_string(), Extension::Done));
    assert_eq!(ext("1e3"), ("1e3".to_string(), Extension::Unhandled));
    assert_eq!(ext("."), (".".to_string(), Extension::Unhandled));
    assert_eq!(ext("1.2.3"), ("1.2.3".to_string(), Extension::Unhandled));
    assert_eq!(ext("123456789012"), ("123456789012".to_string(), Extension::Unhandled));
}

#[test]
fn ratio_padding_agrees_with_float_formatting() {
    for s in ["1.5", ".5", "2", "0.001", "99999999999.999", "10.1", "0"] {
        let (t, e) = ext(s);
        assert_eq!(e, Extension::Done);
        assert_eq!(t, format!("{:.4}", s.parse::<f64>().unwrap()), "{}", s);
    }
}

#[test]
fn config_round_trip() {
    let mut c = Config::default();
    c.interval = "300".to_string();
    c.sound_file = "/tmp/a.wav".to_string();
    c.progress_bar_mode = true;
    c.randomize_gaussian = true;
    c.randomize_sigma = "1.5".to_string();
    let stored = c.to_values();
    assert_eq!(stored[4], "True");
    assert_eq!(stored[5], "False");
    let back = Config::from_values(&stored.iter().map(|s| Some(s.clone())).collect());
    assert_eq!(back.interval, "300");
    assert_eq!(back.sound_file, "/tmp/a.wav");
    assert!(back.progress_bar_mode && back.randomize_gaussian);
    assert!(!back.geometric_enabled && !back.randomize_enabled);
    assert_eq!(back.randomize_sigma, "1.5");
    let dup = back.duplicate();
    assert_eq!(dup.sound_file, "/tmp/a.wav");
}

#[test]
fn config_flags_and_keys() {
    assert!(parse_flag("TRUE") && parse_flag("true") && parse_flag("True"));
    assert!(!parse_flag("yes") && !parse_flag("") && !parse_flag(" true"));
    assert_eq!(format_flag(true), "True");
    assert_eq!(format_flag(false), "False");
    assert_eq!(settings_section(), "Settings");
    let keys = setting_keys();
    assert_eq!(keys.len(), 10);
    assert_eq!(keys[0], "interval");
    assert_eq!(keys[9], "randomize_sigma");
    let mut vals: Vec<Option<String>> = vec![None; 10];
    vals[5] = Some("tRuE".to_string());
    let c = Config::from_values(&vals);
    assert!(c.geometric_enabled);
    assert_eq!(c.interval, "");
}

#[test]
fn alert_sound_choice() {
    assert_eq!(choose_alert_sound(true, true, true), Some(AlertSound::Final));
    assert_eq!(choose_alert_sound(true, false, true), Some(AlertSound::Regular));
    assert_eq!(choose_alert_sound(false, true, true), Some(AlertSound::Regular));
    assert_eq!(choose_alert_sound(false, true, false), None);
    assert_eq!(choose_alert_sound(true, true, false), Some(AlertSound::Final));
}

#[test]
fn after_tick_decisions() {
    let new = TickReport { any_new_alert: true, any_alerting: true };
    let alerting = TickReport { any_new_alert: false, any_alerting: true };
    let quiet = TickReport { any_new_alert: false, any_alerting: false };
    assert_eq!(after_tick(&new, true, true, 0), AlertAction::PlayNew);
    assert_eq!(after_tick(&alerting, false, true, 0), AlertAction::Nothing);
    assert_eq!(after_tick(&alerting, false, false, 2), AlertAction::Replay);
    assert_eq!(after_tick(&alerting, false, false, 0), AlertAction::SilenceAll);
    assert_eq!(after_tick(&alerting, true, false, 0), AlertAction::Nothing);
    assert_eq!(after_tick(&quiet, false, false, 0), AlertAction::StopSound);
    assert_eq!(after_tick(&quiet, true, false, 0), AlertAction::Nothing);
}

#[test]
fn repeat_alert_counts() {
    let mut a = AlertState::new();
    assert_eq!(a.repeat_alert_count, 1);
    assert_eq!(a.repeat_alert_count_str, "1");
    a.begin_alert();
    assert_eq!(a.alert_plays_remaining, 0);
    a.repeat_alert_enabled = true;
    a.step_repeat_count(true, false);
    a.step_repeat_count(true, false);
    assert_eq!(a.repeat_alert_count, 3);
    assert_eq!(a.repeat_alert_count_str, "3");
    a.begin_alert();
    assert_eq!(a.alert_plays_remaining, 3);
    let alerting = TickReport { any_new_alert: false, any_alerting: true };
    let mut replays = 0;
    while after_tick(&alerting, false, false, a.alert_plays_remaining) == AlertAction::Replay {
        a.take_replay();
        replays += 1;
    }
    assert_eq!(replays, 3);
    a.step_repeat_count(false, true);
    assert_eq!(a.repeat_alert_count, 2);
    a.step_repeat_count(false, true);
    a.step_repeat_count(false, true);
    assert_eq!(a.repeat_alert_count, 1);
    a.repeat_alert_count_str = " 7 ".to_string();
    a.take_typed_repeat_count();
    assert_eq!(a.repeat_alert_count, 7);
    a.repeat_alert_count_str = "0".to_string();
    a.take_typed_repeat_count();
    assert_eq!(a.repeat_alert_count, 7);
    a.show_repeat_count();
    assert_eq!(a.repeat_alert_count_str, "7");
    a.repeat_alert_count = u32::MAX;
    a.step_repeat_count(true, false);
    assert_eq!(a.repeat_alert_count, u32::MAX);
    a.stop_sound();
    assert_eq!(a.alert_plays_remaining, 0);
}

#[test]
fn preview_volume_envelope() {
    assert_eq!(preview_volume(0), Some(0));
    assert_eq!(preview_volume(200), Some(200));
    assert_eq!(preview_volume(400), Some(400));
    assert_eq!(preview_volume(2000), Some(400));
    assert_eq!(preview_volume(3600), Some(400));
    assert_eq!(preview_volume(3800), Some(200));
    assert_eq!(preview_volume(3999), Some(1));
    assert_eq!(preview_volume(4000), None);
}

#[test]
fn fallback_icon_is_solid_accent() {
    let icon = fallback_icon();
    assert_eq!((icon.width, icon.height), (32, 32));
    assert_eq!(icon.rgba.len(), 32 * 32 * 4);
    for px in icon.rgba.chunks(4) {
        assert_eq!(px, &[0xFC, 0x03, 0x5E, 0xFF]);
    }
}

#[test]
fn ratio_padding_twice_is_padding_once() {
    for s in [" 1.5 ", "2", ".25", "1.23456", "3/2", "1e3", "-2", ""] {
        let (once, e1) = ext(s);
        let (twice, e2) = ext(&once);
        assert_eq!(once, twice, "input {s:?}");
        assert_eq!(e1, e2, "input {s:?}");
    }
    assert_eq!(ext(" 1.5 ").0, "1.5000");
}

#[test]
fn config_remembers_cohorts_and_forgets_modes() {
    let mut c = Config::default();
    c.randomize_gaussian = true;
    c.geometric_enabled = true;
    c.remember_random_cohort(12, &"2.5".to_string());
    assert_eq!(c.timer_count, "12");
    assert!(c.randomize_enabled && !c.geometric_enabled);
    assert_eq!(c.randomize_sigma, "2.5");
    c.remember_spaced_cohort("90".to_string(), 4, true, &"1.5000".to_string());
    assert_eq!(c.interval, "90");
    assert_eq!(c.timer_count, "4");
    assert!(c.geometric_enabled);
    assert_eq!(c.geometric_ratio, "1.5000");
    c.remember_randomize(true);
    assert!(c.randomize_enabled && !c.geometric_enabled);
    c.geometric_enabled = true;
    c.remember_randomize(false);
    assert!(!c.randomize_enabled && c.geometric_enabled);
    c.forget_modes();
    assert!(!c.geometric_enabled && !c.randomize_enabled);
    assert_eq!(c.geometric_ratio, "");
    assert_eq!(c.randomize_sigma, "");
    assert!(c.randomize_gaussian, "the gaussian preference survives");
    assert_eq!(c.interval, "90");
}

#[test]
fn ratio_padding_keeps_value() {
    for s in ["1.5", " 2 ", ".25", "007.1", "12345678901.5"] {
        let (padded, e) = ext(s);
        assert_eq!(e, Extension::Done);
        assert_eq!(padded.trim().parse::<f64>().unwrap(), s.trim().parse::<f64>().unwrap(), "{s:?}");
        assert_eq!(padded.trim().split('.').nth(1).unwrap().len(), 4);
    }
}
