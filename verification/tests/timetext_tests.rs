use cascading_timers::timetext::{
    duration_unit, format_clock, format_secs_precise, gap_label, time_terms, TimeTerm,
};

fn terms(s: &str) -> Vec<(String, u32)> {
    time_terms(s)
        .into_iter()
        .map(|t: TimeTerm| (t.text, t.unit_seconds))
        .collect()
}

fn seconds(s: &str) -> f64 {
    let mut total = 0.0;
    for t in time_terms(s) {
        if let Ok(v) = t.text.parse::<f64>() {
            total += v * t.unit_seconds as f64;
        }
    }
    total
}

fn t(x: &str, u: u32) -> (String, u32) {
    (x.to_string(), u)
}

#[test]
fn natural_terms() {
    assert_eq!(terms("1h 30m 45s"), vec![t("1", 3600), t("30", 60), t("45", 1)]);
    assert_eq!(terms("  1.5H  "), vec![t("1.5", 3600)]);
    assert_eq!(terms("90"), vec![t("90", 60)]);
    assert_eq!(terms("5 h"), vec![t("5", 60), t("", 3600)]);
    assert_eq!(terms(""), vec![]);
    assert_eq!(terms("   "), vec![]);
}

#[test]
fn colon_terms_rightmost_first() {
    assert_eq!(terms("1:30:45"), vec![t("45", 1), t("30", 60), t("1", 3600)]);
    assert_eq!(terms("10:00"), vec![t("00", 1), t("10", 60)]);
    assert_eq!(terms("9:8:7:6"), vec![t("6", 1), t("7", 60), t("8", 3600)]);
    assert_eq!(terms(" 1 : 2 "), vec![t("2", 1), t("1", 60)]);
    assert_eq!(terms(":"), vec![t("", 1), t("", 60)]);
}

#[test]
fn terms_sum_to_seconds() {
    assert_eq!(seconds("1h 30m 45s"), 5445.0);
    assert_eq!(seconds("1.5m"), 90.0);
    assert_eq!(seconds("3.75h"), 13500.0);
    assert_eq!(seconds("0:10:00"), 600.0);
    assert_eq!(seconds("90"), 5400.0);
    assert_eq!(seconds("abc"), 0.0);
}

#[test]
fn duration_units() {
    assert_eq!(duration_unit("1h 30m"), (60, "minutes"));
    assert_eq!(duration_unit("2H"), (3600, "hours"));
    assert_eq!(duration_unit("10s"), (1, "seconds"));
    assert_eq!(duration_unit("5s 90"), (1, "seconds"));
    assert_eq!(duration_unit("1:30s"), (60, "minutes"));
    assert_eq!(duration_unit(""), (60, "minutes"));
    assert_eq!(duration_unit("90"), (60, "minutes"));
}

#[test]
fn clock_strings() {
    assert_eq!(format_clock(0), "00:00");
    assert_eq!(format_clock(65), "01:05");
    assert_eq!(format_clock(3725), "01:02:05");
    assert_eq!(format_clock(360000), "100:00:00");
    assert_eq!(gap_label(90_500_000_000), "+ 01:30");
}

#[test]
fn clock_strings_read_back() {
    for secs in [0u64, 1, 59, 60, 61, 3599, 3600, 3725, 86399, 360000] {
        assert_eq!(seconds(&format_clock(secs)), secs as f64);
    }
}

const NS: u64 = 1_000_000_000;

#[test]
fn precise_strings() {
    assert_eq!(format_secs_precise(0), "");
    assert_eq!(format_secs_precise(90 * NS), "1:30");
    assert_eq!(format_secs_precise(3661 * NS + 250_000_000), "1:01:01.25");
    assert_eq!(format_secs_precise(NS / 2), "0:00.5");
    assert_eq!(format_secs_precise(1_000_000), "0:00");
    assert_eq!(format_secs_precise(5 * NS + 50_000_000), "0:05.05");
    assert_eq!(format_secs_precise(5 * NS + 4_999_999), "0:05");
    assert_eq!(format_secs_precise(5 * NS + 5_000_000), "0:05.01");
    assert_eq!(format_secs_precise(59 * NS + 999_000_000), "1:00");
    assert_eq!(format_secs_precise(600 * NS), "10:00");
}

#[test]
fn precise_strings_read_back() {
    for ns in [1u64, NS / 2, 90 * NS, 3661 * NS + 250_000_000, 7 * NS + 333_333_333, 123_456 * NS] {
        let cs = (ns + 5_000_000) / 10_000_000;
        let back = seconds(&format_secs_precise(ns));
        assert!((back * 100.0 - cs as f64).abs() < 1e-6, "{} -> {}", ns, back);
    }
}

#[test]
fn time_text_ignores_surrounding_space_and_case() {
    assert_eq!(terms(" 1.5H "), terms("1.5h"));
    assert_eq!(seconds(" 1.5H "), 5400.0);
    assert_eq!(terms(" 0:10:00\t"), terms("0:10:00"));
    assert!(terms("   ").is_empty());
    assert_eq!(seconds(""), 0.0);
}

#[test]
fn joined_tokens_add_up() {
    let mut both = terms("1h");
    both.extend(terms("30m"));
    assert_eq!(terms("1h 30m"), both);
    assert_eq!(seconds("1h 30m"), seconds("1h") + seconds("30m"));
    let mut both = terms("x");
    both.extend(terms("45s"));
    assert_eq!(terms("x 45s"), both);
    assert_eq!(seconds("x 45s"), 45.0);
}

fn has_precise_shape(t: &str) -> bool {
    let (clock, frac) = match t.split_once('.') {
        Some((c, f)) => (c, Some(f)),
        None => (t, None),
    };
    let frac_ok = frac.map_or(true, |f| (1..=2).contains(&f.len()) && f.bytes().all(|b| b.is_ascii_digit()));
    let parts: Vec<&str> = clock.split(':').collect();
    frac_ok
        && (2..=3).contains(&parts.len())
        && !parts[0].is_empty()
        && parts[0].bytes().all(|b| b.is_ascii_digit())
        && parts[1..].iter().all(|p| p.len() == 2 && p.bytes().all(|b| b.is_ascii_digit()))
}

#[test]
fn precise_strings_have_clock_shape() {
    for ns in [1u64, NS / 2, 90 * NS, 3661 * NS + 250_000_000, 5 * NS + 50_000_000, 360_000 * NS + 10_000_000, u64::MAX] {
        let t = format_secs_precise(ns);
        assert!(has_precise_shape(&t), "{t:?}");
    }
}
