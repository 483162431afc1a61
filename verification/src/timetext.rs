//! Time strings: splitting a typed duration into numeric terms with their
//! units, choosing the display unit of a duration, and rendering durations
//! as clock strings that read back to the same value.
use vstd::prelude::*;
use crate::text::{
    chars_of, decimal, decimal2, digit_char, lemma_split_on_nonempty, lower_ascii_chars,
    lower_ascii_seq, push_all, push_char, push_decimal, push_decimal2, split_chars, split_on,
    split_words, string_of, trim, trim_chars, view_chunks, words,
};

verus! {

/// Nanoseconds per second.
pub const NANOS_PER_SEC: u64 = 1_000_000_000;

/// One numeric term of a time string: the text of the number (still to be
/// read as a decimal) and how many seconds one unit of it is worth.
pub struct TimeTerm {
    pub text: String,
    pub unit_seconds: u32,
}

/// The unit in seconds of the `i`-th colon field, counted from the right.
pub open spec fn colon_unit(i: int) -> nat {
    if i == 0 {
        1
    } else if i == 1 {
        60
    } else {
        3600
    }
}

/// `H:MM:SS` / `MM:SS` form: the last three colon fields, rightmost first
/// (seconds, then minutes, then hours); further fields to the left are ignored.
pub open spec fn colon_terms(t: Seq<char>) -> Seq<(Seq<char>, nat)> {
    let parts = split_on(t, ':');
    let n = parts.len();
    let k = if n < 3 {
        n
    } else {
        3
    };
    Seq::new(k, |i: int| (trim(parts[n - 1 - i]), colon_unit(i)))
}

/// One word of the natural form: a trailing `h`, `m` or `s` gives the unit
/// and is dropped; a bare number counts in minutes.
pub open spec fn word_term(w: Seq<char>) -> (Seq<char>, nat) {
    if w.len() > 0 && w.last() == 'h' {
        (w.drop_last(), 3600)
    } else if w.len() > 0 && w.last() == 'm' {
        (w.drop_last(), 60)
    } else if w.len() > 0 && w.last() == 's' {
        (w.drop_last(), 1)
    } else {
        (w, 60)
    }
}

/// The terms of a time string: after trimming and folding ASCII case, the
/// colon form if a `:` is present, else one term per whitespace-separated word.
/// The duration is the sum, over the terms whose text reads as a number, of
/// that number times the unit.
pub open spec fn spec_time_terms(s: Seq<char>) -> Seq<(Seq<char>, nat)> {
    let t = lower_ascii_seq(trim(s));
    if t.len() == 0 {
        Seq::<(Seq<char>, nat)>::empty()
    } else if t.contains(':') {
        colon_terms(t)
    } else {
        words(t).map_values(|w: Seq<char>| word_term(w))
    }
}

pub open spec fn terms_view(v: Seq<TimeTerm>) -> Seq<(Seq<char>, nat)> {
    v.map_values(|t: TimeTerm| (t.text@, t.unit_seconds as nat))
}

fn contains_char(v: &Vec<char>, c: char) -> (b: bool)
    ensures
        b == v@.contains(c),
{
    for i in 0..v.len()
        invariant
            forall|k: int| 0 <= k < i ==> v@[k] != c,
    {
        if v[i] == c {
            return true;
        }
    }
    false
}

fn word_term_exec(w: &Vec<char>) -> (r: TimeTerm)
    ensures
        (r.text@, r.unit_seconds as nat) == word_term(w@),
{
    let n = w.len();
    let (keep, unit): (usize, u32) = if n > 0 && w[n - 1] == 'h' {
        (n - 1, 3600)
    } else if n > 0 && w[n - 1] == 'm' {
        (n - 1, 60)
    } else if n > 0 && w[n - 1] == 's' {
        (n - 1, 1)
    } else {
        (n, 60)
    };
    let mut t: Vec<char> = Vec::new();
    for i in 0..keep
        invariant
            keep <= n == w.len(),
            t@ == w@.take(i as int),
    {
        t.push(w[i]);
        assert(w@.take(i + 1) =~= w@.take(i as int).push(w@[i as int]));
    }
    assert(w@.take(n - 1) =~= w@.drop_last());
    assert(w@.take(n as int) =~= w@);
    TimeTerm { text: string_of(&t), unit_seconds: unit }
}

/// Splits a time string such as `"1h 30m 45s"`, `"1:30:45"` or `"90"` into
/// its numeric terms.
pub fn time_terms(s: &str) -> (r: Vec<TimeTerm>)
    ensures
        terms_view(r@) == spec_time_terms(s@),
{
    let raw = chars_of(s);
    let trimmed = trim_chars(&raw);
    let t = lower_ascii_chars(&trimmed);
    let mut out: Vec<TimeTerm> = Vec::new();
    if t.len() == 0 {
        assert(terms_view(out@) =~= spec_time_terms(s@));
        return out;
    }
    if contains_char(&t, ':') {
        let parts = split_chars(&t, ':');
        let n = parts.len();
        proof {
            lemma_split_on_nonempty(t@, ':');
        }
        let k: usize = if n < 3 {
            n
        } else {
            3
        };
        let ghost spec = colon_terms(t@);
        for i in 0..k
            invariant
                n == parts.len(),
                k <= n,
                k == spec.len(),
                spec == colon_terms(t@),
                view_chunks(parts@) == split_on(t@, ':'),
                terms_view(out@) == spec.take(i as int),
        {
            let piece = trim_chars(&parts[n - 1 - i]);
            let unit: u32 = if i == 0 {
                1
            } else if i == 1 {
                60
            } else {
                3600
            };
            let ghost before = out@;
            assert(terms_view(before).len() == before.len());
            assert(before.len() == i);
            out.push(TimeTerm { text: string_of(&piece), unit_seconds: unit });
            assert(out@.len() == i + 1);
            assert(view_chunks(parts@)[n - 1 - i] == parts@[n - 1 - i]@);
            assert(out@[i as int].text@ == spec[i as int].0);
            assert(out@[i as int].unit_seconds as nat == spec[i as int].1);
            assert(out@ == before.push(out@[i as int]));
            assert forall|j: int| 0 <= j < i + 1 implies #[trigger] terms_view(out@)[j] == spec.take(
                i + 1,
            )[j] by {
                if j < i {
                    assert(terms_view(before)[j] == spec.take(i as int)[j]);
                }
            }
            assert(terms_view(out@) =~= spec.take(i + 1));
        }
        assert(spec.take(k as int) =~= spec);
        return out;
    }
    let ws = split_words(&t);
    let ghost spec = words(t@).map_values(|w: Seq<char>| word_term(w));
    for i in 0..ws.len()
        invariant
            view_chunks(ws@) == words(t@),
            spec == words(t@).map_values(|w: Seq<char>| word_term(w)),
            terms_view(out@) == spec.take(i as int),
    {
        let term = word_term_exec(&ws[i]);
        let ghost before = out@;
        assert(terms_view(before).len() == before.len());
        assert(before.len() == i);
        out.push(term);
        assert(out@.len() == i + 1);
        assert(out@[i as int] == term);
        assert(view_chunks(ws@)[i as int] == ws@[i as int]@);
        assert forall|j: int| 0 <= j < i + 1 implies #[trigger] terms_view(out@)[j] == spec.take(
            i + 1,
        )[j] by {
            if j < i {
                assert(terms_view(before)[j] == spec.take(i as int)[j]);
            }
        }
        assert(terms_view(out@) =~= spec.take(i + 1));
    }
    assert(spec.take(ws.len() as int) =~= spec);
    out
}

// ─── Display unit of a duration ─────────────────────────────────────────────
/// The unit a word's suffix names, if any.
pub open spec fn suffix_unit(w: Seq<char>) -> Option<nat> {
    if w.len() > 0 && w.last() == 'h' {
        Some(3600)
    } else if w.len() > 0 && w.last() == 'm' {
        Some(60)
    } else if w.len() > 0 && w.last() == 's' {
        Some(1)
    } else {
        None
    }
}

/// The unit of the last word carrying an `h`, `m` or `s` suffix; minutes if none does.
pub open spec fn last_suffix_unit(ws: Seq<Seq<char>>) -> nat
    decreases ws.len(),
{
    if ws.len() == 0 {
        60
    } else {
        match suffix_unit(ws.last()) {
            Some(u) => u,
            None => last_suffix_unit(ws.drop_last()),
        }
    }
}

/// Seconds per unit in which a duration text is expressed: the last `h`/`m`/`s`
/// suffix wins; a bare number or the colon form counts in minutes.
pub open spec fn spec_duration_unit(s: Seq<char>) -> nat {
    let t = lower_ascii_seq(trim(s));
    if t.contains(':') {
        60
    } else {
        last_suffix_unit(words(t))
    }
}

pub open spec fn unit_name(u: nat) -> Seq<char> {
    if u == 3600 {
        "hours"@
    } else if u == 1 {
        "seconds"@
    } else {
        "minutes"@
    }
}

/// The unit a duration text is written in: seconds per unit and its name.
pub fn duration_unit(duration_text: &str) -> (r: (u32, &'static str))
    ensures
        r.0 as nat == spec_duration_unit(duration_text@),
        r.1@ == unit_name(r.0 as nat),
{
    let raw = chars_of(duration_text);
    let trimmed = trim_chars(&raw);
    let t = lower_ascii_chars(&trimmed);
    let mut unit: u32 = 60;
    if !contains_char(&t, ':') {
        let ws = split_words(&t);
        for i in 0..ws.len()
            invariant
                view_chunks(ws@) == words(t@),
                unit as nat == last_suffix_unit(view_chunks(ws@).take(i as int)),
        {
            let w = &ws[i];
            let n = w.len();
            assert(view_chunks(ws@).take(i + 1).drop_last() =~= view_chunks(ws@).take(i as int));
            assert(view_chunks(ws@).take(i + 1).last() == w@);
            if n > 0 && w[n - 1] == 'h' {
                unit = 3600;
            } else if n > 0 && w[n - 1] == 'm' {
                unit = 60;
            } else if n > 0 && w[n - 1] == 's' {
                unit = 1;
            }
        }
        assert(view_chunks(ws@).take(ws.len() as int) =~= view_chunks(ws@));
    }
    proof {
        reveal_strlit("hours");
        reveal_strlit("minutes");
        reveal_strlit("seconds");
    }
    if unit == 3600 {
        (unit, "hours")
    } else if unit == 1 {
        (unit, "seconds")
    } else {
        (unit, "minutes")
    }
}

// ─── Clock strings ──────────────────────────────────────────────────────────
/// `MM:SS`, or `HH:MM:SS` from one hour on (each field zero-padded to two digits).
pub open spec fn clock_text(secs: nat) -> Seq<char> {
    let h = secs / 3600;
    let m = (secs % 3600) / 60;
    let s = secs % 60;
    if h > 0 {
        decimal2(h) + seq![':'] + decimal2(m) + seq![':'] + decimal2(s)
    } else {
        decimal2(m) + seq![':'] + decimal2(s)
    }
}

/// Renders whole seconds as a clock string.
pub fn format_clock(secs: u64) -> (r: String)
    ensures
        r@ == clock_text(secs as nat),
{
    let h = secs / 3600;
    let m = (secs % 3600) / 60;
    let s = secs % 60;
    let mut out = String::new();
    if h > 0 {
        push_decimal2(&mut out, h);
        push_char(&mut out, ':');
    }
    push_decimal2(&mut out, m);
    push_char(&mut out, ':');
    push_decimal2(&mut out, s);
    assert(out@ =~= clock_text(secs as nat));
    out
}

/// The whole seconds in a span of nanoseconds (fractions are dropped).
pub open spec fn whole_secs(nanos: nat) -> nat {
    nanos / (NANOS_PER_SEC as nat)
}

/// The label of a gap between timers: `"+ "` and its clock string.
pub open spec fn gap_label_text(gap_nanos: nat) -> Seq<char> {
    seq!['+', ' '] + clock_text(whole_secs(gap_nanos))
}

/// Label of the time between a timer and the one before it.
pub fn gap_label(gap_nanos: u64) -> (r: String)
    ensures
        r@ == gap_label_text(gap_nanos as nat),
{
    let mut out = String::new();
    push_char(&mut out, '+');
    push_char(&mut out, ' ');
    let clock = format_clock(gap_nanos / NANOS_PER_SEC);
    let cv = chars_of(clock.as_str());
    push_all(&mut out, &cv);
    assert(out@ =~= gap_label_text(gap_nanos as nat));
    out
}

// ─── Precise, re-parseable durations ────────────────────────────────────────
/// A span in nanoseconds rounded to whole centiseconds (halves round up).
pub open spec fn round_centis(nanos: nat) -> nat {
    nanos / 10_000_000 + if nanos % 10_000_000 >= 5_000_000 {
        1nat
    } else {
        0nat
    }
}

/// The fractional part of a centisecond count `d < 100`: empty for zero,
/// otherwise `.` followed by two digits with a trailing zero dropped.
pub open spec fn frac_text(d: nat) -> Seq<char> {
    if d == 0 {
        Seq::<char>::empty()
    } else if d % 10 == 0 {
        seq!['.', digit_char(d / 10)]
    } else {
        seq!['.'] + decimal2(d)
    }
}

/// `H:MM:SS[.cc]` from one hour on, else `M:SS[.cc]`, of the span rounded to
/// centiseconds; the empty string for a zero span.
pub open spec fn precise_text(nanos: nat) -> Seq<char> {
    if nanos == 0 {
        Seq::<char>::empty()
    } else {
        let cs = round_centis(nanos);
        let whole = cs / 100;
        let d = cs % 100;
        let h = whole / 3600;
        let m = (whole % 3600) / 60;
        let s = whole % 60;
        if h > 0 {
            decimal(h) + seq![':'] + decimal2(m) + seq![':'] + decimal2(s) + frac_text(d)
        } else {
            decimal(m) + seq![':'] + decimal2(s) + frac_text(d)
        }
    }
}

/// Renders a span as a time string that reads back to the same value at
/// centisecond precision.
pub fn format_secs_precise(nanos: u64) -> (r: String)
    ensures
        r@ == precise_text(nanos as nat),
{
    if nanos == 0 {
        return String::new();
    }
    let cs: u64 = nanos / 10_000_000 + if nanos % 10_000_000 >= 5_000_000 {
        1
    } else {
        0
    };
    let whole = cs / 100;
    let d = cs % 100;
    let h = whole / 3600;
    let m = (whole % 3600) / 60;
    let s = whole % 60;
    let mut out = String::new();
    if h > 0 {
        push_decimal(&mut out, h);
        push_char(&mut out, ':');
        push_decimal2(&mut out, m);
    } else {
        push_decimal(&mut out, m);
    }
    push_char(&mut out, ':');
    push_decimal2(&mut out, s);
    if d > 0 {
        push_char(&mut out, '.');
        if d % 10 == 0 {
            let c = (((d / 10) as u8) + 48) as char;
            assert(c == digit_char((d / 10) as nat));
            push_char(&mut out, c);
        } else {
            push_decimal2(&mut out, d);
        }
    }
    assert(out@ =~= precise_text(nanos as nat));
    out
}

} // verus!
