//! Clock strings read back to the time they show.
use vstd::prelude::*;
use crate::text::{
    all_digits, decimal, decimal2, digit_char, digit_value, digits_value, is_digit, is_space,
    lemma_decimal2_digits, lemma_decimal_digits, lemma_digit_char, lemma_trim_no_space,
    lower_ascii, lower_ascii_seq, split_on, trim,
};
use crate::timetext::{
    clock_text, colon_terms, frac_text, precise_text, round_centis, spec_time_terms,
};

verus! {

/// A character of a plain decimal numeral.
pub open spec fn numeral_char(c: char) -> bool {
    is_digit(c) || c == '.'
}

pub open spec fn numeral_text(s: Seq<char>) -> bool {
    forall|i: int| 0 <= i < s.len() ==> numeral_char(#[trigger] s[i])
}

/// The sum of each term's digits read as a whole number, times its unit.
pub open spec fn whole_terms_total(ts: Seq<(Seq<char>, nat)>) -> int
    decreases ts.len(),
{
    if ts.len() == 0 {
        0
    } else {
        whole_terms_total(ts.drop_last()) + digits_value(ts.last().0) * ts.last().1
    }
}

/// Hundredths of a fraction written with one or two digits.
pub open spec fn frac_centis(f: Seq<char>) -> int {
    if f.len() == 1 {
        (digit_value(f[0]) * 10) as int
    } else {
        digits_value(f) as int
    }
}

/// A plain decimal numeral with at most two decimals: digits, optionally
/// followed by `.` and one or two digits.
pub open spec fn centis_numeral(t: Seq<char>) -> bool {
    let p = split_on(t, '.');
    &&& p[0].len() >= 1
    &&& all_digits(p[0])
    &&& (p.len() == 1 || (p.len() == 2 && 1 <= p[1].len() <= 2 && all_digits(p[1])))
}

/// The value of a centisecond numeral, in hundredths.
pub open spec fn centis_of(t: Seq<char>) -> int {
    let p = split_on(t, '.');
    if p.len() == 1 {
        (digits_value(p[0]) * 100) as int
    } else {
        digits_value(p[0]) * 100 + frac_centis(p[1])
    }
}

/// The sum of each term's value in hundredths, times its unit.
pub open spec fn centis_terms_total(ts: Seq<(Seq<char>, nat)>) -> int
    decreases ts.len(),
{
    if ts.len() == 0 {
        0
    } else {
        centis_terms_total(ts.drop_last()) + centis_of(ts.last().0) * ts.last().1
    }
}

// ─── Splitting ──────────────────────────────────────────────────────────────
proof fn lemma_split_no_sep(a: Seq<char>, sep: char)
    requires
        forall|i: int| 0 <= i < a.len() ==> #[trigger] a[i] != sep,
    ensures
        split_on(a, sep) == seq![a],
    decreases a.len(),
{
    if a.len() > 0 {
        let a2 = a.drop_last();
        assert forall|i: int| 0 <= i < a2.len() implies #[trigger] a2[i] != sep by {
            assert(a2[i] == a[i]);
        }
        lemma_split_no_sep(a2, sep);
        assert(a2.push(a.last()) =~= a);
        assert(seq![a2].update(0, a2.push(a.last())) =~= seq![a]);
    } else {
        assert(a =~= Seq::<char>::empty());
    }
}

proof fn lemma_split_concat(a: Seq<char>, b: Seq<char>, sep: char)
    ensures
        split_on(a + seq![sep] + b, sep) == split_on(a, sep) + split_on(b, sep),
    decreases b.len(),
{
    crate::text::lemma_split_on_nonempty(a, sep);
    if b.len() == 0 {
        let t = a + seq![sep];
        assert((a + seq![sep] + b) =~= t);
        assert(t.drop_last() =~= a);
        assert(split_on(b, sep) =~= seq![Seq::<char>::empty()]);
        assert(split_on(a, sep).push(Seq::<char>::empty()) =~= split_on(a, sep) + seq![
            Seq::<char>::empty(),
        ]);
    } else {
        let b2 = b.drop_last();
        lemma_split_concat(a, b2, sep);
        crate::text::lemma_split_on_nonempty(b2, sep);
        let t = a + seq![sep] + b;
        assert(t.drop_last() =~= a + seq![sep] + b2);
        assert(t.last() == b.last());
        let pa = split_on(a, sep);
        let pb2 = split_on(b2, sep);
        if b.last() == sep {
            assert((pa + pb2).push(Seq::<char>::empty()) =~= pa + pb2.push(Seq::<char>::empty()));
        } else {
            assert((pa + pb2).update(
                (pa + pb2).len() - 1,
                (pa + pb2).last().push(b.last()),
            ) =~= pa + pb2.update(pb2.len() - 1, pb2.last().push(b.last())));
        }
    }
}

// ─── Two and three colon fields ─────────────────────────────────────────────
proof fn lemma_clean_text(t: Seq<char>)
    requires
        forall|i: int| 0 <= i < t.len() ==> numeral_char(#[trigger] t[i]) || t[i] == ':',
    ensures
        trim(t) == t,
        lower_ascii_seq(t) == t,
{
    assert forall|i: int| 0 <= i < t.len() implies !is_space(#[trigger] t[i]) by {}
    lemma_trim_no_space(t);
    assert(lower_ascii_seq(t) =~= t);
}

proof fn lemma_numeral_no_colon(a: Seq<char>)
    requires
        numeral_text(a),
    ensures
        forall|i: int| 0 <= i < a.len() ==> #[trigger] a[i] != ':',
        trim(a) == a,
{
    assert forall|i: int| 0 <= i < a.len() implies !is_space(#[trigger] a[i]) by {
        assert(numeral_char(a[i]));
    }
    lemma_trim_no_space(a);
}

proof fn lemma_terms_two(a: Seq<char>, b: Seq<char>)
    requires
        numeral_text(a),
        numeral_text(b),
    ensures
        spec_time_terms(a + seq![':'] + b) == seq![(b, 1nat), (a, 60nat)],
{
    let t = a + seq![':'] + b;
    assert forall|i: int| 0 <= i < t.len() implies numeral_char(#[trigger] t[i]) || t[i]
        == ':' by {
        if i < a.len() {
            assert(t[i] == a[i]);
        } else if i > a.len() {
            assert(t[i] == b[i - a.len() - 1]);
        }
    }
    lemma_clean_text(t);
    assert(t[a.len() as int] == ':');
    assert(t.contains(':'));
    lemma_numeral_no_colon(a);
    lemma_numeral_no_colon(b);
    lemma_split_concat(a, b, ':');
    lemma_split_no_sep(a, ':');
    lemma_split_no_sep(b, ':');
    assert(split_on(t, ':') =~= seq![a, b]);
    assert(colon_terms(t) =~= seq![(b, 1nat), (a, 60nat)]);
}

proof fn lemma_terms_three(a: Seq<char>, b: Seq<char>, c: Seq<char>)
    requires
        numeral_text(a),
        numeral_text(b),
        numeral_text(c),
    ensures
        spec_time_terms(a + seq![':'] + b + seq![':'] + c) == seq![
            (c, 1nat),
            (b, 60nat),
            (a, 3600nat),
        ],
{
    let ab = a + seq![':'] + b;
    let t = ab + seq![':'] + c;
    assert forall|i: int| 0 <= i < t.len() implies numeral_char(#[trigger] t[i]) || t[i]
        == ':' by {
        if i < a.len() {
            assert(t[i] == a[i]);
        } else if a.len() < i < ab.len() {
            assert(t[i] == b[i - a.len() - 1]);
        } else if i > ab.len() {
            assert(t[i] == c[i - ab.len() - 1]);
        }
    }
    lemma_clean_text(t);
    assert(t[a.len() as int] == ':');
    assert(t.contains(':'));
    lemma_numeral_no_colon(a);
    lemma_numeral_no_colon(b);
    lemma_numeral_no_colon(c);
    lemma_split_concat(a, b, ':');
    lemma_split_concat(ab, c, ':');
    lemma_split_no_sep(a, ':');
    lemma_split_no_sep(b, ':');
    lemma_split_no_sep(c, ':');
    assert(split_on(t, ':') =~= seq![a, b, c]);
    assert(colon_terms(t) =~= seq![(c, 1nat), (b, 60nat), (a, 3600nat)]);
}

proof fn lemma_digits_numeral(s: Seq<char>)
    requires
        all_digits(s),
    ensures
        numeral_text(s),
{
    assert forall|i: int| 0 <= i < s.len() implies numeral_char(#[trigger] s[i]) by {
        assert(is_digit(s[i]));
    }
}

proof fn lemma_whole_total3(a: Seq<char>, b: Seq<char>, c: Seq<char>)
    ensures
        whole_terms_total(seq![(c, 1nat), (b, 60nat), (a, 3600nat)]) == digits_value(c)
            + digits_value(b) * 60 + digits_value(a) * 3600,
{
    let ts = seq![(c, 1nat), (b, 60nat), (a, 3600nat)];
    assert(ts.drop_last() =~= seq![(c, 1nat), (b, 60nat)]);
    assert(ts.drop_last().drop_last() =~= seq![(c, 1nat)]);
    assert(ts.drop_last().drop_last().drop_last() =~= Seq::<(Seq<char>, nat)>::empty());
    assert(seq![(c, 1nat)].drop_last() =~= Seq::<(Seq<char>, nat)>::empty());
    assert(seq![(c, 1nat)].last() == (c, 1nat));
    assert(whole_terms_total(Seq::<(Seq<char>, nat)>::empty()) == 0);
    assert(whole_terms_total(seq![(c, 1nat)]) == digits_value(c));
    assert(whole_terms_total(seq![(c, 1nat), (b, 60nat)]) == digits_value(c) + digits_value(b)
        * 60);
}

proof fn lemma_whole_total2(b: Seq<char>, c: Seq<char>)
    ensures
        whole_terms_total(seq![(c, 1nat), (b, 60nat)]) == digits_value(c) + digits_value(b) * 60,
{
    let ts = seq![(c, 1nat), (b, 60nat)];
    assert(ts.drop_last() =~= seq![(c, 1nat)]);
    assert(ts.drop_last().drop_last() =~= Seq::<(Seq<char>, nat)>::empty());
    assert(seq![(c, 1nat)].drop_last() =~= Seq::<(Seq<char>, nat)>::empty());
    assert(seq![(c, 1nat)].last() == (c, 1nat));
    assert(whole_terms_total(Seq::<(Seq<char>, nat)>::empty()) == 0);
    assert(whole_terms_total(seq![(c, 1nat)]) == digits_value(c));
}

proof fn lemma_centis_total3(a: Seq<char>, b: Seq<char>, c: Seq<char>)
    ensures
        centis_terms_total(seq![(c, 1nat), (b, 60nat), (a, 3600nat)]) == centis_of(c) + centis_of(
            b,
        ) * 60 + centis_of(a) * 3600,
{
    let ts = seq![(c, 1nat), (b, 60nat), (a, 3600nat)];
    assert(ts.drop_last() =~= seq![(c, 1nat), (b, 60nat)]);
    assert(ts.drop_last().drop_last() =~= seq![(c, 1nat)]);
    assert(ts.drop_last().drop_last().drop_last() =~= Seq::<(Seq<char>, nat)>::empty());
    assert(seq![(c, 1nat)].drop_last() =~= Seq::<(Seq<char>, nat)>::empty());
    assert(seq![(c, 1nat)].last() == (c, 1nat));
    assert(centis_terms_total(Seq::<(Seq<char>, nat)>::empty()) == 0);
    assert(centis_terms_total(seq![(c, 1nat)]) == centis_of(c));
    assert(centis_terms_total(seq![(c, 1nat), (b, 60nat)]) == centis_of(c) + centis_of(b) * 60);
}

proof fn lemma_centis_total2(b: Seq<char>, c: Seq<char>)
    ensures
        centis_terms_total(seq![(c, 1nat), (b, 60nat)]) == centis_of(c) + centis_of(b) * 60,
{
    let ts = seq![(c, 1nat), (b, 60nat)];
    assert(ts.drop_last() =~= seq![(c, 1nat)]);
    assert(ts.drop_last().drop_last() =~= Seq::<(Seq<char>, nat)>::empty());
    assert(seq![(c, 1nat)].drop_last() =~= Seq::<(Seq<char>, nat)>::empty());
    assert(seq![(c, 1nat)].last() == (c, 1nat));
    assert(centis_terms_total(Seq::<(Seq<char>, nat)>::empty()) == 0);
    assert(centis_terms_total(seq![(c, 1nat)]) == centis_of(c));
}

proof fn lemma_whole_field_centis(a: Seq<char>)
    requires
        a.len() >= 1,
        all_digits(a),
    ensures
        centis_numeral(a),
        centis_of(a) == digits_value(a) * 100,
{
    assert forall|i: int| 0 <= i < a.len() implies #[trigger] a[i] != '.' by {
        assert(is_digit(a[i]));
    }
    lemma_split_no_sep(a, '.');
}

/// A clock string (`MM:SS` or `HH:MM:SS`) splits into whole-number terms
/// that add back up to the seconds it shows.
pub proof fn law_clock_text_reads_back(secs: nat)
    ensures
        forall|i: int|
            0 <= i < spec_time_terms(clock_text(secs)).len() ==> all_digits(
                (#[trigger] spec_time_terms(clock_text(secs))[i]).0,
            ),
        whole_terms_total(spec_time_terms(clock_text(secs))) == secs,
{
    let h = secs / 3600;
    let m = (secs % 3600) / 60;
    let s = secs % 60;
    lemma_decimal2_digits(h);
    lemma_decimal2_digits(m);
    lemma_decimal2_digits(s);
    lemma_digits_numeral(decimal2(h));
    lemma_digits_numeral(decimal2(m));
    lemma_digits_numeral(decimal2(s));
    if h > 0 {
        lemma_terms_three(decimal2(h), decimal2(m), decimal2(s));
        lemma_whole_total3(decimal2(h), decimal2(m), decimal2(s));
        assert(s + m * 60 + h * 3600 == secs);
    } else {
        lemma_terms_two(decimal2(m), decimal2(s));
        lemma_whole_total2(decimal2(m), decimal2(s));
        assert(s + m * 60 == secs);
    }
}

// ─── Precise strings ────────────────────────────────────────────────────────
proof fn lemma_seconds_field(s: nat, d: nat)
    requires
        s < 60,
        d < 100,
    ensures
        numeral_text(decimal2(s) + frac_text(d)),
        centis_numeral(decimal2(s) + frac_text(d)),
        centis_of(decimal2(s) + frac_text(d)) == s * 100 + d,
{
    lemma_decimal2_digits(s);
    let a = decimal2(s);
    let f = frac_text(d);
    let t = a + f;
    assert forall|i: int| 0 <= i < a.len() implies #[trigger] a[i] != '.' by {
        assert(is_digit(a[i]));
    }
    lemma_split_no_sep(a, '.');
    if d == 0 {
        assert(t =~= a);
        lemma_digits_numeral(a);
    } else {
        let g = f.drop_first();
        assert(f =~= seq!['.'] + g);
        assert(t =~= a + seq!['.'] + g);
        if d % 10 == 0 {
            lemma_digit_char(d / 10);
            assert(g =~= seq![digit_char(d / 10)]);
            assert(all_digits(g));
        } else {
            lemma_decimal2_digits(d);
            assert(g =~= decimal2(d));
            assert(d >= 10 ==> decimal(d).len() == 2) by {
                if d >= 10 {
                    lemma_decimal_digits(d / 10);
                    assert(decimal(d / 10).len() == 1);
                }
            }
        }
        assert forall|i: int| 0 <= i < g.len() implies #[trigger] g[i] != '.' by {
            assert(is_digit(g[i]));
        }
        lemma_split_no_sep(g, '.');
        lemma_split_concat(a, g, '.');
        assert(split_on(t, '.') =~= seq![a, g]);
        assert forall|i: int| 0 <= i < t.len() implies numeral_char(#[trigger] t[i]) by {
            if i < a.len() {
                assert(t[i] == a[i]);
                assert(is_digit(a[i]));
            } else if i > a.len() {
                assert(t[i] == g[i - a.len() - 1]);
                assert(is_digit(g[i - a.len() - 1]));
            }
        }
        if d % 10 == 0 {
            assert(frac_centis(g) == (d / 10) * 10);
        } else {
            assert(frac_centis(g) == d);
        }
    }
}

/// A precise duration string splits into decimal terms of at most two
/// decimals that add back up to the span rounded to centiseconds.
pub proof fn law_precise_text_reads_back(nanos: nat)
    requires
        nanos > 0,
    ensures
        forall|i: int|
            0 <= i < spec_time_terms(precise_text(nanos)).len() ==> centis_numeral(
                (#[trigger] spec_time_terms(precise_text(nanos))[i]).0,
            ),
        centis_terms_total(spec_time_terms(precise_text(nanos))) == round_centis(nanos),
{
    let cs = round_centis(nanos);
    let whole = cs / 100;
    let d = cs % 100;
    let h = whole / 3600;
    let m = (whole % 3600) / 60;
    let s = whole % 60;
    lemma_seconds_field(s, d);
    let last = decimal2(s) + frac_text(d);
    if h > 0 {
        lemma_precise_hours(h, m, last);
        assert(precise_text(nanos) =~= decimal(h) + seq![':'] + decimal2(m) + seq![':'] + last);
        assert(s * 100 + d + (m * 100) * 60 + (h * 100) * 3600 == cs);
    } else {
        lemma_precise_minutes(m, last);
        assert(precise_text(nanos) =~= decimal(m) + seq![':'] + last);
        assert(s * 100 + d + (m * 100) * 60 == cs);
    }
}

proof fn lemma_precise_hours(h: nat, m: nat, last: Seq<char>)
    requires
        numeral_text(last),
        centis_numeral(last),
    ensures
        ({
            let ts = spec_time_terms(decimal(h) + seq![':'] + decimal2(m) + seq![':'] + last);
            &&& forall|i: int| 0 <= i < ts.len() ==> centis_numeral((#[trigger] ts[i]).0)
            &&& centis_terms_total(ts) == centis_of(last) + (m * 100) * 60 + (h * 100) * 3600
        }),
{
    lemma_decimal_digits(h);
    lemma_decimal2_digits(m);
    lemma_digits_numeral(decimal(h));
    lemma_digits_numeral(decimal2(m));
    lemma_whole_field_centis(decimal(h));
    lemma_whole_field_centis(decimal2(m));
    lemma_terms_three(decimal(h), decimal2(m), last);
    lemma_centis_total3(decimal(h), decimal2(m), last);
}

proof fn lemma_precise_minutes(m: nat, last: Seq<char>)
    requires
        numeral_text(last),
        centis_numeral(last),
    ensures
        ({
            let ts = spec_time_terms(decimal(m) + seq![':'] + last);
            &&& forall|i: int| 0 <= i < ts.len() ==> centis_numeral((#[trigger] ts[i]).0)
            &&& centis_terms_total(ts) == centis_of(last) + (m * 100) * 60
        }),
{
    lemma_decimal_digits(m);
    lemma_digits_numeral(decimal(m));
    lemma_whole_field_centis(decimal(m));
    lemma_terms_two(decimal(m), last);
    lemma_centis_total2(decimal(m), last);
}

/// Exactly two decimal digits.
pub open spec fn two_digits(g: Seq<char>) -> bool {
    g.len() == 2 && all_digits(g)
}

/// Nothing, or a point followed by one or two digits.
pub open spec fn centis_suffix(f: Seq<char>) -> bool {
    f.len() == 0 || (2 <= f.len() <= 3 && f[0] == '.' && all_digits(f.drop_first()))
}

/// The shape of a precise time string: a whole number, one or two
/// `:`-separated two-digit fields, and an optional one- or two-digit
/// fraction (`D+(:DD){1,2}(.D{1,2})?`).
pub open spec fn precise_shape(t: Seq<char>) -> bool {
    exists|lead: Seq<char>, mids: Seq<Seq<char>>, f: Seq<char>|
        {
            &&& lead.len() > 0 && all_digits(lead)
            &&& 1 <= mids.len() <= 2
            &&& forall|i: int| 0 <= i < mids.len() ==> two_digits(#[trigger] mids[i])
            &&& centis_suffix(f)
            &&& t == lead + seq![':'] + mids[0] + (if mids.len() == 2 {
                seq![':'] + mids[1]
            } else {
                Seq::<char>::empty()
            }) + f
        }
}

proof fn lemma_decimal2_two(n: nat)
    requires
        n < 100,
    ensures
        two_digits(decimal2(n)),
{
    lemma_decimal2_digits(n);
    if n >= 10 {
        assert(decimal(n / 10).len() == 1);
    }
}

proof fn lemma_frac_suffix(d: nat)
    requires
        d < 100,
    ensures
        centis_suffix(frac_text(d)),
{
    if d != 0 {
        if d % 10 == 0 {
            lemma_digit_char(d / 10);
            assert(frac_text(d).drop_first() =~= seq![digit_char(d / 10)]);
        } else {
            lemma_decimal2_two(d);
            assert(frac_text(d).drop_first() =~= decimal2(d));
        }
    }
}

/// A precise time string of a nonzero span always has the clock shape
/// `D+(:DD){1,2}(.D{1,2})?`.
pub proof fn law_precise_text_shape(nanos: nat)
    requires
        nanos > 0,
    ensures
        precise_shape(precise_text(nanos)),
{
    let cs = round_centis(nanos);
    let whole = cs / 100;
    let d = cs % 100;
    let h = whole / 3600;
    let m = (whole % 3600) / 60;
    let s = whole % 60;
    lemma_frac_suffix(d);
    lemma_decimal2_two(s);
    lemma_decimal2_two(m);
    let f = frac_text(d);
    if h > 0 {
        lemma_decimal_digits(h);
        let mids = seq![decimal2(m), decimal2(s)];
        assert(precise_text(nanos) == decimal(h) + seq![':'] + mids[0] + (seq![':'] + mids[1]) + f);
        assert(forall|i: int| 0 <= i < mids.len() ==> two_digits(#[trigger] mids[i]));
    } else {
        lemma_decimal_digits(m);
        let mids = seq![decimal2(s)];
        assert(precise_text(nanos) =~= decimal(m) + seq![':'] + mids[0] + Seq::<char>::empty() + f);
        assert(forall|i: int| 0 <= i < mids.len() ==> two_digits(#[trigger] mids[i]));
    }
}

} // verus!
