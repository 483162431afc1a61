//! Keeping input buffers to the characters their fields accept.
use vstd::prelude::*;
use crate::fields::MAX_COUNT;
use crate::text::{all_digits, chars_of, decimal, decimal_string, digits_value, is_digit, string_of};

verus! {

broadcast use vstd::string::group_string_axioms;

/// The characters a field accepts.
#[derive(Clone, Copy, PartialEq, Eq, Debug, Structural)]
pub enum CharSet {
    /// Digits and `.` (the σ field).
    Sigma,
    /// Digits, `.` and `/` (the ratio field).
    Ratio,
    /// Digits and `.hmsHMS: ` (time fields).
    Time,
    /// Digits only (the count field).
    Digits,
}

pub open spec fn allowed(set: CharSet, c: char) -> bool {
    match set {
        CharSet::Sigma => is_digit(c) || c == '.',
        CharSet::Ratio => is_digit(c) || c == '.' || c == '/',
        CharSet::Time => is_digit(c) || c == '.' || c == 'h' || c == 'm' || c == 's' || c == 'H'
            || c == 'M' || c == 'S' || c == ':' || c == ' ',
        CharSet::Digits => is_digit(c),
    }
}

/// The characters of `s` the set accepts, in order.
pub open spec fn keep_allowed(s: Seq<char>, set: CharSet) -> Seq<char> {
    s.filter(|c: char| allowed(set, c))
}

fn allowed_exec(set: CharSet, c: char) -> (b: bool)
    ensures
        b == allowed(set, c),
{
    let digit = '0' <= c && c <= '9';
    match set {
        CharSet::Sigma => digit || c == '.',
        CharSet::Ratio => digit || c == '.' || c == '/',
        CharSet::Time => digit || c == '.' || c == 'h' || c == 'm' || c == 's' || c == 'H' || c
            == 'M' || c == 'S' || c == ':' || c == ' ',
        CharSet::Digits => digit,
    }
}

/// Drops every character of `s` that the set does not accept.
pub fn retain_allowed(s: &mut String, set: CharSet)
    ensures
        final(s)@ == keep_allowed(old(s)@, set),
{
    let v = chars_of(s.as_str());
    let mut out: Vec<char> = Vec::new();
    for i in 0..v.len()
        invariant
            out@ == v@.take(i as int).filter(|c: char| allowed(set, c)),
    {
        proof {
            reveal(Seq::filter);
            assert(v@.take(i + 1).drop_last() =~= v@.take(i as int));
        }
        if allowed_exec(set, v[i]) {
            out.push(v[i]);
        }
    }
    proof {
        reveal(Seq::filter);
    }
    assert(v@.take(v.len() as int) =~= v@);
    *s = string_of(&out);
}

/// Restricts the σ buffer to digits and a decimal point (its unit comes from
/// the Total Duration field, so no letters).
pub fn sanitize_sigma(s: &mut String)
    ensures
        final(s)@ == keep_allowed(old(s)@, CharSet::Sigma),
{
    retain_allowed(s, CharSet::Sigma);
}

/// Restricts a ratio buffer to digits, decimal points, and a fraction slash.
pub fn sanitize_ratio(s: &mut String)
    ensures
        final(s)@ == keep_allowed(old(s)@, CharSet::Ratio),
{
    retain_allowed(s, CharSet::Ratio);
}

/// Restricts a time buffer to digits and `.hmsHMS: `.
pub fn sanitize_time(s: &mut String)
    ensures
        final(s)@ == keep_allowed(old(s)@, CharSet::Time),
{
    retain_allowed(s, CharSet::Time);
}

/// The count buffer after an edit: digits only, and a count worth more than
/// the maximum, however many digits it has, is replaced by the maximum.
pub open spec fn clamped_count_text(s: Seq<char>) -> Seq<char> {
    let d = keep_allowed(s, CharSet::Digits);
    if d.len() > 0 && digits_value(d) > MAX_COUNT {
        decimal(MAX_COUNT as nat)
    } else {
        d
    }
}

/// The value of a digit string, capped just above the maximum count.
fn capped_count_value(v: &Vec<char>) -> (r: u32)
    requires
        all_digits(v@),
    ensures
        r == if digits_value(v@) > MAX_COUNT {
            MAX_COUNT as nat + 1
        } else {
            digits_value(v@)
        },
{
    let mut acc: u32 = 0;
    for i in 0..v.len()
        invariant
            all_digits(v@),
            acc == if digits_value(v@.take(i as int)) > MAX_COUNT {
                MAX_COUNT as nat + 1
            } else {
                digits_value(v@.take(i as int))
            },
    {
        assert(v@.take(i + 1).drop_last() =~= v@.take(i as int));
        assert(is_digit(v@[i as int]));
        let d = (v[i] as u32) - 48;
        let next = acc * 10 + d;
        acc = if next > MAX_COUNT {
            MAX_COUNT + 1
        } else {
            next
        };
    }
    assert(v@.take(v.len() as int) =~= v@);
    acc
}

/// Restricts the count buffer to digits and clamps a count above the maximum to it.
pub fn sanitize_count(s: &mut String)
    ensures
        final(s)@ == clamped_count_text(old(s)@),
{
    let ghost o = s@;
    retain_allowed(s, CharSet::Digits);
    let v = chars_of(s.as_str());
    assert(all_digits(v@)) by {
        assert forall|i: int| 0 <= i < v@.len() implies is_digit(#[trigger] v@[i]) by {
            o.lemma_filter_pred(|c: char| allowed(CharSet::Digits, c), i);
        }
    }
    if v.len() > 0 && capped_count_value(&v) > MAX_COUNT {
        *s = decimal_string(MAX_COUNT as u64);
    }
}

// ─── Laws ───────────────────────────────────────────────────────────────────
proof fn lemma_filter_idempotent(s: Seq<char>, set: CharSet)
    ensures
        keep_allowed(keep_allowed(s, set), set) == keep_allowed(s, set),
    decreases s.len(),
{
    reveal(Seq::filter);
    if s.len() > 0 {
        let s2 = s.drop_last();
        lemma_filter_idempotent(s2, set);
        let k2 = keep_allowed(s2, set);
        if allowed(set, s.last()) {
            assert(k2.push(s.last()).drop_last() =~= k2);
        }
    }
}

/// Sanitizing keeps only accepted characters, keeps every accepted one in
/// order, and sanitizing again changes nothing.
pub proof fn law_sanitize_idempotent(s: Seq<char>, set: CharSet)
    ensures
        keep_allowed(keep_allowed(s, set), set) == keep_allowed(s, set),
        forall|i: int|
            0 <= i < keep_allowed(s, set).len() ==> allowed(set, #[trigger] keep_allowed(s, set)[i]),
{
    lemma_filter_idempotent(s, set);
    assert forall|i: int| 0 <= i < keep_allowed(s, set).len() implies allowed(
        set,
        #[trigger] keep_allowed(s, set)[i],
    ) by {
        s.lemma_filter_pred(|c: char| allowed(set, c), i);
    }
}

/// A sanitized count is all digits and is either empty or worth at most the
/// maximum count; a text worth more becomes exactly the maximum.
pub proof fn law_count_clamped(s: Seq<char>)
    ensures
        all_digits(clamped_count_text(s)),
        clamped_count_text(s).len() == 0 || digits_value(clamped_count_text(s)) <= MAX_COUNT,
        keep_allowed(s, CharSet::Digits).len() > 0 && digits_value(keep_allowed(s, CharSet::Digits))
            > MAX_COUNT ==> clamped_count_text(s) == decimal(MAX_COUNT as nat),
{
    let d = keep_allowed(s, CharSet::Digits);
    assert forall|i: int| 0 <= i < d.len() implies is_digit(#[trigger] d[i]) by {
        s.lemma_filter_pred(|c: char| allowed(CharSet::Digits, c), i);
    }
    crate::text::lemma_decimal_digits(MAX_COUNT as nat);
}

proof fn lemma_filter_keeps_all(s: Seq<char>, set: CharSet)
    requires
        forall|i: int| 0 <= i < s.len() ==> allowed(set, #[trigger] s[i]),
    ensures
        keep_allowed(s, set) == s,
    decreases s.len(),
{
    reveal(Seq::filter);
    if s.len() > 0 {
        let s2 = s.drop_last();
        assert forall|i: int| 0 <= i < s2.len() implies allowed(set, #[trigger] s2[i]) by {
            assert(s2[i] == s[i]);
        }
        lemma_filter_keeps_all(s2, set);
        assert(allowed(set, s[s.len() - 1]));
        assert(s2.push(s.last()) =~= s);
    } else {
        assert(s.filter(|c: char| allowed(set, c)) =~= s);
    }
}

/// Which characters each field keeps, character by character: the time
/// fields keep digits and `.`, `h`, `m`, `s`, `H`, `M`, `S`, `:` and space;
/// the σ field digits and `.`; the ratio field digits, `.` and `/`; the
/// count field digits. A text made only of kept characters is left exactly
/// as typed, and what is left never holds any other character.
pub proof fn law_fields_keep_their_characters(s: Seq<char>)
    ensures
        (forall|i: int| 0 <= i < s.len() ==> ('0' <= #[trigger] s[i] <= '9' || s[i] == '.' || s[i]
            == 'h' || s[i] == 'm' || s[i] == 's' || s[i] == 'H' || s[i] == 'M' || s[i] == 'S'
            || s[i] == ':' || s[i] == ' ')) ==> keep_allowed(s, CharSet::Time) == s,
        forall|i: int|
            0 <= i < keep_allowed(s, CharSet::Time).len() ==> {
                let c = #[trigger] keep_allowed(s, CharSet::Time)[i];
                '0' <= c <= '9' || c == '.' || c == 'h' || c == 'm' || c == 's' || c == 'H' || c
                    == 'M' || c == 'S' || c == ':' || c == ' '
            },
        (forall|i: int| 0 <= i < s.len() ==> ('0' <= #[trigger] s[i] <= '9' || s[i] == '.'))
            ==> keep_allowed(s, CharSet::Sigma) == s,
        forall|i: int|
            0 <= i < keep_allowed(s, CharSet::Sigma).len() ==> {
                let c = #[trigger] keep_allowed(s, CharSet::Sigma)[i];
                '0' <= c <= '9' || c == '.'
            },
        (forall|i: int| 0 <= i < s.len() ==> ('0' <= #[trigger] s[i] <= '9' || s[i] == '.' || s[i]
            == '/')) ==> keep_allowed(s, CharSet::Ratio) == s,
        forall|i: int|
            0 <= i < keep_allowed(s, CharSet::Ratio).len() ==> {
                let c = #[trigger] keep_allowed(s, CharSet::Ratio)[i];
                '0' <= c <= '9' || c == '.' || c == '/'
            },
        (forall|i: int| 0 <= i < s.len() ==> '0' <= #[trigger] s[i] <= '9') ==> keep_allowed(
            s,
            CharSet::Digits,
        ) == s,
        forall|i: int|
            0 <= i < keep_allowed(s, CharSet::Digits).len() ==> '0' <= #[trigger] keep_allowed(
                s,
                CharSet::Digits,
            )[i] <= '9',
{
    law_sanitize_idempotent(s, CharSet::Time);
    law_sanitize_idempotent(s, CharSet::Sigma);
    law_sanitize_idempotent(s, CharSet::Ratio);
    law_sanitize_idempotent(s, CharSet::Digits);
    if forall|i: int| 0 <= i < s.len() ==> ('0' <= #[trigger] s[i] <= '9' || s[i] == '.' || s[i]
        == 'h' || s[i] == 'm' || s[i] == 's' || s[i] == 'H' || s[i] == 'M' || s[i] == 'S'
        || s[i] == ':' || s[i] == ' ') {
        lemma_filter_keeps_all(s, CharSet::Time);
    }
    if forall|i: int| 0 <= i < s.len() ==> ('0' <= #[trigger] s[i] <= '9' || s[i] == '.') {
        lemma_filter_keeps_all(s, CharSet::Sigma);
    }
    if forall|i: int| 0 <= i < s.len() ==> ('0' <= #[trigger] s[i] <= '9' || s[i] == '.' || s[i]
        == '/') {
        lemma_filter_keeps_all(s, CharSet::Ratio);
    }
    if forall|i: int| 0 <= i < s.len() ==> '0' <= #[trigger] s[i] <= '9' {
        lemma_filter_keeps_all(s, CharSet::Digits);
    }
}

} // verus!
