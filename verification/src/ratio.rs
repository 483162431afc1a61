//! Geometric ratio texts: plain decimals (`1.5`, `.5`, `2`) or fractions
//! (`3/2`, `1.5/2`).
use vstd::prelude::*;
use crate::text::{
    all_digits, chars_of, decimal, digits_value, is_digit, push_all, push_char, push_decimal,
    string_of, trim, trim_chars,
};

verus! {

broadcast use vstd::string::group_string_axioms;

/// The numeric parts of a ratio text, still to be read as numbers.
pub enum RatioText {
    /// Numerator and denominator texts of `num/den` (each trimmed).
    Fraction(String, String),
    /// A single number.
    Plain(String),
}

/// The position of the first `c` in `s`, if any.
pub open spec fn first_index(s: Seq<char>, c: char) -> Option<int> {
    if exists|i: int| 0 <= i < s.len() && s[i] == c {
        Some(choose|i: int| 0 <= i < s.len() && s[i] == c && forall|j: int| 0 <= j < i ==> s[j] != c)
    } else {
        None
    }
}

/// The parts of a ratio text: nothing when it is blank; split at the first
/// `/` into trimmed numerator and denominator; otherwise the trimmed text.
pub open spec fn spec_split_ratio(s: Seq<char>) -> Option<(Seq<char>, Option<Seq<char>>)> {
    let t = trim(s);
    if t.len() == 0 {
        None
    } else {
        match first_index(t, '/') {
            Some(k) => Some((trim(t.take(k)), Some(trim(t.skip(k + 1))))),
            None => Some((t, None)),
        }
    }
}

pub open spec fn ratio_text_view(r: Option<RatioText>) -> Option<(Seq<char>, Option<Seq<char>>)> {
    match r {
        Some(RatioText::Fraction(n, d)) => Some((n@, Some(d@))),
        Some(RatioText::Plain(t)) => Some((t@, None)),
        None => None,
    }
}

fn subrange_chars(v: &Vec<char>, lo: usize, hi: usize) -> (r: Vec<char>)
    requires
        lo <= hi <= v.len(),
    ensures
        r@ == v@.subrange(lo as int, hi as int),
{
    let mut r: Vec<char> = Vec::new();
    let mut i = lo;
    while i < hi
        invariant
            lo <= i <= hi <= v.len(),
            r@ == v@.subrange(lo as int, i as int),
        decreases hi - i,
    {
        r.push(v[i]);
        assert(v@.subrange(lo as int, i + 1) =~= v@.subrange(lo as int, i as int).push(
            v@[i as int],
        ));
        i = i + 1;
    }
    r
}

proof fn lemma_first_index(s: Seq<char>, c: char, k: int)
    requires
        0 <= k < s.len(),
        s[k] == c,
        forall|j: int| 0 <= j < k ==> s[j] != c,
    ensures
        first_index(s, c) == Some(k),
{
    let w = choose|i: int| 0 <= i < s.len() && s[i] == c && forall|j: int| 0 <= j < i ==> s[j] != c;
    assert(0 <= k < s.len() && s[k] == c && forall|j: int| 0 <= j < k ==> s[j] != c);
    if w < k {
        assert(s[w] != c);
    } else if w > k {
        assert(s[k] != c);
    }
}

/// Splits a ratio text into the numbers it is made of.
pub fn split_ratio(s: &str) -> (r: Option<RatioText>)
    ensures
        ratio_text_view(r) == spec_split_ratio(s@),
{
    let t = trim_chars(&chars_of(s));
    if t.len() == 0 {
        return None;
    }
    let mut i: usize = 0;
    while i < t.len()
        invariant
            i <= t.len(),
            t@ == trim(s@),
            forall|j: int| 0 <= j < i ==> t@[j] != '/',
        decreases t.len() - i,
    {
        if t[i] == '/' {
            proof {
                lemma_first_index(t@, '/', i as int);
            }
            let num = trim_chars(&subrange_chars(&t, 0, i));
            let den = trim_chars(&subrange_chars(&t, i + 1, t.len()));
            assert(t@.take(i as int) =~= t@.subrange(0, i as int));
            assert(t@.skip(i + 1) =~= t@.subrange(i + 1, t@.len() as int));
            return Some(RatioText::Fraction(string_of(&num), string_of(&den)));
        }
        i = i + 1;
    }
    assert(!exists|i: int| 0 <= i < t@.len() && t@[i] == '/');
    Some(RatioText::Plain(string_of(&t)))
}

/// A ratio text is split at its first `/`: the trimmed text before it is the
/// numerator and the trimmed text after it (further slashes included) the
/// denominator; a text without `/` is one number; a blank text is nothing.
pub proof fn law_split_at_first_slash(s: Seq<char>, k: int)
    ensures
        trim(s).len() == 0 ==> spec_split_ratio(s) is None,
        trim(s).len() > 0 && (forall|j: int| 0 <= j < trim(s).len() ==> #[trigger] trim(s)[j] != '/')
            ==> spec_split_ratio(s) == Some((trim(s), None::<Seq<char>>)),
        0 <= k < trim(s).len() && trim(s)[k] == '/' && (forall|j: int|
            0 <= j < k ==> #[trigger] trim(s)[j] != '/') ==> spec_split_ratio(s) == Some(
            (trim(trim(s).take(k)), Some(trim(trim(s).skip(k + 1)))),
        ),
{
    let t = trim(s);
    if 0 <= k < t.len() && t[k] == '/' && (forall|j: int| 0 <= j < k ==> #[trigger] t[j] != '/') {
        lemma_first_index(t, '/', k);
    }
}

// ─── Padding decimals ───────────────────────────────────────────────────────
/// Digits with at most one `.` and at least one digit.
pub open spec fn plain_decimal(t: Seq<char>) -> bool {
    &&& forall|i: int| 0 <= i < t.len() ==> is_digit(#[trigger] t[i]) || t[i] == '.'
    &&& forall|i: int, j: int| 0 <= i < j < t.len() && t[i] == '.' ==> t[j] != '.'
    &&& exists|i: int| 0 <= i < t.len() && is_digit(#[trigger] t[i])
}

/// The digits before the point.
pub open spec fn int_part(t: Seq<char>) -> Seq<char> {
    match first_index(t, '.') {
        Some(k) => t.take(k),
        None => t,
    }
}

/// The digits after the point (none without a point).
pub open spec fn frac_part(t: Seq<char>) -> Seq<char> {
    match first_index(t, '.') {
        Some(k) => t.skip(k + 1),
        None => Seq::<char>::empty(),
    }
}

/// Largest whole part padded here; beyond it the text is left to the caller.
pub const PAD_LIMIT: u64 = 100_000_000_000;

/// `t` with four decimals: the whole part without leading zeros (`0` if
/// none), a point, and the decimals followed by zeros.
pub open spec fn padded4(t: Seq<char>) -> Seq<char> {
    decimal(digits_value(int_part(t))) + seq!['.'] + frac_part(t) + Seq::new(
        (4 - frac_part(t).len()) as nat,
        |i: int| '0',
    )
}

/// What padding did with a ratio text.
#[derive(Clone, Copy, PartialEq, Eq, Debug, Structural)]
pub enum Extension {
    /// The text was padded, or needs no padding.
    Done,
    /// The text is not a plain decimal this padding handles (an exponent, a
    /// sign, an infinity, or a whole part of twelve or more digits); it is
    /// left as typed, for the caller to format as a number if it reads as one.
    Unhandled,
}

/// The text after padding, and whether it was handled.
pub open spec fn spec_auto_extend(s: Seq<char>) -> (Seq<char>, Extension) {
    let t = trim(s);
    if t.len() == 0 || t.contains('/') {
        (s, Extension::Done)
    } else if plain_decimal(t) && digits_value(int_part(t)) < PAD_LIMIT {
        if frac_part(t).len() < 4 {
            (padded4(t), Extension::Done)
        } else {
            (s, Extension::Done)
        }
    } else {
        (s, Extension::Unhandled)
    }
}

/// On leaving the ratio field: a short decimal is padded out to four places
/// (`1.5` becomes `1.5000`); fractions and values with four or more decimals
/// are kept exactly as typed.
pub fn auto_extend_ratio(s: &mut String) -> (r: Extension)
    ensures
        (final(s)@, r) == spec_auto_extend(old(s)@),
{
    let t = trim_chars(&chars_of(s.as_str()));
    let n = t.len();
    if n == 0 {
        return Extension::Done;
    }
    let mut dot: Option<usize> = None;
    let mut slash = false;
    let mut plain = true;
    let mut any_digit = false;
    let mut i: usize = 0;
    while i < n
        invariant
            n == t.len(),
            i <= n,
            slash == exists|j: int| 0 <= j < i && t@[j] == '/',
            any_digit == exists|j: int| 0 <= j < i && is_digit(#[trigger] t@[j]),
            plain == ((forall|j: int| 0 <= j < i ==> is_digit(#[trigger] t@[j]) || t@[j] == '.')
                && (forall|a: int, b: int| 0 <= a < b < i && t@[a] == '.' ==> t@[b] != '.')),
            dot matches Some(k) ==> k < i && t@[k as int] == '.' && forall|j: int|
                0 <= j < k ==> t@[j] != '.',
            dot is None ==> forall|j: int| 0 <= j < i ==> t@[j] != '.',
        decreases n - i,
    {
        let c = t[i];
        if c == '/' {
            slash = true;
        }
        if '0' <= c && c <= '9' {
            any_digit = true;
        } else if c == '.' {
            if dot.is_some() {
                plain = false;
            } else {
                dot = Some(i);
            }
        } else {
            plain = false;
        }
        i = i + 1;
    }
    if slash {
        assert(t@.contains('/'));
        return Extension::Done;
    }
    assert(!t@.contains('/'));
    if !plain || !any_digit {
        assert(!plain_decimal(t@));
        return Extension::Unhandled;
    }
    let (int_end, frac_start): (usize, usize) = match dot {
        Some(k) => {
            proof {
                lemma_first_index(t@, '.', k as int);
            }
            (k, k + 1)
        },
        None => {
            assert(!exists|i: int| 0 <= i < t@.len() && t@[i] == '.');
            (n, n)
        },
    };
    let ip = subrange_chars(&t, 0, int_end);
    let fp = subrange_chars(&t, frac_start, n);
    assert(ip@ =~= int_part(t@));
    assert(fp@ =~= frac_part(t@));
    assert(all_digits(ip@)) by {
        assert forall|j: int| 0 <= j < ip@.len() implies is_digit(#[trigger] ip@[j]) by {
            assert(ip@[j] == t@[j]);
            assert(is_digit(t@[j]) || t@[j] == '.');
        }
    }
    let iv = digits_below(&ip, PAD_LIMIT);
    match iv {
        None => Extension::Unhandled,
        Some(v) => {
            if fp.len() >= 4 {
                return Extension::Done;
            }
            let mut out = String::new();
            push_decimal(&mut out, v);
            push_char(&mut out, '.');
            push_all(&mut out, &fp);
            let mut k = fp.len();
            let ghost before = out@;
            while k < 4
                invariant
                    fp@.len() <= k <= 4,
                    out@ == before + Seq::new((k - fp@.len()) as nat, |i: int| '0'),
                decreases 4 - k,
            {
                push_char(&mut out, '0');
                assert(out@ =~= before + Seq::new((k + 1 - fp@.len()) as nat, |i: int| '0'));
                k = k + 1;
            }
            assert(out@ =~= padded4(t@));
            *s = out;
            Extension::Done
        },
    }
}

/// Padding a ratio text a second time changes nothing: the text that came
/// out of padding, or was left as typed, comes back as it is, with the same
/// verdict.
pub proof fn law_extend_ratio_idempotent(s: Seq<char>)
    ensures
        spec_auto_extend(spec_auto_extend(s).0) == spec_auto_extend(s),
{
    let t = trim(s);
    if t.len() == 0 || t.contains('/') {
    } else if plain_decimal(t) && digits_value(int_part(t)) < PAD_LIMIT && frac_part(t).len() < 4 {
        lemma_padded_is_final(t);
    }
}

/// Ten to the power `n`.
pub open spec fn pow10(n: nat) -> nat
    decreases n,
{
    if n == 0 {
        1
    } else {
        10 * pow10((n - 1) as nat)
    }
}

/// A plain decimal as a whole number of units of its last decimal place:
/// its digits with the point removed, and how many decimals it has.
pub open spec fn scaled_value(t: Seq<char>) -> (nat, nat) {
    (digits_value(int_part(t) + frac_part(t)), frac_part(t).len())
}

/// Two decimals written with `x.1` and `y.1` decimals have the same value.
pub open spec fn same_value(x: (nat, nat), y: (nat, nat)) -> bool {
    x.0 * pow10(y.1) == y.0 * pow10(x.1)
}

proof fn lemma_pow10_add(a: nat, b: nat)
    ensures
        pow10(a + b) == pow10(a) * pow10(b),
    decreases a,
{
    if a == 0 {
        assert(pow10(a) == 1);
        assert(1 * pow10(b) == pow10(b)) by (nonlinear_arith);
    } else {
        let a1 = (a - 1) as nat;
        lemma_pow10_add(a1, b);
        assert(a + b == (a1 + b) + 1);
        assert(pow10(a + b) == 10 * pow10(a1 + b));
        assert(pow10(a) == 10 * pow10(a1));
        let x = pow10(a1);
        let y = pow10(b);
        assert(10 * (x * y) == (10 * x) * y) by (nonlinear_arith);
    }
}

proof fn lemma_digits_concat(a: Seq<char>, b: Seq<char>)
    ensures
        digits_value(a + b) == digits_value(a) * pow10(b.len()) + digits_value(b),
    decreases b.len(),
{
    let x = digits_value(a);
    if b.len() == 0 {
        assert(a + b =~= a);
        assert(pow10(0) == 1);
        assert(x * 1 == x) by (nonlinear_arith);
    } else {
        let b1 = b.drop_last();
        lemma_digits_concat(a, b1);
        assert((a + b).drop_last() =~= a + b1);
        assert((a + b).last() == b.last());
        let p = pow10(b1.len());
        let y = digits_value(b1);
        let l = crate::text::digit_value(b.last());
        assert(digits_value(a + b) == digits_value(a + b1) * 10 + l);
        assert(digits_value(b) == y * 10 + l);
        assert(pow10(b.len()) == 10 * p);
        assert((x * p + y) * 10 + l == x * (10 * p) + (y * 10 + l)) by (nonlinear_arith);
    }
}

proof fn lemma_zeros_value(k: nat)
    ensures
        digits_value(Seq::new(k, |i: int| '0')) == 0,
    decreases k,
{
    if k > 0 {
        lemma_zeros_value((k - 1) as nat);
        assert(Seq::new(k, |i: int| '0').drop_last() =~= Seq::new((k - 1) as nat, |i: int| '0'));
        assert(crate::text::digit_value('0') == 0);
    }
}

/// Padding never changes what a ratio text is worth: a text that is padded
/// is a plain decimal, and the padded text is a plain decimal of the same
/// value; any other text is left exactly as it was.
pub proof fn law_extend_ratio_keeps_value(s: Seq<char>)
    ensures
        spec_auto_extend(s).0 == s || (plain_decimal(trim(s)) && plain_decimal(
            trim(spec_auto_extend(s).0),
        ) && same_value(scaled_value(trim(s)), scaled_value(trim(spec_auto_extend(s).0)))),
{
    let t = trim(s);
    if t.len() == 0 || t.contains('/') {
    } else if plain_decimal(t) && digits_value(int_part(t)) < PAD_LIMIT && frac_part(t).len() < 4 {
        lemma_padded_is_final(t);
        let p = padded4(t);
        let ip = int_part(t);
        let fp = frac_part(t);
        let z = (4 - fp.len()) as nat;
        let zeros = Seq::new(z, |i: int| '0');
        let v = digits_value(ip);
        crate::text::lemma_decimal_digits(v);
        let d = decimal(v);
        assert(int_part(p) + frac_part(p) =~= (d + fp) + zeros);
        lemma_digits_concat(d + fp, zeros);
        lemma_zeros_value(z);
        lemma_digits_concat(d, fp);
        lemma_digits_concat(ip, fp);
        lemma_pow10_add(fp.len(), z);
        let nt = digits_value(ip + fp);
        assert(nt == v * pow10(fp.len()) + digits_value(fp));
        assert(digits_value(d + fp) == nt);
        assert(scaled_value(p) == (nt * pow10(z), 4nat));
        assert(nt * pow10(z) * pow10(fp.len()) == nt * (pow10(fp.len()) * pow10(z)))
            by (nonlinear_arith);
    }
}

/// A padded text is trimmed, plain, and already has four decimals.
proof fn lemma_padded_is_final(t: Seq<char>)
    requires
        plain_decimal(t),
        digits_value(int_part(t)) < PAD_LIMIT,
        frac_part(t).len() < 4,
    ensures
        spec_auto_extend(padded4(t)) == (padded4(t), Extension::Done),
        plain_decimal(padded4(t)),
        trim(padded4(t)) == padded4(t),
        int_part(padded4(t)) == decimal(digits_value(int_part(t))),
        frac_part(padded4(t)) == frac_part(t) + Seq::new(
            (4 - frac_part(t).len()) as nat,
            |i: int| '0',
        ),
{
    let k = choose|i: int| 0 <= i < t.len() && t[i] == '.' && forall|j: int| 0 <= j < i ==> t[j] != '.';
    let has_dot = exists|i: int| 0 <= i < t.len() && t[i] == '.';
    let ip = int_part(t);
    let fp = frac_part(t);
    if has_dot {
        assert(ip =~= t.take(k));
        assert(fp =~= t.skip(k + 1));
        assert forall|j: int| 0 <= j < fp.len() implies is_digit(#[trigger] fp[j]) by {
            assert(fp[j] == t[k + 1 + j]);
            assert(t[k + 1 + j] != '.');
        }
    } else {
        assert(ip =~= t);
        assert(fp =~= Seq::<char>::empty());
    }
    let v = digits_value(ip);
    crate::text::lemma_decimal_digits(v);
    let d = decimal(v);
    let zeros = Seq::new((4 - fp.len()) as nat, |i: int| '0');
    let p = padded4(t);
    assert(p =~= d + seq!['.'] + fp + zeros);
    let m = d.len() as int;
    assert(p.len() == m + 5);
    assert forall|j: int| 0 <= j < p.len() implies (is_digit(#[trigger] p[j]) || p[j] == '.') && (
    p[j] == '.' <==> j == m) by {
        if j < m {
            assert(p[j] == d[j]);
        } else if j == m {
        } else if j < m + 1 + fp.len() {
            assert(p[j] == fp[j - m - 1]);
        } else {
            assert(p[j] == zeros[j - m - 1 - fp.len()]);
        }
    }
    assert forall|j: int| 0 <= j < p.len() implies !crate::text::is_space(#[trigger] p[j]) by {
        assert(is_digit(p[j]) || p[j] == '.');
    }
    crate::text::lemma_trim_no_space(p);
    assert(!p.contains('/')) by {
        if p.contains('/') {
            let j = choose|j: int| 0 <= j < p.len() && p[j] == '/';
            assert(is_digit(p[j]) || p[j] == '.');
        }
    }
    assert(is_digit(p[0]));
    assert(plain_decimal(p));
    lemma_first_index(p, '.', m);
    assert(int_part(p) =~= d);
    assert(frac_part(p) =~= fp + zeros);
}

/// The value of a digit string when it is below `limit`.
fn digits_below(v: &Vec<char>, limit: u64) -> (r: Option<u64>)
    requires
        all_digits(v@),
        0 < limit <= 100_000_000_000,
    ensures
        r matches Some(x) ==> x == digits_value(v@) && x < limit,
        r is None ==> digits_value(v@) >= limit,
{
    let mut acc: u64 = 0;
    for i in 0..v.len()
        invariant
            all_digits(v@),
            0 < limit <= 100_000_000_000,
            acc == digits_value(v@.take(i as int)),
            acc < limit,
    {
        let d = (v[i] as u32 - 48) as u64;
        assert(v@.take(i + 1).drop_last() =~= v@.take(i as int));
        assert(crate::text::is_digit(v@[i as int]));
        let next = acc * 10 + d;
        if next >= limit {
            proof {
                crate::text::lemma_digits_value_monotone(v@, i + 1);
            }
            return None;
        }
        acc = next;
    }
    assert(v@.take(v.len() as int) =~= v@);
    Some(acc)
}

} // verus!
