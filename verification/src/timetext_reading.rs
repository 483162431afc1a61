//! Reading time texts: what surrounds a text, its case, and how its
//! space-separated tokens combine.
use vstd::prelude::*;
use crate::text::{is_space, lower_ascii, lower_ascii_seq, trim, trim_end, trim_start, words};
use crate::timetext::{last_suffix_unit, spec_duration_unit, spec_time_terms, suffix_unit, word_term};

verus! {

// ─── Reading time texts ─────────────────────────────────────────────────────
proof fn lemma_lower_char(c: char)
    ensures
        is_space(lower_ascii(c)) == is_space(c),
        lower_ascii(lower_ascii(c)) == lower_ascii(c),
        (lower_ascii(c) == ':') == (c == ':'),
        (lower_ascii(c) == ' ') == (c == ' '),
{
    if 'A' <= c <= 'Z' {
        let l = ((c as u32) + 32) as char;
        assert(l as u32 == (c as u32) + 32);
    }
}

proof fn lemma_trim_start_shape(s: Seq<char>)
    ensures
        trim_start(s).len() == 0 || !is_space(trim_start(s)[0]),
    decreases s.len(),
{
    if s.len() > 0 && is_space(s[0]) {
        lemma_trim_start_shape(s.drop_first());
    }
}

proof fn lemma_trim_end_shape(s: Seq<char>)
    ensures
        trim_end(s).len() <= s.len(),
        trim_end(s) =~= s.take(trim_end(s).len() as int),
        trim_end(s).len() == 0 || !is_space(trim_end(s).last()),
    decreases s.len(),
{
    if s.len() > 0 && is_space(s.last()) {
        lemma_trim_end_shape(s.drop_last());
        let k = trim_end(s.drop_last()).len() as int;
        assert(s.drop_last().take(k) =~= s.take(k));
    } else {
        assert(s.take(s.len() as int) =~= s);
    }
}

/// A trimmed text is empty or starts and ends with a non-space.
proof fn lemma_trim_shape(s: Seq<char>)
    ensures
        trim(s).len() == 0 || (!is_space(trim(s)[0]) && !is_space(trim(s).last())),
{
    lemma_trim_start_shape(s);
    lemma_trim_end_shape(trim_start(s));
    let ts = trim_start(s);
    if trim(s).len() > 0 {
        assert(trim(s)[0] == ts[0]);
    }
}

proof fn lemma_trim_noop(s: Seq<char>)
    requires
        s.len() == 0 || (!is_space(s[0]) && !is_space(s.last())),
    ensures
        trim(s) == s,
{
}

/// Reading a time text does not depend on surrounding whitespace or on
/// ASCII case: the text reads as its trimmed, lower-cased self, and a blank
/// text has no terms (it reads as zero).
pub proof fn law_time_text_normalized(s: Seq<char>)
    ensures
        spec_time_terms(s) == spec_time_terms(lower_ascii_seq(trim(s))),
        trim(s).len() == 0 ==> spec_time_terms(s).len() == 0,
{
    let t = trim(s);
    let u = lower_ascii_seq(t);
    lemma_trim_shape(s);
    if t.len() > 0 {
        lemma_lower_char(t[0]);
        lemma_lower_char(t.last());
        assert(u[0] == lower_ascii(t[0]));
        assert(u.last() == lower_ascii(t.last()));
    }
    lemma_trim_noop(u);
    assert forall|i: int| 0 <= i < u.len() implies #[trigger] lower_ascii(u[i]) == u[i] by {
        lemma_lower_char(t[i]);
    }
    assert(lower_ascii_seq(trim(u)) =~= u);
}

/// The words of a nonempty text without whitespace: the text itself.
proof fn lemma_words_single(w: Seq<char>)
    requires
        w.len() > 0,
        forall|i: int| 0 <= i < w.len() ==> !is_space(#[trigger] w[i]),
    ensures
        words(w) == seq![w],
    decreases w.len(),
{
    assert(!is_space(w.last()));
    if w.len() == 1 {
        assert(w.drop_last() =~= Seq::<char>::empty());
        assert(words(w.drop_last()).len() == 0);
        assert(w =~= seq![w.last()]);
        assert(words(w) =~= seq![seq![w.last()]]);
    } else {
        let w2 = w.drop_last();
        lemma_words_single(w2);
        assert(!is_space(w[w.len() - 2]));
        assert(w2.push(w.last()) =~= w);
        let p = words(w2);
        assert(p.len() == 1 && p.last() == w2);
        assert(words(w) == p.update(p.len() - 1, p.last().push(w.last())));
        assert(p.update(0, w2.push(w.last())) =~= seq![w]);
    }
}

/// A space followed by a word adds that word to the words before it.
proof fn lemma_words_join(x: Seq<char>, y: Seq<char>)
    requires
        y.len() > 0,
        forall|i: int| 0 <= i < y.len() ==> !is_space(#[trigger] y[i]),
    ensures
        words(x + seq![' '] + y) == words(x).push(y),
    decreases y.len(),
{
    let s = x + seq![' '] + y;
    assert(!is_space(y.last()));
    assert(s.last() == y.last());
    if y.len() == 1 {
        let xs = x + seq![' '];
        assert(s.drop_last() =~= xs);
        assert(xs.drop_last() =~= x);
        assert(is_space(xs.last()));
        assert(words(xs) == words(x));
        assert(s[s.len() - 2] == ' ');
        assert(y =~= seq![y.last()]);
    } else {
        let y2 = y.drop_last();
        lemma_words_join(x, y2);
        assert(s.drop_last() =~= x + seq![' '] + y2);
        assert(s[s.len() - 2] == y[y.len() - 2]);
        assert(!is_space(y[y.len() - 2]));
        assert(y2.push(y.last()) =~= y);
        let p = words(s.drop_last());
        assert(p == words(x).push(y2));
        assert(p.last() == y2);
        assert(words(s) == p.update(p.len() - 1, p.last().push(s.last())));
        assert(p.update(p.len() - 1, y) =~= words(x).push(y));
    }
}

/// A word without whitespace or colon is one term of the natural form.
proof fn lemma_token_terms(a: Seq<char>)
    requires
        a.len() > 0,
        forall|i: int| 0 <= i < a.len() ==> !is_space(#[trigger] a[i]) && a[i] != ':',
    ensures
        spec_time_terms(a) == seq![word_term(lower_ascii_seq(a))],
        forall|i: int| 0 <= i < a.len() ==> !is_space(#[trigger] lower_ascii_seq(a)[i])
            && lower_ascii_seq(a)[i] != ':',
{
    lemma_trim_noop(a);
    let la = lower_ascii_seq(a);
    assert forall|i: int| 0 <= i < a.len() implies !is_space(#[trigger] la[i]) && la[i] != ':' by {
        lemma_lower_char(a[i]);
    }
    assert(!la.contains(':'));
    lemma_words_single(la);
    assert(seq![la].map_values(|w: Seq<char>| word_term(w)) =~= seq![
        word_term(la),
    ]);
}

/// Two tokens joined by a space read as the terms of the first followed by
/// those of the second, so the duration of the whole is the sum of the two
/// (a token whose number does not read contributes nothing either way).
pub proof fn law_joined_tokens_add(a: Seq<char>, b: Seq<char>)
    requires
        a.len() > 0,
        b.len() > 0,
        forall|i: int| 0 <= i < a.len() ==> !is_space(#[trigger] a[i]) && a[i] != ':',
        forall|i: int| 0 <= i < b.len() ==> !is_space(#[trigger] b[i]) && b[i] != ':',
    ensures
        spec_time_terms(a + seq![' '] + b) == spec_time_terms(a) + spec_time_terms(b),
        spec_time_terms(a).len() == 1,
{
    lemma_token_terms(a);
    lemma_token_terms(b);
    let j = a + seq![' '] + b;
    assert(j[0] == a[0]);
    assert(j.last() == b.last());
    lemma_trim_noop(j);
    let la = lower_ascii_seq(a);
    let lb = lower_ascii_seq(b);
    let lj = lower_ascii_seq(j);
    lemma_lower_char(' ');
    assert(lj =~= la + seq![' '] + lb);
    assert(!lj.contains(':')) by {
        if lj.contains(':') {
            let k = choose|k: int| 0 <= k < lj.len() && lj[k] == ':';
            if k < a.len() {
                assert(lj[k] == la[k]);
            } else if k > a.len() {
                assert(lj[k] == lb[k - a.len() - 1]);
            }
        }
    }
    lemma_words_single(la);
    lemma_words_join(la, lb);
    assert(seq![la].push(lb).map_values(|w: Seq<char>| word_term(w)) =~= seq![
        word_term(la),
        word_term(lb),
    ]);
}

/// A single token reads in the unit its last letter names, in either case:
/// `h` hours (3600 seconds), `m` minutes (60), `s` seconds (1), the number
/// being the token without that letter; a bare number counts in minutes.
/// The duration's display unit is the one the same letter names.
pub proof fn law_token_units(a: Seq<char>)
    requires
        a.len() > 0,
        forall|i: int| 0 <= i < a.len() ==> !is_space(#[trigger] a[i]) && a[i] != ':',
    ensures
        ({
            let c = a.last();
            let l = lower_ascii_seq(a);
            let lettered = c == 'h' || c == 'H' || c == 'm' || c == 'M' || c == 's' || c == 'S';
            let unit: nat = if c == 'h' || c == 'H' {
                3600
            } else if c == 's' || c == 'S' {
                1
            } else {
                60
            };
            &&& spec_time_terms(a) == seq![(if lettered { l.drop_last() } else { l }, unit)]
            &&& spec_duration_unit(a) == unit
        }),
{
    lemma_token_terms(a);
    let c = a.last();
    let l = lower_ascii_seq(a);
    assert(l.last() == lower_ascii(c));
    if 'A' <= c <= 'Z' {
        let x = ((c as u32) + 32) as char;
        assert(x as u32 == (c as u32) + 32);
    }
    lemma_trim_noop(a);
    assert(!l.contains(':'));
    lemma_words_single(l);
    assert(seq![l].drop_last() =~= Seq::<Seq<char>>::empty());
    assert(last_suffix_unit(seq![l]) == match suffix_unit(l) {
        Some(u) => u,
        None => last_suffix_unit(Seq::<Seq<char>>::empty()),
    });
}

} // verus!
