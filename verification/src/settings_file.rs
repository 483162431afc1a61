//! The settings file: the settings as the text of an INI file, read and
//! written with configparser.
use vstd::prelude::*;
use configparser::ini::Ini;
use crate::config::{key_name, section_name, setting_keys, settings_section, Config, opt_text};
use crate::text::{lower_ascii_seq, trim};

verus! {

broadcast use vstd::string::group_string_axioms;

#[verifier::external_type_specification]
#[verifier::external_body]
pub struct ExIni(Ini);

// ─── What configparser is trusted to do ─────────────────────────────────────
/// Every character is ASCII.
pub open spec fn ascii_text(s: Seq<char>) -> bool {
    forall|i: int| 0 <= i < s.len() ==> (#[trigger] s[i] as u32) < 128
}

/// A section or key name that configparser writes and reads back as is:
/// lower-case ASCII letters and underscores.
pub open spec fn ini_name(s: Seq<char>) -> bool {
    s.len() > 0 && forall|i: int| 0 <= i < s.len() ==> ('a' <= #[trigger] s[i] <= 'z' || s[i] == '_')
}

/// A value without line breaks, which stays on its own line when written.
pub open spec fn single_line(v: Seq<char>) -> bool {
    forall|i: int| 0 <= i < v.len() ==> #[trigger] v[i] != '\n' && v[i] != '\r'
}

/// A value that reads back exactly: one line, no comment character (`;` or
/// `#`, which start an inline comment), and no surrounding whitespace.
pub open spec fn ini_plain_value(v: Seq<char>) -> bool {
    &&& single_line(v)
    &&& forall|i: int| 0 <= i < v.len() ==> #[trigger] v[i] != ';' && v[i] != '#'
    &&& trim(v) == v
}

/// No section holds any value.
pub open spec fn holds_nothing(m: Map<(Seq<char>, Seq<char>), Seq<char>>) -> bool {
    m == Map::<(Seq<char>, Seq<char>), Seq<char>>::empty()
}

/// Every entry has plain names and a one-line value.
pub open spec fn ini_writable(m: Map<(Seq<char>, Seq<char>), Seq<char>>) -> bool {
    forall|sk: (Seq<char>, Seq<char>)|
        #[trigger] m.contains_key(sk) ==> ini_name(sk.0) && ini_name(sk.1) && single_line(m[sk])
}

/// Whether configparser's `Ini::read` accepts the text.
pub uninterp spec fn ini_parses(text: Seq<char>) -> bool;

/// What configparser's `Ini::get` gives, after `Ini::read` of the text, for
/// a section and key whose lower-cased names are given.
pub uninterp spec fn ini_value(text: Seq<char>, section: Seq<char>, key: Seq<char>) -> Option<
    Seq<char>,
>;

/// The values an `Ini` holds, by lower-cased section and key.
pub uninterp spec fn ini_entries(ini: Ini) -> Map<(Seq<char>, Seq<char>), Seq<char>>;

/// Reads `text` as INI with configparser (`Ini::new`, `Ini::read`) and looks
/// up one value (`Ini::get`). Trusted: the result is present exactly when
/// the text parses; configparser folds section and key names to lower case
/// (for ASCII names, ASCII lower case), so the value is the one named for
/// the folded names. Nothing is claimed for names outside ASCII.
#[verifier::external_body]
fn ini_get(text: &String, section: &str, key: &str) -> (r: Option<Option<String>>)
    ensures
        r is Some <==> ini_parses(text@),
        ascii_text(section@) && ascii_text(key@) ==> (r matches Some(v) ==> opt_text(v)
            == ini_value(text@, lower_ascii_seq(section@), lower_ascii_seq(key@))),
{
    let mut ini = Ini::new();
    match ini.read(text.clone()) {
        Ok(_) => Some(ini.get(section, key)),
        Err(_) => None,
    }
}

/// configparser's `Ini::new`. Trusted: it holds no values.
#[verifier::external_body]
fn ini_new() -> (r: Ini)
    ensures
        holds_nothing(ini_entries(r)),
{
    Ini::new()
}

/// configparser's `Ini::set` with a value. Trusted: for ASCII names the
/// value is stored under the lower-cased names, replacing any earlier one;
/// nothing is claimed for names outside ASCII.
#[verifier::external_body]
fn ini_set(ini: &mut Ini, section: &str, key: &str, value: String)
    ensures
        ascii_text(section@) && ascii_text(key@) ==> ini_entries(*final(ini)) == ini_entries(
            *old(ini),
        ).insert((lower_ascii_seq(section@), lower_ascii_seq(key@)), value@),
{
    ini.set(section, key, Some(value));
}

/// configparser's `Ini::writes`. The order of sections and keys in the text
/// follows a hash map and is not claimed. Trusted: when every entry has plain
/// names and a one-line value, the text parses, and reading it back gives
/// every value that is plain.
#[verifier::external_body]
fn ini_writes(ini: &Ini) -> (r: String)
    ensures
        ini_writable(ini_entries(*ini)) ==> ini_parses(r@),
        ini_writable(ini_entries(*ini)) ==> forall|s: Seq<char>, k: Seq<char>|
            #[trigger] ini_entries(*ini).contains_key((s, k)) && ini_plain_value(
                ini_entries(*ini)[(s, k)],
            ) ==> ini_value(r@, s, k) == Some(ini_entries(*ini)[(s, k)]),
{
    ini.writes()
}

// ─── The settings as INI text ───────────────────────────────────────────────
/// The settings section's name as configparser keeps it.
pub open spec fn folded_section() -> Seq<char> {
    lower_ascii_seq(section_name())
}

/// The `i`-th key as configparser keeps it.
pub open spec fn folded_key(i: int) -> Seq<char> {
    lower_ascii_seq(key_name(i))
}

/// The settings an INI text gives: the defaults (all empty, all off) when it
/// does not parse, else what its settings section holds.
pub open spec fn spec_config_from_ini(text: Seq<char>) -> (Seq<Seq<char>>, Seq<bool>) {
    if ini_parses(text) {
        Config::spec_from_texts(
            Seq::new(crate::config::SETTING_COUNT as nat, |i: int| ini_value(text, folded_section(), folded_key(i))),
        )
    } else {
        Config::spec_from_texts(
            Seq::new(crate::config::SETTING_COUNT as nat, |i: int| None::<Seq<char>>),
        )
    }
}

proof fn lemma_names()
    ensures
        ascii_text(section_name()),
        ini_name(folded_section()),
        forall|i: int| 0 <= i < 10 ==> ascii_text(#[trigger] key_name(i)),
        forall|i: int| 0 <= i < 10 ==> ini_name(#[trigger] folded_key(i)),
        forall|i: int, j: int| 0 <= i < j < 10 ==> #[trigger] folded_key(i) != #[trigger] folded_key(j),
{
    reveal_strlit("Settings");
    reveal_strlit("interval");
    reveal_strlit("timer_count");
    reveal_strlit("sound_file");
    reveal_strlit("final_sound_file");
    reveal_strlit("progress_bar_mode");
    reveal_strlit("geometric_enabled");
    reveal_strlit("geometric_ratio");
    reveal_strlit("randomize_enabled");
    reveal_strlit("randomize_gaussian");
    reveal_strlit("randomize_sigma");
    assert forall|i: int, j: int| 0 <= i < j < 10 implies #[trigger] folded_key(i)
        != #[trigger] folded_key(j) by {
        if folded_key(i).len() == folded_key(j).len() {
            assert(folded_key(i)[0] != folded_key(j)[0]);
        }
    }
}

impl Config {
    /// The settings an INI text holds; the defaults when it is not INI.
    pub fn from_ini(text: &String) -> (c: Config)
        ensures
            c.texts_and_flags() == spec_config_from_ini(text@),
    {
        proof {
            lemma_names();
        }
        let section = settings_section();
        let keys = setting_keys();
        let mut values: Vec<Option<String>> = Vec::new();
        for i in 0..keys.len()
            invariant
                section@ == section_name(),
                keys@.len() == crate::config::SETTING_COUNT,
                forall|j: int| 0 <= j < 10 ==> (#[trigger] keys@[j])@ == key_name(j),
                forall|j: int| 0 <= j < 10 ==> ascii_text(#[trigger] key_name(j)),
                ascii_text(section_name()),
                values@.len() == i,
                i > 0 ==> ini_parses(text@),
                forall|j: int| 0 <= j < i ==> opt_text(#[trigger] values@[j]) == ini_value(text@, folded_section(), folded_key(j)),
        {
            match ini_get(text, section, keys[i]) {
                Some(v) => values.push(v),
                None => {
                    proof {
                        reveal_strlit("true");
                    }
                    let c = Config::default();
                    assert(c.texts_and_flags().0 =~= spec_config_from_ini(text@).0);
                    assert(c.texts_and_flags().1 =~= spec_config_from_ini(text@).1);
                    return c;
                },
            }
        }
        let c = Config::from_values(&values);
        assert(values@.map_values(|v: Option<String>| opt_text(v)) =~= Seq::new(
            crate::config::SETTING_COUNT as nat,
            |i: int| ini_value(text@, folded_section(), folded_key(i)),
        ));
        c
    }

    /// The settings as the text of an INI file: one `Settings` section with
    /// every setting in key order (flags as `True`/`False`). When no value
    /// has a line break, the text parses and every plain value reads back.
    pub fn to_ini(&self) -> (r: String)
        ensures
            (forall|i: int| 0 <= i < 10 ==> single_line(#[trigger] self.stored()[i]))
                ==> ini_parses(r@),
            (forall|i: int| 0 <= i < 10 ==> single_line(#[trigger] self.stored()[i]))
                ==> forall|i: int|
                0 <= i < 10 && ini_plain_value(#[trigger] self.stored()[i]) ==> ini_value(
                    r@,
                    folded_section(),
                    folded_key(i),
                ) == Some(self.stored()[i]),
    {
        proof {
            lemma_names();
        }
        let section = settings_section();
        let keys = setting_keys();
        let values = self.to_values();
        let mut ini = ini_new();
        for i in 0..keys.len()
            invariant
                section@ == section_name(),
                keys@.len() == 10,
                values@.len() == 10,
                forall|j: int| 0 <= j < 10 ==> (#[trigger] keys@[j])@ == key_name(j),
                forall|j: int| 0 <= j < 10 ==> (#[trigger] values@[j])@ == self.stored()[j],
                ascii_text(section_name()),
                ini_name(folded_section()),
                forall|j: int| 0 <= j < 10 ==> ascii_text(#[trigger] key_name(j)),
                forall|j: int| 0 <= j < 10 ==> ini_name(#[trigger] folded_key(j)),
                forall|a: int, b: int| 0 <= a < b < 10 ==> #[trigger] folded_key(a) != #[trigger] folded_key(b),
                forall|sk: (Seq<char>, Seq<char>)| #[trigger] ini_entries(ini).contains_key(sk)
                    ==> exists|j: int| 0 <= j < i && sk == (folded_section(), #[trigger] folded_key(j)),
                forall|j: int| 0 <= j < i ==> ini_entries(ini).contains_key((folded_section(), #[trigger] folded_key(j)))
                    && ini_entries(ini)[(folded_section(), folded_key(j))] == self.stored()[j],
        {
            let ghost before = ini_entries(ini);
            ini_set(&mut ini, section, keys[i], values[i].clone());
            proof {
                let fi = folded_key(i as int);
                assert(ini_entries(ini) == before.insert((folded_section(), fi), self.stored()[i as int]));
                assert forall|j: int| 0 <= j < i implies folded_key(j) != #[trigger] folded_key(i as int) by {}
                assert forall|sk: (Seq<char>, Seq<char>)| #[trigger] ini_entries(ini).contains_key(sk)
                    implies exists|j: int| 0 <= j < i + 1 && sk == (folded_section(), #[trigger] folded_key(j)) by {
                    if sk == (folded_section(), fi) {
                        assert(sk == (folded_section(), folded_key(i as int)));
                    } else {
                        assert(before.contains_key(sk));
                    }
                }
            }
        }
        proof {
            if forall|i: int| 0 <= i < 10 ==> single_line(#[trigger] self.stored()[i]) {
                assert forall|sk: (Seq<char>, Seq<char>)| #[trigger] ini_entries(ini).contains_key(sk)
                    implies ini_name(sk.0) && ini_name(sk.1) && single_line(ini_entries(ini)[sk]) by {
                    let j = choose|j: int| 0 <= j < 10 && sk == (folded_section(), #[trigger] folded_key(j));
                    assert(single_line(self.stored()[j]));
                }
            }
        }
        ini_writes(&ini)
    }
}

/// Saving and loading the settings file agree: a text that holds every
/// setting as stored (as the text `to_ini` writes does, when the values are
/// plain) loads back as the same settings.
pub proof fn law_settings_file_round_trip(c: Config, text: Seq<char>)
    ensures
        ini_parses(text) && (forall|i: int|
            0 <= i < 10 ==> ini_value(text, folded_section(), #[trigger] folded_key(i)) == Some(
                c.stored()[i],
            )) ==> spec_config_from_ini(text) == c.texts_and_flags(),
{
    if ini_parses(text) && (forall|i: int|
        0 <= i < 10 ==> ini_value(text, folded_section(), #[trigger] folded_key(i)) == Some(
            c.stored()[i],
        )) {
        reveal_strlit("True");
        reveal_strlit("False");
        reveal_strlit("true");
        let vs = Seq::new(10, |i: int| ini_value(text, folded_section(), folded_key(i)));
        assert forall|i: int| 0 <= i < 10 implies crate::config::text_or_empty_spec(#[trigger] vs[i]) == c.stored()[i] by {
            assert(vs[i] == ini_value(text, folded_section(), folded_key(i)));
        }
        assert(crate::config::flag_value("True"@));
        assert(!crate::config::flag_value("False"@)) by {
            assert("False"@.len() != "true"@.len());
        }
        assert(crate::config::text_or_empty_spec(vs[4]) == c.stored()[4]);
        assert(crate::config::text_or_empty_spec(vs[5]) == c.stored()[5]);
        assert(crate::config::text_or_empty_spec(vs[7]) == c.stored()[7]);
        assert(crate::config::text_or_empty_spec(vs[8]) == c.stored()[8]);
        assert(spec_config_from_ini(text).0 =~= c.texts_and_flags().0);
        assert(spec_config_from_ini(text).1 =~= c.texts_and_flags().1);
    }
}

} // verus!
