//! Persisted settings, as the `key = value` pairs of one settings section.
use vstd::prelude::*;
use crate::text::{chars_of, lower_ascii};

verus! {

broadcast use vstd::string::group_string_axioms;

/// The settings kept between runs.
pub struct Config {
    pub interval: String,
    pub timer_count: String,
    pub sound_file: String,
    pub final_sound_file: String,
    pub progress_bar_mode: bool,
    pub geometric_enabled: bool,
    pub geometric_ratio: String,
    pub randomize_enabled: bool,
    pub randomize_gaussian: bool,
    pub randomize_sigma: String,
}

/// Number of stored settings.
pub const SETTING_COUNT: usize = 10;

/// The name of the section holding the settings.
pub open spec fn section_name() -> Seq<char> {
    "Settings"@
}

/// The key of the `i`-th setting.
pub open spec fn key_name(i: int) -> Seq<char> {
    if i == 0 {
        "interval"@
    } else if i == 1 {
        "timer_count"@
    } else if i == 2 {
        "sound_file"@
    } else if i == 3 {
        "final_sound_file"@
    } else if i == 4 {
        "progress_bar_mode"@
    } else if i == 5 {
        "geometric_enabled"@
    } else if i == 6 {
        "geometric_ratio"@
    } else if i == 7 {
        "randomize_enabled"@
    } else if i == 8 {
        "randomize_gaussian"@
    } else {
        "randomize_sigma"@
    }
}

/// The section the settings are stored under.
pub fn settings_section() -> (r: &'static str)
    ensures
        r@ == section_name(),
{
    "Settings"
}

/// The keys of the settings, in storage order.
pub fn setting_keys() -> (r: Vec<&'static str>)
    ensures
        r@.len() == SETTING_COUNT,
        forall|i: int| 0 <= i < SETTING_COUNT ==> (#[trigger] r@[i])@ == key_name(i),
{
    proof {
        reveal_strlit("interval");
        reveal_strlit("timer_count");
        reveal_strlit("sound_file");
        reveal_strlit("final_sound_file");
        reveal_strlit("progress_bar_mode");
        reveal_strlit("geometric_enabled");
        reveal_strlit("geometric_ratio");
        reveal_strlit("randomize_enabled");
        reveal_strlit("randomize_gaussian");
        reveal_strlit("randomize_sigma");
    }
    let r = vec![
        "interval",
        "timer_count",
        "sound_file",
        "final_sound_file",
        "progress_bar_mode",
        "geometric_enabled",
        "geometric_ratio",
        "randomize_enabled",
        "randomize_gaussian",
        "randomize_sigma",
    ];
    assert(r@[4]@ == key_name(4));
    r
}

/// Equal up to ASCII case.
pub open spec fn eq_ignore_ascii_case(a: Seq<char>, b: Seq<char>) -> bool {
    a.len() == b.len() && forall|i: int| 0 <= i < a.len() ==> lower_ascii(#[trigger] a[i])
        == lower_ascii(b[i])
}

/// A stored flag is on when its text is `true` in any ASCII case.
pub open spec fn flag_value(text: Seq<char>) -> bool {
    eq_ignore_ascii_case(text, "true"@)
}

/// How a flag is stored.
pub open spec fn flag_text(b: bool) -> Seq<char> {
    if b {
        "True"@
    } else {
        "False"@
    }
}

/// Whether a stored flag text means on.
pub fn parse_flag(text: &str) -> (b: bool)
    ensures
        b == flag_value(text@),
{
    let v = chars_of(text);
    let t = chars_of("true");
    proof {
        reveal_strlit("true");
    }
    if v.len() != t.len() {
        return false;
    }
    for i in 0..v.len()
        invariant
            v@ == text@,
            t@ == "true"@,
            v.len() == t.len(),
            forall|k: int| 0 <= k < i ==> lower_ascii(#[trigger] v@[k]) == lower_ascii(t@[k]),
    {
        if crate::text::lower_ascii_char(v[i]) != crate::text::lower_ascii_char(t[i]) {
            return false;
        }
    }
    true
}

/// The stored text of a flag.
pub fn format_flag(b: bool) -> (r: String)
    ensures
        r@ == flag_text(b),
{
    proof {
        reveal_strlit("True");
        reveal_strlit("False");
    }
    if b {
        String::from_str("True")
    } else {
        String::from_str("False")
    }
}

/// The stored value of a setting that may be absent: absent reads as empty.
pub open spec fn value_or_empty(v: Option<String>) -> Seq<char> {
    match v {
        Some(s) => s@,
        None => Seq::<char>::empty(),
    }
}

/// The text of an optional value.
pub open spec fn opt_text(v: Option<String>) -> Option<Seq<char>> {
    match v {
        Some(s) => Some(s@),
        None => None,
    }
}

/// An optional text, absent reading as empty.
pub open spec fn text_or_empty_spec(v: Option<Seq<char>>) -> Seq<char> {
    match v {
        Some(t) => t,
        None => Seq::<char>::empty(),
    }
}

fn text_or_empty(v: &Option<String>) -> (r: String)
    ensures
        r@ == value_or_empty(*v),
{
    match v {
        Some(s) => s.clone(),
        None => String::new(),
    }
}

fn flag_or_off(v: &Option<String>) -> (r: bool)
    ensures
        r == flag_value(value_or_empty(*v)),
{
    match v {
        Some(s) => parse_flag(s.as_str()),
        None => {
            proof {
                reveal_strlit("true");
            }
            false
        },
    }
}

impl Config {
    /// The settings as stored, in key order (flags as `True`/`False`).
    pub open spec fn stored(&self) -> Seq<Seq<char>> {
        seq![
            self.interval@,
            self.timer_count@,
            self.sound_file@,
            self.final_sound_file@,
            flag_text(self.progress_bar_mode),
            flag_text(self.geometric_enabled),
            self.geometric_ratio@,
            flag_text(self.randomize_enabled),
            flag_text(self.randomize_gaussian),
            self.randomize_sigma@,
        ]
    }

    /// The settings read from stored texts given in key order (absent ones as
    /// `None`): an absent text reads as empty, and a flag is on only when its
    /// text is `true` in any ASCII case.
    pub open spec fn spec_from_texts(values: Seq<Option<Seq<char>>>) -> (Seq<Seq<char>>, Seq<bool>) {
        (
            seq![
                text_or_empty_spec(values[0]),
                text_or_empty_spec(values[1]),
                text_or_empty_spec(values[2]),
                text_or_empty_spec(values[3]),
                text_or_empty_spec(values[6]),
                text_or_empty_spec(values[9]),
            ],
            seq![
                flag_value(text_or_empty_spec(values[4])),
                flag_value(text_or_empty_spec(values[5])),
                flag_value(text_or_empty_spec(values[7])),
                flag_value(text_or_empty_spec(values[8])),
            ],
        )
    }

    /// The settings read from stored values given in key order (absent ones as `None`).
    pub open spec fn spec_from_values(values: Seq<Option<String>>) -> (Seq<Seq<char>>, Seq<bool>) {
        Config::spec_from_texts(values.map_values(|v: Option<String>| opt_text(v)))
    }

    pub open spec fn texts_and_flags(&self) -> (Seq<Seq<char>>, Seq<bool>) {
        (
            seq![
                self.interval@,
                self.timer_count@,
                self.sound_file@,
                self.final_sound_file@,
                self.geometric_ratio@,
                self.randomize_sigma@,
            ],
            seq![
                self.progress_bar_mode,
                self.geometric_enabled,
                self.randomize_enabled,
                self.randomize_gaussian,
            ],
        )
    }

    /// Settings read from stored values given in key order; an absent value
    /// reads as empty, and a flag is on only when its text is `true` in any case.
    pub fn from_values(values: &Vec<Option<String>>) -> (c: Config)
        requires
            values@.len() == SETTING_COUNT,
        ensures
            c.texts_and_flags() == Config::spec_from_values(values@),
    {
        let c = Config {
            interval: text_or_empty(&values[0]),
            timer_count: text_or_empty(&values[1]),
            sound_file: text_or_empty(&values[2]),
            final_sound_file: text_or_empty(&values[3]),
            progress_bar_mode: flag_or_off(&values[4]),
            geometric_enabled: flag_or_off(&values[5]),
            geometric_ratio: text_or_empty(&values[6]),
            randomize_enabled: flag_or_off(&values[7]),
            randomize_gaussian: flag_or_off(&values[8]),
            randomize_sigma: text_or_empty(&values[9]),
        };
        assert(c.texts_and_flags().0 =~= Config::spec_from_values(values@).0);
        assert(c.texts_and_flags().1 =~= Config::spec_from_values(values@).1);
        c
    }

    /// The values to store, in key order.
    pub fn to_values(&self) -> (r: Vec<String>)
        ensures
            r@.len() == SETTING_COUNT,
            forall|i: int| 0 <= i < SETTING_COUNT ==> (#[trigger] r@[i])@ == self.stored()[i],
    {
        let r = vec![
            self.interval.clone(),
            self.timer_count.clone(),
            self.sound_file.clone(),
            self.final_sound_file.clone(),
            format_flag(self.progress_bar_mode),
            format_flag(self.geometric_enabled),
            self.geometric_ratio.clone(),
            format_flag(self.randomize_enabled),
            format_flag(self.randomize_gaussian),
            self.randomize_sigma.clone(),
        ];
        r
    }

    /// Copies every setting.
    pub fn duplicate(&self) -> (r: Config)
        ensures
            r.texts_and_flags() == self.texts_and_flags(),
    {
        Config {
            interval: self.interval.clone(),
            timer_count: self.timer_count.clone(),
            sound_file: self.sound_file.clone(),
            final_sound_file: self.final_sound_file.clone(),
            progress_bar_mode: self.progress_bar_mode,
            geometric_enabled: self.geometric_enabled,
            geometric_ratio: self.geometric_ratio.clone(),
            randomize_enabled: self.randomize_enabled,
            randomize_gaussian: self.randomize_gaussian,
            randomize_sigma: self.randomize_sigma.clone(),
        }
    }
}

impl Config {
    /// What a drawn random cohort leaves for the next launch: its count, the
    /// random mode with its spread, and geometric mode off.
    pub fn remember_random_cohort(&mut self, count: u32, sigma: &String)
        ensures
            final(self).timer_count@ == crate::text::decimal(count as nat),
            final(self).randomize_enabled,
            !final(self).geometric_enabled,
            final(self).randomize_sigma@ == sigma@,
            final(self).interval == old(self).interval,
            final(self).sound_file == old(self).sound_file,
            final(self).final_sound_file == old(self).final_sound_file,
            final(self).progress_bar_mode == old(self).progress_bar_mode,
            final(self).geometric_ratio == old(self).geometric_ratio,
            final(self).randomize_gaussian == old(self).randomize_gaussian,
    {
        self.timer_count = crate::text::decimal_string(count as u64);
        self.geometric_enabled = false;
        self.randomize_enabled = true;
        self.randomize_sigma = sigma.clone();
    }

    /// What an evenly or geometrically spaced cohort leaves for the next
    /// launch: its interval text, its count, and the geometric mode and ratio
    /// it was built with.
    pub fn remember_spaced_cohort(
        &mut self,
        interval: String,
        count: u32,
        geometric: bool,
        ratio: &String,
    )
        ensures
            final(self).interval@ == interval@,
            final(self).timer_count@ == crate::text::decimal(count as nat),
            final(self).geometric_enabled == geometric,
            final(self).geometric_ratio@ == ratio@,
            final(self).sound_file == old(self).sound_file,
            final(self).final_sound_file == old(self).final_sound_file,
            final(self).progress_bar_mode == old(self).progress_bar_mode,
            final(self).randomize_enabled == old(self).randomize_enabled,
            final(self).randomize_gaussian == old(self).randomize_gaussian,
            final(self).randomize_sigma == old(self).randomize_sigma,
    {
        self.interval = interval;
        self.timer_count = crate::text::decimal_string(count as u64);
        self.geometric_enabled = geometric;
        self.geometric_ratio = ratio.clone();
    }

    /// Switching random mode on or off; on also switches geometric mode off.
    pub fn remember_randomize(&mut self, on: bool)
        ensures
            final(self).randomize_enabled == on,
            final(self).geometric_enabled == (old(self).geometric_enabled && !on),
            final(self).interval == old(self).interval,
            final(self).timer_count == old(self).timer_count,
            final(self).sound_file == old(self).sound_file,
            final(self).final_sound_file == old(self).final_sound_file,
            final(self).progress_bar_mode == old(self).progress_bar_mode,
            final(self).geometric_ratio == old(self).geometric_ratio,
            final(self).randomize_gaussian == old(self).randomize_gaussian,
            final(self).randomize_sigma == old(self).randomize_sigma,
    {
        if on {
            self.geometric_enabled = false;
        }
        self.randomize_enabled = on;
    }

    /// Clearing everything forgets both modes, the ratio and the spread; the
    /// uniform/gaussian choice is a preference and stays.
    pub fn forget_modes(&mut self)
        ensures
            !final(self).geometric_enabled,
            final(self).geometric_ratio@ == Seq::<char>::empty(),
            !final(self).randomize_enabled,
            final(self).randomize_sigma@ == Seq::<char>::empty(),
            final(self).interval == old(self).interval,
            final(self).timer_count == old(self).timer_count,
            final(self).sound_file == old(self).sound_file,
            final(self).final_sound_file == old(self).final_sound_file,
            final(self).progress_bar_mode == old(self).progress_bar_mode,
            final(self).randomize_gaussian == old(self).randomize_gaussian,
    {
        self.geometric_enabled = false;
        self.geometric_ratio = String::new();
        self.randomize_enabled = false;
        self.randomize_sigma = String::new();
    }
}

impl Default for Config {
    /// All texts empty and all flags off.
    fn default() -> (c: Config)
        ensures
            c.texts_and_flags() == (
            seq![
                Seq::<char>::empty(),
                Seq::<char>::empty(),
                Seq::<char>::empty(),
                Seq::<char>::empty(),
                Seq::<char>::empty(),
                Seq::<char>::empty(),
            ],
            seq![false, false, false, false],
        ),
    {
        let c = Config {
            interval: String::new(),
            timer_count: String::new(),
            sound_file: String::new(),
            final_sound_file: String::new(),
            progress_bar_mode: false,
            geometric_enabled: false,
            geometric_ratio: String::new(),
            randomize_enabled: false,
            randomize_gaussian: false,
            randomize_sigma: String::new(),
        };
        assert(c.texts_and_flags().0 =~= seq![
            Seq::<char>::empty(),
            Seq::<char>::empty(),
            Seq::<char>::empty(),
            Seq::<char>::empty(),
            Seq::<char>::empty(),
            Seq::<char>::empty(),
        ]);
        assert(c.texts_and_flags().1 =~= seq![false, false, false, false]);
        c
    }
}

/// Saving and loading agree: reading back what a configuration stores gives
/// the same configuration.
pub proof fn law_stored_settings_read_back(c: Config, values: Seq<Option<String>>)
    requires
        values.len() == SETTING_COUNT,
        forall|i: int| 0 <= i < SETTING_COUNT ==> (#[trigger] values[i]) is Some,
        forall|i: int|
            0 <= i < SETTING_COUNT ==> (#[trigger] values[i])->Some_0@ == c.stored()[i],
    ensures
        Config::spec_from_values(values) == c.texts_and_flags(),
{
    reveal_strlit("True");
    reveal_strlit("False");
    reveal_strlit("true");
    assert forall|i: int| 0 <= i < SETTING_COUNT implies value_or_empty(#[trigger] values[i])
        == c.stored()[i] by {
        assert(values[i] is Some);
    }
    assert(flag_value("True"@));
    assert(!flag_value("False"@)) by {
        assert("False"@.len() != "true"@.len());
    }
    assert(value_or_empty(values[4]) == c.stored()[4]);
    assert(value_or_empty(values[5]) == c.stored()[5]);
    assert(value_or_empty(values[7]) == c.stored()[7]);
    assert(value_or_empty(values[8]) == c.stored()[8]);
    assert(Config::spec_from_values(values).0 =~= c.texts_and_flags().0);
    assert(Config::spec_from_values(values).1 =~= c.texts_and_flags().1);
}

} // verus!
