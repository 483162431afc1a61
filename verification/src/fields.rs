//! The input fields that describe a cohort, and which of them is computed
//! from the others. Interval, Count and Duration are tied by "any two give
//! the third"; in geometric mode Interval, Ratio and Duration are, with
//! Count always typed.
use vstd::prelude::*;
use crate::config::Config;
use crate::text::{chars_of, decimal, spec_parse_u32, trim, trim_chars};
use crate::timetext::{format_secs_precise, precise_text};

verus! {

broadcast use vstd::string::group_string_axioms;

/// Upper bound on timers per cohort; typed counts clamp to it.
pub const MAX_COUNT: u32 = 25;

/// The field whose value is computed from the others (and locked).
#[derive(Clone, Copy, PartialEq, Eq, Debug, Structural)]
pub enum DisabledField {
    NoField,
    Interval,
    Count,
    Duration,
    Ratio,
}

/// The state of the settings inputs.
pub struct Fields {
    pub input_interval: String,
    pub input_count: String,
    pub input_duration: String,
    pub input_offset: String,
    pub input_ratio: String,
    pub input_sigma: String,
    /// Values computed for a locked field (full precision; the buffer shows them).
    pub calculated_interval_nanos: u64,
    pub calculated_count: u32,
    pub calculated_duration_nanos: u64,
    /// The display text of a computed ratio.
    pub calculated_ratio_text: String,
    pub disabled_field: DisabledField,
    pub geometric_enabled: bool,
    /// A geometric solve found no valid value.
    pub geom_invalid: bool,
    pub randomize_enabled: bool,
    pub randomize_gaussian: bool,
    /// 50..=200, the speed in percent.
    pub speed_pct: u32,
    pub needs_rebuild: bool,
}

/// A count field is valid when, trimmed, it is a positive `u32`.
pub open spec fn spec_valid_count(s: Seq<char>) -> bool {
    &&& trim(s).len() != 0
    &&& match spec_parse_u32(trim(s)) {
        Some(v) => v > 0,
        None => false,
    }
}

/// Whether a count text is a valid, positive count.
pub fn is_valid_count(s: &str) -> (b: bool)
    ensures
        b == spec_valid_count(s@),
{
    let t = trim_chars(&chars_of(s));
    if t.len() == 0 {
        return false;
    }
    match crate::text::parse_u32_chars(&t) {
        Some(v) => v > 0,
        None => false,
    }
}

/// The typed count: the trimmed text as a `u32`, or zero.
pub open spec fn typed_count(s: Seq<char>) -> u32 {
    match spec_parse_u32(trim(s)) {
        Some(v) => v,
        None => 0,
    }
}

pub fn parse_count(s: &str) -> (r: u32)
    ensures
        r == typed_count(s@),
{
    let t = trim_chars(&chars_of(s));
    match crate::text::parse_u32_chars(&t) {
        Some(v) => v,
        None => 0,
    }
}

/// Normal mode: with at least two of Interval, Count and Duration typed, the
/// missing one is computed (Duration when all three are typed); else none.
pub open spec fn normal_target(i: bool, c: bool, d: bool) -> DisabledField {
    if (i && c) || (i && d) || (c && d) {
        if !i {
            DisabledField::Interval
        } else if !c {
            DisabledField::Count
        } else {
            DisabledField::Duration
        }
    } else {
        DisabledField::NoField
    }
}

/// Geometric mode: with at least two of Interval, Ratio and Duration given,
/// the missing one is computed (Duration when all three are); else none.
pub open spec fn geometric_target(i: bool, r: bool, d: bool) -> DisabledField {
    if (i && r) || (i && d) || (r && d) {
        if !i {
            DisabledField::Interval
        } else if !d {
            DisabledField::Duration
        } else if !r {
            DisabledField::Ratio
        } else {
            DisabledField::Duration
        }
    } else {
        DisabledField::NoField
    }
}

/// Validity of the typed Interval, Duration and Ratio buffers (each read as
/// a positive time or a positive ratio).
#[derive(Clone, Copy)]
pub struct Validity {
    pub interval: bool,
    pub duration: bool,
    pub ratio: bool,
}

/// The buffers, flags and computed values of the fields, for contracts.
pub struct FieldsModel {
    pub interval: Seq<char>,
    pub count: Seq<char>,
    pub duration: Seq<char>,
    pub offset: Seq<char>,
    pub ratio: Seq<char>,
    pub sigma: Seq<char>,
    pub calculated_interval_nanos: u64,
    pub calculated_count: u32,
    pub calculated_duration_nanos: u64,
    pub calculated_ratio_text: Seq<char>,
    pub disabled_field: DisabledField,
    pub geometric_enabled: bool,
    pub geom_invalid: bool,
    pub randomize_enabled: bool,
    pub randomize_gaussian: bool,
    pub speed_pct: u32,
    pub needs_rebuild: bool,
}

impl View for Fields {
    type V = FieldsModel;

    open spec fn view(&self) -> FieldsModel {
        FieldsModel {
            interval: self.input_interval@,
            count: self.input_count@,
            duration: self.input_duration@,
            offset: self.input_offset@,
            ratio: self.input_ratio@,
            sigma: self.input_sigma@,
            calculated_interval_nanos: self.calculated_interval_nanos,
            calculated_count: self.calculated_count,
            calculated_duration_nanos: self.calculated_duration_nanos,
            calculated_ratio_text: self.calculated_ratio_text@,
            disabled_field: self.disabled_field,
            geometric_enabled: self.geometric_enabled,
            geom_invalid: self.geom_invalid,
            randomize_enabled: self.randomize_enabled,
            randomize_gaussian: self.randomize_gaussian,
            speed_pct: self.speed_pct,
            needs_rebuild: self.needs_rebuild,
        }
    }
}

/// Moving the lock to `df`: the buffer of the field being released is
/// cleared; nothing changes when the lock stays.
pub open spec fn spec_set_disabled(m: FieldsModel, df: DisabledField) -> FieldsModel {
    if m.disabled_field == df {
        m
    } else {
        let e = Seq::<char>::empty();
        let m2 = match m.disabled_field {
            DisabledField::Interval => FieldsModel { interval: e, ..m },
            DisabledField::Count => FieldsModel { count: e, ..m },
            DisabledField::Duration => FieldsModel { duration: e, ..m },
            DisabledField::Ratio => FieldsModel { ratio: e, ..m },
            DisabledField::NoField => m,
        };
        FieldsModel { disabled_field: df, ..m2 }
    }
}

/// The locked field's buffer shows its computed value.
pub open spec fn spec_sync(m: FieldsModel) -> FieldsModel {
    match m.disabled_field {
        DisabledField::Interval => FieldsModel {
            interval: precise_text(m.calculated_interval_nanos as nat),
            ..m
        },
        DisabledField::Count => FieldsModel { count: decimal(m.calculated_count as nat), ..m },
        DisabledField::Duration => FieldsModel {
            duration: precise_text(m.calculated_duration_nanos as nat),
            ..m
        },
        DisabledField::Ratio => FieldsModel { ratio: m.calculated_ratio_text, ..m },
        DisabledField::NoField => m,
    }
}

/// Whether the user (not the solver) supplies each of Interval, Count and
/// Duration in normal mode.
pub open spec fn normal_filled(m: FieldsModel, v: Validity) -> (bool, bool, bool) {
    (
        m.disabled_field != DisabledField::Interval && v.interval,
        m.disabled_field != DisabledField::Count && spec_valid_count(m.count),
        m.disabled_field != DisabledField::Duration && v.duration,
    )
}

/// Whether the user supplies each of Interval, Ratio and Duration in geometric mode.
pub open spec fn geometric_given(m: FieldsModel, v: Validity) -> (bool, bool, bool) {
    (
        m.disabled_field != DisabledField::Interval && v.interval,
        m.disabled_field != DisabledField::Ratio && v.ratio,
        m.disabled_field != DisabledField::Duration && v.duration,
    )
}

pub open spec fn spec_begin_normal(m: FieldsModel, v: Validity) -> FieldsModel {
    let f = normal_filled(m, v);
    spec_set_disabled(m, normal_target(f.0, f.1, f.2))
}

pub open spec fn spec_begin_geometric(m: FieldsModel, v: Validity) -> FieldsModel {
    if !spec_valid_count(m.count) {
        FieldsModel { geom_invalid: false, ..spec_set_disabled(m, DisabledField::NoField) }
    } else {
        let g = geometric_given(m, v);
        let t = geometric_target(g.0, g.1, g.2);
        if t == DisabledField::NoField {
            FieldsModel { geom_invalid: false, ..spec_set_disabled(m, t) }
        } else {
            spec_set_disabled(m, t)
        }
    }
}

pub open spec fn spec_finish_geometric(m: FieldsModel, solved: bool) -> FieldsModel {
    let e = Seq::<char>::empty();
    let m2 = if solved {
        spec_sync(m)
    } else {
        match m.disabled_field {
            DisabledField::Interval => FieldsModel { interval: e, ..m },
            DisabledField::Duration => FieldsModel { duration: e, ..m },
            DisabledField::Ratio => FieldsModel { ratio: e, ..m },
            _ => m,
        }
    };
    FieldsModel { geom_invalid: !solved, needs_rebuild: true, ..m2 }
}

/// The kind of cohort the inputs describe.
#[derive(Clone, Copy, PartialEq, Eq, Debug, Structural)]
pub enum CohortPlan {
    /// The inputs describe no cohort; the timers are cleared.
    NoCohort,
    /// Fire times drawn at random within the total duration.
    Random,
    /// Gaps growing by the ratio; the offset replaces only the first gap.
    Geometric,
    /// Evenly spaced, the first at the offset or after one interval.
    Arithmetic,
}

/// Which cohort a rebuild makes: none without timers; random mode draws
/// regardless of the interval; otherwise an interval is needed, and the
/// geometric mode also needs a positive ratio and a solvable series.
pub open spec fn spec_plan(
    count: u32,
    randomize: bool,
    interval: u64,
    geometric: bool,
    ratio_positive: bool,
    geom_invalid: bool,
) -> CohortPlan {
    if count == 0 {
        CohortPlan::NoCohort
    } else if randomize {
        CohortPlan::Random
    } else if interval == 0 {
        CohortPlan::NoCohort
    } else if geometric {
        if !ratio_positive || geom_invalid {
            CohortPlan::NoCohort
        } else {
            CohortPlan::Geometric
        }
    } else {
        CohortPlan::Arithmetic
    }
}

impl Fields {
    /// The inputs at launch: empty except the stored ratio and sigma, with
    /// the stored modes (geometric only when not randomized), at 100% speed.
    pub fn from_config(config: &Config) -> (f: Fields)
        ensures
            f@.interval.len() == 0,
            f@.count.len() == 0,
            f@.duration.len() == 0,
            f@.offset.len() == 0,
            f@.ratio == config.geometric_ratio@,
            f@.sigma == config.randomize_sigma@,
            f@.calculated_interval_nanos == 0,
            f@.calculated_count == 0,
            f@.calculated_duration_nanos == 0,
            f@.calculated_ratio_text.len() == 0,
            f@.disabled_field == DisabledField::NoField,
            f@.geometric_enabled == (config.geometric_enabled && !config.randomize_enabled),
            !f@.geom_invalid,
            f@.randomize_enabled == config.randomize_enabled,
            f@.randomize_gaussian == config.randomize_gaussian,
            f@.speed_pct == 100,
            !f@.needs_rebuild,
    {
        Fields {
            input_interval: String::new(),
            input_count: String::new(),
            input_duration: String::new(),
            input_offset: String::new(),
            input_ratio: config.geometric_ratio.clone(),
            input_sigma: config.randomize_sigma.clone(),
            calculated_interval_nanos: 0,
            calculated_count: 0,
            calculated_duration_nanos: 0,
            calculated_ratio_text: String::new(),
            disabled_field: DisabledField::NoField,
            geometric_enabled: config.geometric_enabled && !config.randomize_enabled,
            geom_invalid: false,
            randomize_enabled: config.randomize_enabled,
            randomize_gaussian: config.randomize_gaussian,
            speed_pct: 100,
            needs_rebuild: false,
        }
    }

    /// Moves the lock to `new_df`, clearing the buffer of the field released.
    pub fn set_disabled_field(&mut self, new_df: DisabledField)
        ensures
            final(self)@ == spec_set_disabled(old(self)@, new_df),
    {
        if self.disabled_field == new_df {
            return;
        }
        match self.disabled_field {
            DisabledField::Interval => self.input_interval = String::new(),
            DisabledField::Count => self.input_count = String::new(),
            DisabledField::Duration => self.input_duration = String::new(),
            DisabledField::Ratio => self.input_ratio = String::new(),
            DisabledField::NoField => {},
        }
        self.disabled_field = new_df;
    }

    /// Writes the computed value into the locked field's buffer.
    pub fn sync_computed_display(&mut self)
        ensures
            final(self)@ == spec_sync(old(self)@),
    {
        match self.disabled_field {
            DisabledField::Interval => {
                self.input_interval = format_secs_precise(self.calculated_interval_nanos);
            },
            DisabledField::Count => {
                self.input_count = crate::text::decimal_string(self.calculated_count as u64);
            },
            DisabledField::Duration => {
                self.input_duration = format_secs_precise(self.calculated_duration_nanos);
            },
            DisabledField::Ratio => {
                self.input_ratio = self.calculated_ratio_text.clone();
            },
            DisabledField::NoField => {},
        }
    }

    /// Normal mode, first half: locks the field to compute (if two of the
    /// three are typed) and returns it; the caller computes its value and
    /// then calls [`Fields::finish_normal`].
    pub fn begin_normal(&mut self, v: Validity) -> (target: DisabledField)
        ensures
            final(self)@ == spec_begin_normal(old(self)@, v),
            target == final(self)@.disabled_field,
    {
        let i = self.disabled_field != DisabledField::Interval && v.interval;
        let c = self.disabled_field != DisabledField::Count && is_valid_count(
            self.input_count.as_str(),
        );
        let d = self.disabled_field != DisabledField::Duration && v.duration;
        let target = if (i && c) || (i && d) || (c && d) {
            if !i {
                DisabledField::Interval
            } else if !c {
                DisabledField::Count
            } else {
                DisabledField::Duration
            }
        } else {
            DisabledField::NoField
        };
        self.set_disabled_field(target);
        target
    }

    /// Normal mode, second half: shows the computed value and asks for a
    /// rebuild, when a field is locked.
    pub fn finish_normal(&mut self)
        ensures
            old(self).disabled_field != DisabledField::NoField ==> final(self)@ == (FieldsModel {
                needs_rebuild: true,
                ..spec_sync(old(self)@)
            }),
            old(self).disabled_field == DisabledField::NoField ==> final(self)@ == old(self)@,
    {
        if self.disabled_field != DisabledField::NoField {
            self.sync_computed_display();
            self.needs_rebuild = true;
        }
    }

    /// Geometric mode, first half: with a valid count and two of Interval,
    /// Ratio and Duration given, locks the missing one and returns it; the
    /// caller solves for it and calls [`Fields::finish_geometric`].
    pub fn begin_geometric(&mut self, v: Validity) -> (target: DisabledField)
        ensures
            final(self)@ == spec_begin_geometric(old(self)@, v),
            target == final(self)@.disabled_field,
    {
        if !is_valid_count(self.input_count.as_str()) {
            self.set_disabled_field(DisabledField::NoField);
            self.geom_invalid = false;
            return DisabledField::NoField;
        }
        let i = self.disabled_field != DisabledField::Interval && v.interval;
        let r = self.disabled_field != DisabledField::Ratio && v.ratio;
        let d = self.disabled_field != DisabledField::Duration && v.duration;
        let target = if (i && r) || (i && d) || (r && d) {
            if !i {
                DisabledField::Interval
            } else if !d {
                DisabledField::Duration
            } else if !r {
                DisabledField::Ratio
            } else {
                DisabledField::Duration
            }
        } else {
            DisabledField::NoField
        };
        self.set_disabled_field(target);
        if target == DisabledField::NoField {
            self.geom_invalid = false;
        }
        target
    }

    /// Geometric mode, second half: a solved field shows its value; an
    /// unsolvable one is blanked and flagged. Either way a rebuild is due.
    pub fn finish_geometric(&mut self, solved: bool)
        ensures
            final(self)@ == spec_finish_geometric(old(self)@, solved),
    {
        self.geom_invalid = !solved;
        if solved {
            self.sync_computed_display();
        } else {
            match self.disabled_field {
                DisabledField::Interval => self.input_interval = String::new(),
                DisabledField::Duration => self.input_duration = String::new(),
                DisabledField::Ratio => self.input_ratio = String::new(),
                _ => {},
            }
        }
        self.needs_rebuild = true;
    }

    /// Randomized mode: nothing is computed; a cohort is drawn as soon as
    /// Count and Duration are both valid. `duration_valid` is whether the
    /// Duration text as it stands before the call is a positive time; a held
    /// Duration lock is released first, which empties that text, and an empty
    /// text is never a valid time.
    pub fn update_field_states_random(&mut self, duration_valid: bool)
        ensures
            final(self)@ == (FieldsModel {
                geom_invalid: false,
                needs_rebuild: old(self)@.needs_rebuild || (spec_valid_count(
                    spec_set_disabled(old(self)@, DisabledField::NoField).count,
                ) && duration_valid && old(self)@.disabled_field != DisabledField::Duration),
                ..spec_set_disabled(old(self)@, DisabledField::NoField)
            }),
    {
        let duration_kept = self.disabled_field != DisabledField::Duration;
        self.set_disabled_field(DisabledField::NoField);
        self.geom_invalid = false;
        if is_valid_count(self.input_count.as_str()) && duration_valid && duration_kept {
            self.needs_rebuild = true;
        }
    }

    /// Leaving geometric mode: a ratio lock is released and the invalid flag dropped.
    pub fn leave_geometric(&mut self)
        ensures
            final(self)@ == (FieldsModel {
                geom_invalid: false,
                ..(if old(self)@.disabled_field == DisabledField::Ratio {
                    spec_set_disabled(old(self)@, DisabledField::NoField)
                } else {
                    old(self)@
                })
            }),
    {
        if self.disabled_field == DisabledField::Ratio {
            self.set_disabled_field(DisabledField::NoField);
        }
        self.geom_invalid = false;
    }

    /// Turns randomized intervals on or off. Turning it on releases any lock,
    /// drops the interval, and switches geometric mode off.
    pub fn set_randomize(&mut self, on: bool)
        ensures
            on ==> final(self)@ == (FieldsModel {
                interval: Seq::<char>::empty(),
                geometric_enabled: false,
                geom_invalid: false,
                randomize_enabled: true,
                ..spec_set_disabled(old(self)@, DisabledField::NoField)
            }),
            !on ==> final(self)@ == (FieldsModel { randomize_enabled: false, ..old(self)@ }),
    {
        self.randomize_enabled = on;
        if on {
            self.set_disabled_field(DisabledField::NoField);
            self.input_interval = String::new();
            self.geometric_enabled = false;
            self.geom_invalid = false;
        }
    }

    /// The count in use: the computed one when Count is locked, else the typed one.
    pub fn get_effective_count(&self) -> (r: u32)
        ensures
            r == if self.disabled_field == DisabledField::Count {
                self.calculated_count
            } else {
                typed_count(self.input_count@)
            },
    {
        if self.disabled_field == DisabledField::Count {
            self.calculated_count
        } else {
            parse_count(self.input_count.as_str())
        }
    }

    /// The count in use: the computed one when Count is locked, else the typed one.
    pub open spec fn effective_count(&self) -> u32 {
        if self.disabled_field == DisabledField::Count {
            self.calculated_count
        } else {
            typed_count(self.input_count@)
        }
    }

    /// The count in use, capped at `MAX_COUNT`.
    pub open spec fn spec_cohort_size(&self) -> u32 {
        if self.effective_count() < MAX_COUNT {
            self.effective_count()
        } else {
            MAX_COUNT
        }
    }

    /// How many timers a rebuild draws: the count in use, capped at `MAX_COUNT`.
    pub fn cohort_size(&self) -> (r: u32)
        ensures
            r == self.spec_cohort_size(),
    {
        let count = self.get_effective_count();
        if count < MAX_COUNT {
            count
        } else {
            MAX_COUNT
        }
    }

    /// The interval in use, given the typed one.
    pub open spec fn effective_interval(&self, typed_nanos: u64) -> u64 {
        if self.disabled_field == DisabledField::Interval {
            self.calculated_interval_nanos
        } else {
            typed_nanos
        }
    }

    /// Which kind of cohort a rebuild makes, given the typed interval and
    /// whether the ratio in use is positive.
    pub fn plan_kind(&self, typed_interval_nanos: u64, ratio_positive: bool) -> (r: CohortPlan)
        ensures
            r == spec_plan(
                self.spec_cohort_size(),
                self.randomize_enabled,
                self.effective_interval(typed_interval_nanos),
                self.geometric_enabled,
                ratio_positive,
                self.geom_invalid,
            ),
    {
        let count = self.cohort_size();
        let interval = self.get_effective_interval(typed_interval_nanos);
        if count == 0 {
            CohortPlan::NoCohort
        } else if self.randomize_enabled {
            CohortPlan::Random
        } else if interval == 0 {
            CohortPlan::NoCohort
        } else if self.geometric_enabled {
            if !ratio_positive || self.geom_invalid {
                CohortPlan::NoCohort
            } else {
                CohortPlan::Geometric
            }
        } else {
            CohortPlan::Arithmetic
        }
    }

    /// The interval in use: the computed one when Interval is locked, else
    /// `typed_nanos`, the typed interval.
    pub fn get_effective_interval(&self, typed_nanos: u64) -> (r: u64)
        ensures
            r == if self.disabled_field == DisabledField::Interval {
                self.calculated_interval_nanos
            } else {
                typed_nanos
            },
    {
        if self.disabled_field == DisabledField::Interval {
            self.calculated_interval_nanos
        } else {
            typed_nanos
        }
    }

    /// Empties every input (keeping a typed interval, dropping a computed
    /// one), leaves both modes off, and returns to 100% speed.
    pub fn clear_all(&mut self)
        ensures
            final(self)@ == (FieldsModel {
                interval: if old(self)@.disabled_field == DisabledField::Interval {
                    Seq::<char>::empty()
                } else {
                    old(self)@.interval
                },
                count: Seq::<char>::empty(),
                duration: Seq::<char>::empty(),
                offset: Seq::<char>::empty(),
                ratio: Seq::<char>::empty(),
                sigma: Seq::<char>::empty(),
                geom_invalid: false,
                geometric_enabled: false,
                randomize_enabled: false,
                speed_pct: 100,
                disabled_field: DisabledField::NoField,
                ..old(self)@
            }),
    {
        if self.disabled_field == DisabledField::Interval {
            self.input_interval = String::new();
        }
        self.input_count = String::new();
        self.input_duration = String::new();
        self.input_offset = String::new();
        self.input_ratio = String::new();
        self.input_sigma = String::new();
        self.geom_invalid = false;
        self.geometric_enabled = false;
        self.randomize_enabled = false;
        self.speed_pct = 100;
        self.disabled_field = DisabledField::NoField;
    }
}

// ─── Laws ───────────────────────────────────────────────────────────────────
/// Any two of Interval, Count and Duration determine the third: a field is
/// locked exactly when at least two are typed, the locked one is never a
/// typed one unless all three are (then Duration is recomputed), and the
/// buffer of a field that loses its lock is emptied.
pub proof fn law_two_of_three(m: FieldsModel, v: Validity)
    ensures
        ({
            let f = normal_filled(m, v);
            let r = spec_begin_normal(m, v);
            let n = (if f.0 {
                1int
            } else {
                0
            }) + (if f.1 {
                1int
            } else {
                0
            }) + (if f.2 {
                1int
            } else {
                0
            });
            &&& (r.disabled_field != DisabledField::NoField <==> n >= 2)
            &&& (r.disabled_field == DisabledField::Interval ==> !f.0)
            &&& (r.disabled_field == DisabledField::Count ==> !f.1)
            &&& (r.disabled_field == DisabledField::Duration ==> !f.2 || n == 3)
            &&& (m.disabled_field != r.disabled_field && m.disabled_field
                == DisabledField::Interval ==> r.interval.len() == 0)
            &&& (m.disabled_field != r.disabled_field && m.disabled_field == DisabledField::Count
                ==> r.count.len() == 0)
            &&& (m.disabled_field != r.disabled_field && m.disabled_field
                == DisabledField::Duration ==> r.duration.len() == 0)
        }),
{
}

/// In geometric mode the Count must be valid before anything is locked; then
/// a field is locked exactly when at least two of Interval, Ratio and
/// Duration are given, and never a given one unless all three are.
pub proof fn law_geometric_two_of_three(m: FieldsModel, v: Validity)
    ensures
        ({
            let g = geometric_given(m, v);
            let r = spec_begin_geometric(m, v);
            let n = (if g.0 {
                1int
            } else {
                0
            }) + (if g.1 {
                1int
            } else {
                0
            }) + (if g.2 {
                1int
            } else {
                0
            });
            &&& (!spec_valid_count(m.count) ==> r.disabled_field == DisabledField::NoField
                && !r.geom_invalid)
            &&& (spec_valid_count(m.count) ==> (r.disabled_field != DisabledField::NoField <==> n
                >= 2))
            &&& (r.disabled_field == DisabledField::Interval ==> !g.0)
            &&& (r.disabled_field == DisabledField::Ratio ==> !g.1)
            &&& (r.disabled_field == DisabledField::Duration ==> !g.2 || n == 3)
            &&& r.disabled_field != DisabledField::Count
        }),
{
}

/// Once a field is locked and synced, its buffer shows the computed value:
/// a computed interval or duration as a precise time string, a computed
/// count as its numeral.
pub proof fn law_locked_field_shows_value(m: FieldsModel)
    ensures
        m.disabled_field == DisabledField::Interval ==> spec_sync(m).interval == precise_text(
            m.calculated_interval_nanos as nat,
        ),
        m.disabled_field == DisabledField::Count ==> spec_sync(m).count == decimal(
            m.calculated_count as nat,
        ),
        m.disabled_field == DisabledField::Duration ==> spec_sync(m).duration == precise_text(
            m.calculated_duration_nanos as nat,
        ),
        spec_sync(m).disabled_field == m.disabled_field,
{
}

} // verus!
