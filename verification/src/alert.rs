//! Alert sound decisions: which sound an alert plays, what to do after each
//! tick, how many times an alert repeats, and the volume of a preview.
use vstd::prelude::*;
use crate::text::{chars_of, decimal, decimal_string, spec_parse_u32, trim, trim_chars};
use crate::timers::TickReport;

verus! {

broadcast use vstd::string::group_string_axioms;

/// Which of the two selectable sounds an alert plays.
#[derive(Clone, Copy, PartialEq, Eq, Debug, Structural)]
pub enum AlertSound {
    /// The alert sound.
    Regular,
    /// The optional final alert sound.
    Final,
}

/// The sound for an alert: the final sound when this is the cohort's last
/// alert and one is selected, otherwise the regular sound if one is selected.
pub open spec fn spec_choose_sound(is_final: bool, has_final: bool, has_regular: bool) -> Option<
    AlertSound,
> {
    if is_final && has_final {
        Some(AlertSound::Final)
    } else if has_regular {
        Some(AlertSound::Regular)
    } else {
        None
    }
}

pub fn choose_alert_sound(is_final: bool, has_final: bool, has_regular: bool) -> (r: Option<
    AlertSound,
>)
    ensures
        r == spec_choose_sound(is_final, has_final, has_regular),
{
    if is_final && has_final {
        Some(AlertSound::Final)
    } else if has_regular {
        Some(AlertSound::Regular)
    } else {
        None
    }
}

/// The final sound plays only for the cohort's last alert and only when one
/// is selected; any other alert plays the regular sound when one is
/// selected; there is no sound exactly when neither applies.
pub proof fn law_alert_sound_choice(is_final: bool, has_final: bool, has_regular: bool)
    ensures
        spec_choose_sound(is_final, has_final, has_regular) == Some(AlertSound::Final) <==> (
        is_final && has_final),
        spec_choose_sound(is_final, has_final, has_regular) == Some(AlertSound::Regular) <==> (
        !(is_final && has_final) && has_regular),
        spec_choose_sound(is_final, has_final, has_regular) is None <==> (!(is_final && has_final)
            && !has_regular),
{
}

/// What the sound side does after a tick.
#[derive(Clone, Copy, PartialEq, Eq, Debug, Structural)]
pub enum AlertAction {
    /// Leave the sound as it is.
    Nothing,
    /// A timer fired: stop the current sound and start the alert (silencing
    /// the alerting timers if no sound is selected).
    PlayNew,
    /// The alert sound ended and repeats remain: play it again.
    Replay,
    /// The alert sound ended with no repeats left: silence the alerting timers.
    SilenceAll,
    /// Nothing is alerting: stop any alert sound.
    StopSound,
}

/// The decision after a tick. A preview in progress is never interrupted
/// except by a new alert.
pub open spec fn spec_after_tick(
    report: TickReport,
    preview_active: bool,
    sound_playing: bool,
    plays_remaining: u32,
) -> AlertAction {
    if report.any_new_alert {
        AlertAction::PlayNew
    } else if report.any_alerting && !preview_active {
        if sound_playing {
            AlertAction::Nothing
        } else if plays_remaining > 0 {
            AlertAction::Replay
        } else {
            AlertAction::SilenceAll
        }
    } else if !report.any_alerting && !preview_active {
        AlertAction::StopSound
    } else {
        AlertAction::Nothing
    }
}

pub fn after_tick(
    report: &TickReport,
    preview_active: bool,
    sound_playing: bool,
    plays_remaining: u32,
) -> (r: AlertAction)
    ensures
        r == spec_after_tick(*report, preview_active, sound_playing, plays_remaining),
{
    if report.any_new_alert {
        AlertAction::PlayNew
    } else if report.any_alerting && !preview_active {
        if sound_playing {
            AlertAction::Nothing
        } else if plays_remaining > 0 {
            AlertAction::Replay
        } else {
            AlertAction::SilenceAll
        }
    } else if !report.any_alerting && !preview_active {
        AlertAction::StopSound
    } else {
        AlertAction::Nothing
    }
}

/// What follows a tick: a timer that just fired always gets its alert played
/// (a new alert interrupts a preview and whatever is sounding, whatever
/// repeats are left). Otherwise, outside a preview: while timers alert and
/// no sound is playing, the alert is replayed if plays are left and the
/// alerting timers are silenced if not; while they alert and a sound plays,
/// nothing happens; when nothing alerts, any alert sound is stopped. During
/// a preview without a new alert nothing happens.
pub proof fn law_after_tick_decisions(
    report: TickReport,
    preview_active: bool,
    sound_playing: bool,
    plays_remaining: u32,
)
    ensures
        ({
            let r = spec_after_tick(report, preview_active, sound_playing, plays_remaining);
            &&& report.any_new_alert ==> r == AlertAction::PlayNew
            &&& !report.any_new_alert && report.any_alerting && !preview_active && !sound_playing
                && plays_remaining > 0 ==> r == AlertAction::Replay
            &&& !report.any_new_alert && report.any_alerting && !preview_active && !sound_playing
                && plays_remaining == 0 ==> r == AlertAction::SilenceAll
            &&& !report.any_new_alert && report.any_alerting && !preview_active && sound_playing
                ==> r == AlertAction::Nothing
            &&& !report.any_new_alert && !report.any_alerting && !preview_active ==> r
                == AlertAction::StopSound
            &&& !report.any_new_alert && preview_active ==> r == AlertAction::Nothing
        }),
{
}

/// The repeat settings and the plays an ongoing alert has left.
pub struct AlertState {
    pub repeat_alert_enabled: bool,
    pub repeat_alert_count: u32,
    pub repeat_alert_count_str: String,
    pub alert_plays_remaining: u32,
}

/// The repeat count typed into its box, when it is a number of at least one.
pub open spec fn typed_repeat(s: Seq<char>) -> Option<u32> {
    match spec_parse_u32(trim(s)) {
        Some(n) => if n >= 1 {
            Some(n)
        } else {
            None
        },
        None => None,
    }
}

impl AlertState {
    /// Repeat off, one repeat when turned on, nothing playing.
    pub fn new() -> (a: AlertState)
        ensures
            !a.repeat_alert_enabled,
            a.repeat_alert_count == 1,
            a.repeat_alert_count_str@ == decimal(1),
            a.alert_plays_remaining == 0,
    {
        AlertState {
            repeat_alert_enabled: false,
            repeat_alert_count: 1,
            repeat_alert_count_str: decimal_string(1),
            alert_plays_remaining: 0,
        }
    }

    /// An alert starts playing: it repeats the set number of times if
    /// repeating is on, else not at all.
    pub fn begin_alert(&mut self)
        ensures
            final(self).alert_plays_remaining == if old(self).repeat_alert_enabled {
                old(self).repeat_alert_count
            } else {
                0
            },
            final(self).repeat_alert_enabled == old(self).repeat_alert_enabled,
            final(self).repeat_alert_count == old(self).repeat_alert_count,
            final(self).repeat_alert_count_str == old(self).repeat_alert_count_str,
    {
        self.alert_plays_remaining = if self.repeat_alert_enabled {
            self.repeat_alert_count
        } else {
            0
        };
    }

    /// One repeat is used up.
    pub fn take_replay(&mut self)
        requires
            old(self).alert_plays_remaining > 0,
        ensures
            final(self).alert_plays_remaining == old(self).alert_plays_remaining - 1,
            final(self).repeat_alert_enabled == old(self).repeat_alert_enabled,
            final(self).repeat_alert_count == old(self).repeat_alert_count,
            final(self).repeat_alert_count_str == old(self).repeat_alert_count_str,
    {
        self.alert_plays_remaining = self.alert_plays_remaining - 1;
    }

    /// The alert sound is stopped: no repeats remain.
    pub fn stop_sound(&mut self)
        ensures
            final(self).alert_plays_remaining == 0,
            final(self).repeat_alert_enabled == old(self).repeat_alert_enabled,
            final(self).repeat_alert_count == old(self).repeat_alert_count,
            final(self).repeat_alert_count_str == old(self).repeat_alert_count_str,
    {
        self.alert_plays_remaining = 0;
    }

    /// Arrow keys on the repeat box: up adds one (saturating), down removes
    /// one while above one; the box shows the new count.
    pub fn step_repeat_count(&mut self, up: bool, down: bool)
        ensures
            ({
                let c1 = if up {
                    if old(self).repeat_alert_count < u32::MAX {
                        (old(self).repeat_alert_count + 1) as u32
                    } else {
                        u32::MAX
                    }
                } else {
                    old(self).repeat_alert_count
                };
                let c2 = if down && c1 > 1 {
                    (c1 - 1) as u32
                } else {
                    c1
                };
                &&& final(self).repeat_alert_count == c2
                &&& final(self).repeat_alert_count_str@ == if up || (down && c1 > 1) {
                    decimal(c2 as nat)
                } else {
                    old(self).repeat_alert_count_str@
                }
            }),
            final(self).alert_plays_remaining == old(self).alert_plays_remaining,
            final(self).repeat_alert_enabled == old(self).repeat_alert_enabled,
    {
        if up {
            self.repeat_alert_count = if self.repeat_alert_count < u32::MAX {
                self.repeat_alert_count + 1
            } else {
                u32::MAX
            };
            self.repeat_alert_count_str = decimal_string(self.repeat_alert_count as u64);
        }
        if down && self.repeat_alert_count > 1 {
            self.repeat_alert_count = self.repeat_alert_count - 1;
            self.repeat_alert_count_str = decimal_string(self.repeat_alert_count as u64);
        }
    }

    /// After the repeat box is edited: a typed count of at least one is taken.
    pub fn take_typed_repeat_count(&mut self)
        ensures
            final(self).repeat_alert_count == match typed_repeat(old(self).repeat_alert_count_str@) {
                Some(n) => n,
                None => old(self).repeat_alert_count,
            },
            final(self).repeat_alert_count_str == old(self).repeat_alert_count_str,
            final(self).alert_plays_remaining == old(self).alert_plays_remaining,
            final(self).repeat_alert_enabled == old(self).repeat_alert_enabled,
    {
        let t = trim_chars(&chars_of(self.repeat_alert_count_str.as_str()));
        match crate::text::parse_u32_chars(&t) {
            Some(n) => {
                if n >= 1 {
                    self.repeat_alert_count = n;
                }
            },
            None => {},
        }
    }

    /// When the repeat box loses focus it shows the count in use.
    pub fn show_repeat_count(&mut self)
        ensures
            final(self).repeat_alert_count_str@ == decimal(old(self).repeat_alert_count as nat),
            final(self).repeat_alert_count == old(self).repeat_alert_count,
            final(self).alert_plays_remaining == old(self).alert_plays_remaining,
            final(self).repeat_alert_enabled == old(self).repeat_alert_enabled,
    {
        self.repeat_alert_count_str = decimal_string(self.repeat_alert_count as u64);
    }
}

/// An alert with repeating on and count `n` plays `n` more times after its
/// first play, each time its sound ends, and is then silenced.
pub proof fn law_alert_repeats(n: u32, k: u32)
    requires
        k <= n,
    ensures
        ({
            let alerting = TickReport { any_new_alert: false, any_alerting: true };
            &&& k < n ==> spec_after_tick(alerting, false, false, (n - k) as u32)
                == AlertAction::Replay
            &&& spec_after_tick(alerting, false, false, 0) == AlertAction::SilenceAll
        }),
{
}

// ─── Sound preview ──────────────────────────────────────────────────────────
/// Length of a preview, in milliseconds.
pub const PREVIEW_TOTAL_MS: u64 = 4000;

/// Length of the fade at each end of a preview, in milliseconds.
pub const PREVIEW_FADE_MS: u64 = 400;

/// The preview volume `elapsed_ms` into a preview, in units of 1/400 of
/// full volume; none once the preview is over (it stops).
pub open spec fn spec_preview_volume(elapsed_ms: u64) -> Option<u32> {
    if elapsed_ms >= PREVIEW_TOTAL_MS {
        None
    } else if elapsed_ms < PREVIEW_FADE_MS {
        Some(elapsed_ms as u32)
    } else if elapsed_ms >= PREVIEW_TOTAL_MS - PREVIEW_FADE_MS {
        Some((PREVIEW_TOTAL_MS - elapsed_ms) as u32)
    } else {
        Some(PREVIEW_FADE_MS as u32)
    }
}

/// Preview volume: fades in over the first 400 ms, holds, and fades out over
/// the last 400 ms of four seconds.
pub fn preview_volume(elapsed_ms: u64) -> (r: Option<u32>)
    ensures
        r == spec_preview_volume(elapsed_ms),
{
    if elapsed_ms >= PREVIEW_TOTAL_MS {
        None
    } else if elapsed_ms < PREVIEW_FADE_MS {
        Some(elapsed_ms as u32)
    } else if elapsed_ms >= PREVIEW_TOTAL_MS - PREVIEW_FADE_MS {
        Some((PREVIEW_TOTAL_MS - elapsed_ms) as u32)
    } else {
        Some(PREVIEW_FADE_MS as u32)
    }
}

/// The preview volume never exceeds full volume, rises during the fade-in,
/// falls during the fade-out, and steps by at most one unit per millisecond.
pub proof fn law_preview_volume_shape(a: u64, b: u64)
    requires
        a < b < PREVIEW_TOTAL_MS,
    ensures
        spec_preview_volume(a) matches Some(va) && va <= PREVIEW_FADE_MS,
        b < PREVIEW_FADE_MS ==> spec_preview_volume(a)->Some_0 < spec_preview_volume(b)->Some_0,
        a >= PREVIEW_TOTAL_MS - PREVIEW_FADE_MS ==> spec_preview_volume(a)->Some_0
            > spec_preview_volume(b)->Some_0,
        b == a + 1 ==> spec_preview_volume(b)->Some_0 - spec_preview_volume(a)->Some_0 <= 1
            && spec_preview_volume(a)->Some_0 - spec_preview_volume(b)->Some_0 <= 1,
        spec_preview_volume(PREVIEW_TOTAL_MS) is None,
{
}

/// The preview volume, in 1/400 of full volume, is the least of the time
/// since the start, the time until the end (both in milliseconds) and full
/// volume; after four seconds there is none and the preview stops.
pub proof fn law_preview_volume_values(elapsed_ms: u64)
    ensures
        elapsed_ms >= 4000 ==> spec_preview_volume(elapsed_ms) is None,
        elapsed_ms < 4000 ==> (spec_preview_volume(elapsed_ms) matches Some(v) && v == ({
            let up: int = elapsed_ms as int;
            let down: int = 4000 - elapsed_ms;
            let m: int = if up < down {
                up
            } else {
                down
            };
            if m < 400 {
                m
            } else {
                400
            }
        })),
{
}

} // verus!
