//! Verified core of a cascading-timers application: schedules of timers,
//! their state machine, the input fields that describe a schedule, time
//! strings, alert decisions, and persisted settings.
pub mod text;
pub mod timetext;
pub mod timetext_laws;
pub mod timetext_reading;
pub mod timers;
pub mod cohort_laws;
pub mod config;
pub mod settings_file;
pub mod fields;
pub mod sanitize;
pub mod ratio;
pub mod alert;
pub mod icon;
