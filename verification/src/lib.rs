//! A calendar grid engine and datepicker state machine.
//!
//! The library turns a reference month into a rectangular grid of day cells,
//! padded with real adjacent-month days, and tracks the visible month and the
//! selected date across navigation and selection events. Locale-aware month
//! and weekday names come from `chrono`'s locale tables through a small set
//! of trusted wrappers; everything else is verified.

use vstd::prelude::*;

pub mod date;
pub mod grid;
pub mod locale;
pub mod state;

verus! {

/// The errors a caller can receive from the engine.
#[derive(Clone, Copy, Debug, PartialEq, Eq, Structural)]
pub enum CalendarError {
    /// A malformed or out-of-range year/month/day combination.
    InvalidDate,
    /// A week-start offset outside 0..=6.
    InvalidConfig,
    /// A locale with neither a registered name table nor formatter support.
    UnsupportedLocale,
}

} // verus!
