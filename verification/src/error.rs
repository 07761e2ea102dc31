//! The error value that recoverable per-event failures and refused inputs
//! bubble up with.

use vstd::prelude::*;

verus! {

/// Everything the library reports instead of panicking: invalid keys for the
/// current mode, navigation against missing state, paths that are not
/// implemented, and unknown configuration keys.
#[derive(Debug, Clone)]
pub enum AppError {
    /// The pressed key has no meaning in the current mode.
    InvalidKey,
    /// The queue page is a placeholder with no behaviour yet.
    UnimplementedQueueMode,
    /// There is no date layout for week-sized buckets yet.
    UnimplementedWeekBucket,
    /// Detail lookup without loaded bots and without a selection.
    NoBotsLoadedAndNoBotSelected,
    /// Detail lookup before any bot settings were loaded.
    NoBotsLoaded,
    /// Detail lookup without a selected bot.
    NoBotSelected,
    /// No settings row matches the selected bot.
    SettingsNotFound,
    /// Navigation inside the detail view without a loaded detail record.
    NonExistentBot,
    /// The named bus does not appear in the configuration.
    UnknownBus,
}

impl AppError {
    /// A short description of the failure.
    pub fn message(&self) -> (r: &'static str)
        ensures
            r@ == self.spec_message(),
    {
        match self {
            AppError::InvalidKey => "invalid key pressed",
            AppError::UnimplementedQueueMode => "queue mode is not implemented",
            AppError::UnimplementedWeekBucket => "week buckets have no date layout",
            AppError::NoBotsLoadedAndNoBotSelected => "no bots loaded AND no bot selected",
            AppError::NoBotsLoaded => "no bots loaded",
            AppError::NoBotSelected => "no bot selected when attempting to get bot details",
            AppError::SettingsNotFound => "unable to locate settings for selected bot",
            AppError::NonExistentBot => "cannot navigate a non-existant bot",
            AppError::UnknownBus => "unable to find bus in leo config",
        }
    }

    /// The description each variant carries.
    pub open spec fn spec_message(&self) -> Seq<char> {
        match self {
            AppError::InvalidKey => "invalid key pressed"@,
            AppError::UnimplementedQueueMode => "queue mode is not implemented"@,
            AppError::UnimplementedWeekBucket => "week buckets have no date layout"@,
            AppError::NoBotsLoadedAndNoBotSelected => "no bots loaded AND no bot selected"@,
            AppError::NoBotsLoaded => "no bots loaded"@,
            AppError::NoBotSelected => "no bot selected when attempting to get bot details"@,
            AppError::SettingsNotFound => "unable to locate settings for selected bot"@,
            AppError::NonExistentBot => "cannot navigate a non-existant bot"@,
            AppError::UnknownBus => "unable to find bus in leo config"@,
        }
    }
}

} // verus!
