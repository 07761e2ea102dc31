//! The startup parameters the dashboard is launched with, and the clamp
//! that keeps the refresh interval in its accepted range.

use vstd::prelude::*;

use crate::text::i64_parse_spec;

verus! {

/// What the command line hands the application: a refresh interval in
/// seconds, an optional configuration file path, an optional pre-selected
/// bus key, and the debug switch that unlocks the state view.
#[derive(Debug, Clone)]
pub struct AppParams {
    pub refresh_time: i64,
    pub config_path: Option<String>,
    pub bus: Option<String>,
    pub debug: bool,
}

/// The refresh interval a command-line value denotes, in seconds: clamped
/// to 10..=600, and 10 for anything that does not parse as a number.
pub fn num_to_duration(value: &str) -> (r: i64)
    ensures
        r == match i64_parse_spec(value@) {
            Some(secs) => if secs > 600 {
                600int
            } else if secs < 10 {
                10int
            } else {
                secs
            },
            None => 10int,
        },
{
    match crate::text::parse_i64(value) {
        Some(secs) => {
            if secs > 600 {
                600
            } else if secs < 10 {
                10
            } else {
                secs
            }
        },
        None => 10,
    }
}

} // verus!
