//! Statistics aggregation and time-bucketing engine for a terminal dashboard
//! that monitors automated workers ("bots") and message queues on a message
//! bus. The library builds calendar-aligned bucket keys for range queries,
//! merges per-bucket statistics records into condensed summaries, ranks
//! entity names with a fuzzy matcher, and drives the navigation state
//! machine that coordinates data fetches with user input.

use vstd::prelude::*;

pub mod app;
pub mod app_params;
pub mod bot_stats;
pub mod dynamo;
pub mod error;
pub mod leo_config;
pub mod pages;
pub mod search;
pub mod text;
pub mod ui;

verus! {

/// The environments a deployment may run against. Each name selects one
/// configuration key.
#[derive(Debug, Clone, Copy, PartialEq, Eq, Structural)]
pub enum Bus {
    ProdBus,
    StagingBus,
    TestBus,
    ProdStreamsBus,
    StagingStreamsBus,
    TestStreamsBus,
    ProdChubBus,
    StagingChubBus,
    TestChubBus,
}

} // verus!
