//! The per-page state of the dashboard: the bot search-and-detail page,
//! the queue page, and the bus selection page.

pub mod bot;
pub mod bus_select;
pub mod queue;
