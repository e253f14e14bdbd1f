//! Order books for Binance USD-M futures: one verified state machine per symbol,
//! the decisions of the feed around it, and the fan-out to subscribers.
pub mod book;
pub mod books;
pub mod choice_laws;
pub mod decimal;
pub mod event_laws;
pub mod feed_handler;
pub mod feed_laws;
pub mod fuzz;
pub mod json;
pub mod laws;
pub mod levels;
pub mod list_laws;
pub mod messages;
pub mod model;
pub mod outcomes;
pub mod pacing;
pub mod publisher;
pub mod reading_laws;
pub mod report;
pub mod report_laws;
pub mod scenarios;
pub mod script_laws;
pub mod shard;
pub mod stats;
pub mod step_laws;
pub mod symbols;
pub mod text;
