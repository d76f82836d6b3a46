//! The engine of the LogLens command line: which log lines a search reports,
//! and how they are shown.

pub mod compress;
pub mod compress_laws;
pub mod context_laws;
pub mod discover;
pub mod discover_laws;
pub mod fields;
pub mod fields_laws;
pub mod json;
pub mod name_laws;
pub mod order;
pub mod order_laws;
pub mod paint;
pub mod paint_laws;
pub mod paths;
pub mod query;
pub mod query_laws;
pub mod report;
pub mod report_laws;
pub mod search;
pub mod search_laws;
pub mod stats;
pub mod stats_laws;
pub mod tally;
pub mod text;
pub mod text_laws;
pub mod watch;
pub mod watch_laws;
