//! A verified core for a line/word/byte/character counting utility.
//!
//! The library counts the contents of byte streams that the surrounding
//! program has read into memory, renders the counts as fixed-width report
//! lines, and aggregates running totals across several inputs.

pub mod config;
pub mod counting;
pub mod render;
pub mod report;
pub mod tally;

pub use config::Config;
pub use counting::count;
pub use render::format_field;
pub use render::format_line;
pub use render::format_total_line;
pub use report::run_report;
pub use tally::FileInfo;
