//! Daily statistics over a time-ordered stream of blocks: grouping blocks by
//! calendar day, memoized resolution of references against a ledger store, and
//! per-day processors that keep a resumable date-keyed map of results.

pub mod cache;
pub mod date;
pub mod error;
pub mod group;
pub mod json;
pub mod ledger;
pub mod output;
pub mod processors;
pub mod stats;
pub mod table;
pub mod totals;
