//! Aggregation and rendering of time-tracking reports.
//!
//! Records of tracked time are grouped by user, project and calendar day,
//! summed, and rendered as a per-user summary message and as a
//! comma-separated table with one column per day of a period.
//!
//! - `values`: users, projects, durations, periods and per-user summaries.
//! - `calendar`: days, and the local day of a timestamp.
//! - `table`: durations summed per key, with the laws of that sum.
//! - `message`: the two reports.
//! - `toggl`, `slack`: what the reporting and chat services send and take.
//! - `order`, `assoc`, `text`: orders on names, pair sequences as maps,
//!   decimal numbers.

pub mod assoc;
pub mod calendar;
pub mod message;
pub mod order;
pub mod slack;
pub mod table;
pub mod text;
pub mod toggl;
pub mod values;
