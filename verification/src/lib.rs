//! Daily reports and man-hours: reading a day's log, deciding what to submit, and finding the
//! working days that were never reported.
pub mod api;
pub mod daemon;
pub mod date;
pub mod double;
pub mod encoding;
pub mod failure;
pub mod flow;
pub mod holidays;
pub mod hours;
pub mod json;
pub mod lists;
pub mod log;
pub mod login;
pub mod missing;
pub mod notify;
pub mod schedule;
pub mod session;
pub mod tasks;
pub mod text;
