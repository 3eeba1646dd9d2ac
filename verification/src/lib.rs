//! Uptime reporting for BetterStack monitors: the addresses of the API's
//! requests, the collection of paginated listings and of the monitors
//! published on status pages, the reporting window, the uptime figures of
//! each monitor, and the filtering and ordering of the final report.

pub mod text;
pub mod percentage;
pub mod date;
pub mod address;
pub mod api;
pub mod pagination;
pub mod monitor;
pub mod uptime;
pub mod report;
