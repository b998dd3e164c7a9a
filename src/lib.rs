//! Aggregation and reporting of hours booked against an issue tracker.
//!
//! Time entries are summed up by day, by project, and by day and project
//! (`report`); from that come the report of one day and the grid of one week
//! (`grid`), whose row totals and day totals add up to the same hours. Hours are
//! held as whole hundredths of an hour, dates as day numbers (`date`).

pub mod cli;
pub mod comments;
pub mod config;
pub mod date;
pub mod grid;
pub mod order;
pub mod outside;
pub mod redmine;
pub mod report;
pub mod track;
