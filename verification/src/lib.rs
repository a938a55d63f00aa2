//! Aggregation core of a read-only COVID-19 case API. An upstream feed's
//! per-day records are normalized into a canonical daily series — one
//! record per real calendar date — from which monthly and yearly roll-ups,
//! point lookups and inclusive date-range views are derived. Query
//! boundaries arrive as dash-delimited strings at year, year-month or
//! year-month-day granularity and are validated against the leap-aware
//! calendar; a malformed boundary degrades to no bound rather than an
//! error.

pub mod calendar;
pub mod cases;
pub mod agg;
pub mod boundary;
pub mod source;
pub mod routes;
pub mod laws;
