//! The query façade: one module per response resolution, each combining
//! boundary parsing, range filtering and aggregation.

pub mod daily;
pub mod health;
pub mod index;
pub mod monthly;
pub mod yearly;
