//! Weekly resource charts: a quarter-day grid per developer and per task, and
//! the scheduler that moves cells from developers' capacity to task rows.

pub mod chartdate;
pub mod chartperiod;
pub mod chartrow;
pub mod charttime;
pub mod data;
pub mod file;
pub mod messages;
pub mod nodes;
pub mod root;
pub mod scheduler;
pub mod text;
pub mod transfer;
pub mod web;
