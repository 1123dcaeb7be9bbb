//! Per-application usage tracking: session state, the per-tick reconciliation
//! of running processes against open sessions, the framing of the per-day
//! session log, and the hourly aggregate used for charts.

pub mod session;
pub mod clock;
pub mod state;
pub mod tracker;
pub mod storage;
pub mod commands;
pub mod laws;
