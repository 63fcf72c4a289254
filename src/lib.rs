//! Commit-graph sequencing, lane layout and log parsing for a terminal client
//! of the jj version-control system.

pub mod app_state;
pub mod conventional;
pub mod error;
pub mod graph;
pub mod graph_log;
pub mod log;
pub mod runner;
pub mod show;
pub mod state;
pub mod text;
