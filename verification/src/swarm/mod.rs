//! Agents, dispatch, conflicts and oscillation.
pub mod agent;
pub mod conflict;
pub mod conflict_laws;
pub mod dispatch;
pub mod dispatch_laws;
pub mod monitor;
pub mod monitor_laws;
pub mod oscillation;
pub mod spawner;
pub mod summary;
pub mod summary_laws;
pub mod track;
