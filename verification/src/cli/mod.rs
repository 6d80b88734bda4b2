//! The logic behind the commands.
pub mod assessment;
pub mod config;
pub mod config_file;
pub mod edit;
pub mod error;
pub mod event_line;
pub mod events;
pub mod figure;
pub mod fix;
pub mod fix_report;
pub mod guard;
pub mod laws;
pub mod progress;
pub mod report_laws;
pub mod snapshot;
pub mod status_laws;
pub mod watch;
pub mod watch_cycle;
pub mod watch_report;
