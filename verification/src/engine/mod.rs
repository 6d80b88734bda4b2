//! Plans, candidates, and how they are verified and accepted.
pub mod apply;
pub mod batch;
pub mod candidate;
pub mod error;
pub mod history;
pub mod laws;
pub mod patcher;
pub mod plan;
pub mod scheduler;
pub mod settings;
pub mod settle;
pub mod summary;
pub mod targets;
pub mod variant;
pub mod verify;
