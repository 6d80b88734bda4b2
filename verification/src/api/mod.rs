//! Requests to the Mercury services, their cost, and when they are tried again.
pub mod client;
pub mod prompt;
pub mod schema;
pub mod transport;
pub mod types;
