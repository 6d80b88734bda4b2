//! What verifier commands may run, and what of them may be shown.
pub mod failures;
pub mod grounding;
pub mod invocation;
pub mod laws;
pub mod policy;
pub mod secrets;
pub mod tools;
pub mod workspace;
