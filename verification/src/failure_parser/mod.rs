//! Verifier commands and the failures that verifiers print.
//!
//! A verifier is a command such as `cargo test` or `npx tsc` whose exit status decides
//! whether a repair is accepted. This module splits command lines into words, says which
//! verifier a command runs, and turns verifier output into structured failures.
pub mod command;
pub mod command_laws;
pub mod laws;
pub mod output_laws;
pub mod report;
pub mod rust_output;
pub mod tools;
pub mod typescript_output;

pub use crate::failure_parser::command::{
    classify_cargo_command, classify_verifier_command, command_start_index,
    contains_shell_composition, env_option_arity, is_env_assignment, parse_command_parts,
    CargoCommandKind, VerifierCommandKind,
};
pub use crate::failure_parser::report::{
    FailureStage, FailureTarget, ParsedFailure, ParsedFailureReport,
};
pub use crate::failure_parser::rust_output::parse_cargo_failure;
pub use crate::failure_parser::tools::{repo_native_tool_surface, RepoNativeTool};
pub use crate::failure_parser::typescript_output::parse_verifier_failure;
