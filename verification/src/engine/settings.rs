//! How candidates are verified.
use crate::text::chars::own;
use vstd::prelude::*;

verus! {

/// What is checked before and after a candidate is written.
#[derive(Debug, Clone, PartialEq, Eq)]
pub struct VerifyConfig {
    pub parse_before_write: bool,
    pub test_after_write: bool,
    pub lint_after_write: bool,
    pub mercury2_critique_on_failure: bool,
    pub test_command: String,
    pub lint_command: String,
}

impl Default for VerifyConfig {
    fn default() -> (r: VerifyConfig)
        ensures
            r.parse_before_write,
            r.test_after_write,
            r.lint_after_write,
            r.mercury2_critique_on_failure,
            r.test_command@ == "cargo test"@,
            r.lint_command@ == "cargo clippy"@,
    {
        VerifyConfig {
            parse_before_write: true,
            test_after_write: true,
            lint_after_write: true,
            mercury2_critique_on_failure: true,
            test_command: own("cargo test"),
            lint_command: own("cargo clippy"),
        }
    }
}

impl VerifyConfig {
    /// A copy of the configuration.
    pub fn copy(&self) -> (r: VerifyConfig)
        ensures
            r.parse_before_write == self.parse_before_write,
            r.test_after_write == self.test_after_write,
            r.lint_after_write == self.lint_after_write,
            r.mercury2_critique_on_failure == self.mercury2_critique_on_failure,
            r.test_command@ == self.test_command@,
            r.lint_command@ == self.lint_command@,
    {
        VerifyConfig {
            parse_before_write: self.parse_before_write,
            test_after_write: self.test_after_write,
            lint_after_write: self.lint_after_write,
            mercury2_critique_on_failure: self.mercury2_critique_on_failure,
            test_command: own(self.test_command.as_str()),
            lint_command: own(self.lint_command.as_str()),
        }
    }
}

} // verus!
