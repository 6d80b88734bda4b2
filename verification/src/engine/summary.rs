//! What came of the steps of a plan.
use crate::engine::verify::{ResultView, VerifyResult};
use crate::text::chars;
use vstd::prelude::*;

verus! {

/// What came of the steps of a plan.
#[derive(Debug, Clone, PartialEq, Eq)]
pub struct StepExecutionSummary {
    pub accepted: usize,
    pub rejected: usize,
    pub verification_failures: usize,
    pub retry_attempts: usize,
    pub time_to_first_candidate_ms: Option<u64>,
    pub time_to_verified_repair_ms: Option<u64>,
    pub final_bundle_verified: bool,
    pub applied: bool,
    pub run_root: Option<String>,
    pub final_verification: Option<VerifyResult>,
}

/// What a [`StepExecutionSummary`] stands for.
#[verifier::ext_equal]
pub struct StepView {
    pub accepted: nat,
    pub rejected: nat,
    pub verification_failures: nat,
    pub retries: nat,
    pub first_candidate_ms: Option<u64>,
    pub verified_repair_ms: Option<u64>,
    pub verified: bool,
    pub applied: bool,
    pub run_root: Option<Seq<char>>,
    pub final_result: Option<ResultView>,
}

/// What an optional result stands for.
pub open spec fn opt_result(r: Option<VerifyResult>) -> Option<ResultView> {
    match r {
        Some(x) => Some(x@),
        None => None,
    }
}

impl View for StepExecutionSummary {
    type V = StepView;

    open spec fn view(&self) -> StepView {
        StepView {
            accepted: self.accepted as nat,
            rejected: self.rejected as nat,
            verification_failures: self.verification_failures as nat,
            retries: self.retry_attempts as nat,
            first_candidate_ms: self.time_to_first_candidate_ms,
            verified_repair_ms: self.time_to_verified_repair_ms,
            verified: self.final_bundle_verified,
            applied: self.applied,
            run_root: chars::opt_text(self.run_root),
            final_result: opt_result(self.final_verification),
        }
    }
}

/// Nothing done yet.
pub open spec fn nothing() -> StepView {
    StepView {
        accepted: 0,
        rejected: 0,
        verification_failures: 0,
        retries: 0,
        first_candidate_ms: None,
        verified_repair_ms: None,
        verified: false,
        applied: false,
        run_root: None,
        final_result: None,
    }
}

impl Default for StepExecutionSummary {
    fn default() -> (r: StepExecutionSummary)
        ensures
            r@ == nothing(),
    {
        StepExecutionSummary {
            accepted: 0,
            rejected: 0,
            verification_failures: 0,
            retry_attempts: 0,
            time_to_first_candidate_ms: None,
            time_to_verified_repair_ms: None,
            final_bundle_verified: false,
            applied: false,
            run_root: None,
            final_verification: None,
        }
    }
}

/// The shorter of two times that may be unknown.
pub open spec fn shorter(a: Option<u64>, b: Option<u64>) -> Option<u64> {
    match (a, b) {
        (Some(x), Some(y)) => Some(
            if y < x {
                y
            } else {
                x
            },
        ),
        (Some(x), None) => Some(x),
        (None, y) => y,
    }
}

/// The shorter of two times that may be unknown.
pub fn merge_min_duration(current: Option<u64>, other: Option<u64>) -> (r: Option<u64>)
    ensures
        r == shorter(current, other),
{
    match (current, other) {
        (Some(x), Some(y)) => {
            if y < x {
                Some(y)
            } else {
                Some(x)
            }
        },
        (Some(x), None) => Some(x),
        (None, y) => y,
    }
}

/// Two summaries as one: counts add up, times are the shorter ones, and what only one of them
/// knows is kept.
pub open spec fn merged(a: StepView, b: StepView) -> StepView {
    StepView {
        accepted: a.accepted + b.accepted,
        rejected: a.rejected + b.rejected,
        verification_failures: a.verification_failures + b.verification_failures,
        retries: a.retries + b.retries,
        first_candidate_ms: shorter(a.first_candidate_ms, b.first_candidate_ms),
        verified_repair_ms: shorter(a.verified_repair_ms, b.verified_repair_ms),
        verified: a.verified || b.verified,
        applied: a.applied || b.applied,
        run_root: if a.run_root is None {
            b.run_root
        } else {
            a.run_root
        },
        final_result: if a.final_result is None {
            b.final_result
        } else {
            a.final_result
        },
    }
}

/// Whether the counts of two summaries can be added.
pub open spec fn can_merge(a: StepView, b: StepView) -> bool {
    &&& a.accepted + b.accepted <= usize::MAX
    &&& a.rejected + b.rejected <= usize::MAX
    &&& a.verification_failures + b.verification_failures <= usize::MAX
    &&& a.retries + b.retries <= usize::MAX
}

impl StepExecutionSummary {
    /// How many candidates were decided on.
    pub fn total(&self) -> (r: usize)
        requires
            self.accepted + self.rejected <= usize::MAX,
        ensures
            r == self.accepted + self.rejected,
    {
        self.accepted + self.rejected
    }

    /// Adds another summary.
    pub fn merge(&mut self, other: StepExecutionSummary)
        requires
            can_merge(old(self)@, other@),
        ensures
            final(self)@ == merged(old(self)@, other@),
    {
        self.accepted = self.accepted + other.accepted;
        self.rejected = self.rejected + other.rejected;
        self.verification_failures = self.verification_failures + other.verification_failures;
        self.retry_attempts = self.retry_attempts + other.retry_attempts;
        self.time_to_first_candidate_ms = merge_min_duration(
            self.time_to_first_candidate_ms,
            other.time_to_first_candidate_ms,
        );
        self.time_to_verified_repair_ms = merge_min_duration(
            self.time_to_verified_repair_ms,
            other.time_to_verified_repair_ms,
        );
        self.final_bundle_verified = self.final_bundle_verified || other.final_bundle_verified;
        self.applied = self.applied || other.applied;
        if self.run_root.is_none() {
            self.run_root = other.run_root;
        }
        if self.final_verification.is_none() {
            self.final_verification = other.final_verification;
        }
    }
}

/// It does not matter how summaries are grouped when they are merged.
pub proof fn law_merging_is_associative(a: StepView, b: StepView, c: StepView)
    ensures
        merged(merged(a, b), c) == merged(a, merged(b, c)),
{
}

/// Merging a summary of nothing changes nothing.
pub proof fn law_merging_nothing_changes_nothing(a: StepView)
    ensures
        merged(a, nothing()) == a,
        merged(nothing(), a) == a,
{
}

} // verus!
