//! Repair runs: their stages, their costs and what came of them.
use crate::api::types::PLANNER_RESPONSE_SCHEMA_NAME;
use crate::cli::guard;
use crate::cli::guard::SecurityRuntimeContext;
use crate::cli::watch_report::{append_fields, RunTimes};
use crate::engine::candidate::{CandidateFailureStage, CandidateSource};
use crate::engine::settings::VerifyConfig;
use crate::engine::summary::StepExecutionSummary;
use crate::json;
use crate::json::{count, field, natural_or_null, object, text, text_or_null, Json, JsonView};
use crate::text::chars;
use crate::text::chars::{concat2, concat3, own, same};
use crate::text::find;
use crate::text::find::trim;
use crate::text::number;
use crate::text::number::format_u128;
use crate::text::pad;
use crate::text::pad::format_padded;
use crate::verification::grounding::{GroundedRepairContext, GROUNDED_REPAIR_CONTEXT_SCHEMA_NAME};
use crate::verification::secrets;
use crate::verification::secrets::{redact_secrets, EnvValue, Masking};
use vstd::prelude::*;
use vstd::string::*;

verus! {

broadcast use chars::lemma_texts_push, chars::lemma_texts_empty;

/// The name of the schema of benchmark records.
pub const FIX_BENCHMARK_RUN_SCHEMA_NAME: &'static str = "mercury-repair-benchmark-case-v1";

/// The stages of a repair run, in their order.
#[derive(Debug, Clone, Copy, PartialEq, Eq, Structural)]
pub enum FixStage {
    IndexRepository,
    PlanRepair,
    ScaffoldCoolZones,
    ResolveHotZones,
    PatchAndVerify,
    AnnealAndReport,
}

/// The number of a stage.
pub open spec fn stage_number(s: FixStage) -> nat {
    match s {
        FixStage::IndexRepository => 1,
        FixStage::PlanRepair => 2,
        FixStage::ScaffoldCoolZones => 3,
        FixStage::ResolveHotZones => 4,
        FixStage::PatchAndVerify => 5,
        FixStage::AnnealAndReport => 6,
    }
}

/// The name of a stage.
pub open spec fn stage_name(s: FixStage) -> Seq<char> {
    match s {
        FixStage::IndexRepository => "index_repository"@,
        FixStage::PlanRepair => "plan_repair"@,
        FixStage::ScaffoldCoolZones => "scaffold_cool_zones"@,
        FixStage::ResolveHotZones => "resolve_hot_zones"@,
        FixStage::PatchAndVerify => "patch_and_verify"@,
        FixStage::AnnealAndReport => "anneal_and_report"@,
    }
}

/// What is shown when a stage begins.
pub open spec fn stage_banner(s: FixStage) -> Seq<char> {
    match s {
        FixStage::IndexRepository => "[1/7] Indexing repository..."@,
        FixStage::PlanRepair => "[2/7] Planning with Mercury 2..."@,
        FixStage::ScaffoldCoolZones => "[3/7] Scaffolding cool zones..."@,
        FixStage::ResolveHotZones => "[4/7] Resolving hot zones..."@,
        FixStage::PatchAndVerify => "[5/7] Patching and verifying plan steps..."@,
        FixStage::AnnealAndReport => "[6/7] Annealing..."@,
    }
}

/// The stage after another.
pub open spec fn stage_after(s: FixStage) -> Option<FixStage> {
    match s {
        FixStage::IndexRepository => Some(FixStage::PlanRepair),
        FixStage::PlanRepair => Some(FixStage::ScaffoldCoolZones),
        FixStage::ScaffoldCoolZones => Some(FixStage::ResolveHotZones),
        FixStage::ResolveHotZones => Some(FixStage::PatchAndVerify),
        FixStage::PatchAndVerify => Some(FixStage::AnnealAndReport),
        FixStage::AnnealAndReport => None,
    }
}

impl FixStage {
    /// The name of the stage.
    pub fn as_str(self) -> (r: &'static str)
        ensures
            r@ == stage_name(self),
    {
        match self {
            FixStage::IndexRepository => "index_repository",
            FixStage::PlanRepair => "plan_repair",
            FixStage::ScaffoldCoolZones => "scaffold_cool_zones",
            FixStage::ResolveHotZones => "resolve_hot_zones",
            FixStage::PatchAndVerify => "patch_and_verify",
            FixStage::AnnealAndReport => "anneal_and_report",
        }
    }

    /// What is shown when the stage begins.
    pub fn banner(self) -> (r: &'static str)
        ensures
            r@ == stage_banner(self),
    {
        match self {
            FixStage::IndexRepository => "[1/7] Indexing repository...",
            FixStage::PlanRepair => "[2/7] Planning with Mercury 2...",
            FixStage::ScaffoldCoolZones => "[3/7] Scaffolding cool zones...",
            FixStage::ResolveHotZones => "[4/7] Resolving hot zones...",
            FixStage::PatchAndVerify => "[5/7] Patching and verifying plan steps...",
            FixStage::AnnealAndReport => "[6/7] Annealing...",
        }
    }

    /// The stage after this one.
    pub fn next(self) -> (r: Option<FixStage>)
        ensures
            r == stage_after(self),
    {
        match self {
            FixStage::IndexRepository => Some(FixStage::PlanRepair),
            FixStage::PlanRepair => Some(FixStage::ScaffoldCoolZones),
            FixStage::ScaffoldCoolZones => Some(FixStage::ResolveHotZones),
            FixStage::ResolveHotZones => Some(FixStage::PatchAndVerify),
            FixStage::PatchAndVerify => Some(FixStage::AnnealAndReport),
            FixStage::AnnealAndReport => None,
        }
    }
}

/// Every stage is followed by the next in number, and the last by none.
pub proof fn law_stages_follow_their_numbers(s: FixStage)
    ensures
        match stage_after(s) {
            Some(n) => stage_number(n) == stage_number(s) + 1,
            None => stage_number(s) == 6,
        },
{
}

/// What came of the candidates of a run.
#[derive(Debug, Clone, Copy, PartialEq, Eq, Structural)]
pub struct FixCounts {
    pub accepted_steps: usize,
    pub rejected_steps: usize,
    pub verification_failures: usize,
    pub generation_failures: usize,
    pub safety_failures: usize,
    pub candidate_verification_failures: usize,
    pub final_bundle_failures: usize,
    pub apply_edit_attempts: usize,
    pub grounded_next_edit_attempts: usize,
    pub critique_retry_attempts: usize,
    pub exploratory_next_edit_attempts: usize,
    pub apply_edit_accepted_steps: usize,
    pub grounded_next_edit_accepted_steps: usize,
    pub critique_retry_accepted_steps: usize,
    pub exploratory_next_edit_accepted_steps: usize,
    pub retry_attempts: usize,
}

/// Nothing counted yet.
pub open spec fn no_counts() -> FixCounts {
    FixCounts {
        accepted_steps: 0,
        rejected_steps: 0,
        verification_failures: 0,
        generation_failures: 0,
        safety_failures: 0,
        candidate_verification_failures: 0,
        final_bundle_failures: 0,
        apply_edit_attempts: 0,
        grounded_next_edit_attempts: 0,
        critique_retry_attempts: 0,
        exploratory_next_edit_attempts: 0,
        apply_edit_accepted_steps: 0,
        grounded_next_edit_accepted_steps: 0,
        critique_retry_accepted_steps: 0,
        exploratory_next_edit_accepted_steps: 0,
        retry_attempts: 0,
    }
}

/// One more than before.
pub open spec fn one_more(n: usize) -> usize {
    (n + 1) as usize
}

/// Whether there is room to count one more.
pub open spec fn can_count(c: FixCounts) -> bool {
    &&& c.generation_failures < usize::MAX
    &&& c.safety_failures < usize::MAX
    &&& c.candidate_verification_failures < usize::MAX
    &&& c.apply_edit_attempts < usize::MAX
    &&& c.critique_retry_attempts < usize::MAX
    &&& c.exploratory_next_edit_attempts < usize::MAX
    &&& c.apply_edit_accepted_steps < usize::MAX
    &&& c.critique_retry_accepted_steps < usize::MAX
    &&& c.exploratory_next_edit_accepted_steps < usize::MAX
}

/// The counts with one more failure at a step.
pub open spec fn with_failure(c: FixCounts, stage: Option<CandidateFailureStage>) -> FixCounts {
    match stage {
        Some(CandidateFailureStage::Generation) => FixCounts {
            generation_failures: one_more(c.generation_failures),
            ..c
        },
        Some(CandidateFailureStage::Safety) => FixCounts {
            safety_failures: one_more(c.safety_failures),
            ..c
        },
        Some(CandidateFailureStage::Verification) => FixCounts {
            candidate_verification_failures: one_more(c.candidate_verification_failures),
            ..c
        },
        None => c,
    }
}

/// The counts with one more candidate.
pub open spec fn with_candidate(
    c: FixCounts,
    source: CandidateSource,
    stage: Option<CandidateFailureStage>,
) -> FixCounts {
    let d = with_failure(c, stage);
    match source {
        CandidateSource::ApplyEdit => FixCounts {
            apply_edit_attempts: one_more(d.apply_edit_attempts),
            ..d
        },
        CandidateSource::CritiqueRetry => FixCounts {
            critique_retry_attempts: one_more(d.critique_retry_attempts),
            ..d
        },
        CandidateSource::ExploratoryNextEdit => FixCounts {
            exploratory_next_edit_attempts: one_more(d.exploratory_next_edit_attempts),
            ..d
        },
    }
}

/// The counts with one more accepted step.
pub open spec fn with_accepted(c: FixCounts, source: CandidateSource) -> FixCounts {
    match source {
        CandidateSource::ApplyEdit => FixCounts {
            apply_edit_accepted_steps: one_more(c.apply_edit_accepted_steps),
            ..c
        },
        CandidateSource::CritiqueRetry => FixCounts {
            critique_retry_accepted_steps: one_more(c.critique_retry_accepted_steps),
            ..c
        },
        CandidateSource::ExploratoryNextEdit => FixCounts {
            exploratory_next_edit_accepted_steps: one_more(c.exploratory_next_edit_accepted_steps),
            ..c
        },
    }
}

impl FixCounts {
    /// Nothing counted yet.
    pub fn new() -> (r: FixCounts)
        ensures
            r == no_counts(),
    {
        FixCounts {
            accepted_steps: 0,
            rejected_steps: 0,
            verification_failures: 0,
            generation_failures: 0,
            safety_failures: 0,
            candidate_verification_failures: 0,
            final_bundle_failures: 0,
            apply_edit_attempts: 0,
            grounded_next_edit_attempts: 0,
            critique_retry_attempts: 0,
            exploratory_next_edit_attempts: 0,
            apply_edit_accepted_steps: 0,
            grounded_next_edit_accepted_steps: 0,
            critique_retry_accepted_steps: 0,
            exploratory_next_edit_accepted_steps: 0,
            retry_attempts: 0,
        }
    }

    /// Counts a candidate by its source and by the step at which it failed.
    pub fn count_candidate(&mut self, source: CandidateSource, stage: Option<CandidateFailureStage>)
        requires
            can_count(*old(self)),
        ensures
            *final(self) == with_candidate(*old(self), source, stage),
    {
        match stage {
            Some(CandidateFailureStage::Generation) => {
                self.generation_failures = self.generation_failures + 1;
            },
            Some(CandidateFailureStage::Safety) => {
                self.safety_failures = self.safety_failures + 1;
            },
            Some(CandidateFailureStage::Verification) => {
                self.candidate_verification_failures = self.candidate_verification_failures + 1;
            },
            None => {},
        }
        match source {
            CandidateSource::ApplyEdit => {
                self.apply_edit_attempts = self.apply_edit_attempts + 1;
            },
            CandidateSource::CritiqueRetry => {
                self.critique_retry_attempts = self.critique_retry_attempts + 1;
            },
            CandidateSource::ExploratoryNextEdit => {
                self.exploratory_next_edit_attempts = self.exploratory_next_edit_attempts + 1;
            },
        }
    }

    /// Counts an accepted step by the source of its candidate.
    pub fn count_accepted(&mut self, source: CandidateSource)
        requires
            can_count(*old(self)),
        ensures
            *final(self) == with_accepted(*old(self), source),
    {
        match source {
            CandidateSource::ApplyEdit => {
                self.apply_edit_accepted_steps = self.apply_edit_accepted_steps + 1;
            },
            CandidateSource::CritiqueRetry => {
                self.critique_retry_accepted_steps = self.critique_retry_accepted_steps + 1;
            },
            CandidateSource::ExploratoryNextEdit => {
                self.exploratory_next_edit_accepted_steps =
                self.exploratory_next_edit_accepted_steps + 1;
            },
        }
    }

    /// The counts with those of the finished steps. The bundle of all steps failed if it was
    /// verified and did not pass.
    pub fn with_summary(self, s: &StepExecutionSummary) -> (r: FixCounts)
        ensures
            r == (FixCounts {
                accepted_steps: s.accepted,
                rejected_steps: s.rejected,
                verification_failures: s.verification_failures,
                retry_attempts: s.retry_attempts,
                final_bundle_failures: if s.final_verification is Some
                    && !s.final_bundle_verified {
                    1
                } else {
                    0
                },
                ..self
            }),
    {
        let final_bundle_failures: usize = if s.final_verification.is_some()
            && !s.final_bundle_verified {
            1
        } else {
            0
        };
        FixCounts {
            accepted_steps: s.accepted,
            rejected_steps: s.rejected,
            verification_failures: s.verification_failures,
            retry_attempts: s.retry_attempts,
            final_bundle_failures,
            ..self
        }
    }
}

/// The candidates that the counts tell of.
pub open spec fn attempts(c: FixCounts) -> nat {
    (c.apply_edit_attempts + c.grounded_next_edit_attempts + c.critique_retry_attempts
        + c.exploratory_next_edit_attempts) as nat
}

/// Every candidate is counted once by its source, and at most once as a failure.
pub proof fn law_candidates_are_counted_once(
    c: FixCounts,
    source: CandidateSource,
    stage: Option<CandidateFailureStage>,
)
    requires
        can_count(c),
    ensures
        attempts(with_candidate(c, source, stage)) == attempts(c) + 1,
        ({
            let d = with_candidate(c, source, stage);
            d.generation_failures + d.safety_failures + d.candidate_verification_failures
                == c.generation_failures + c.safety_failures + c.candidate_verification_failures
                + if stage is Some {
                1int
            } else {
                0int
            }
        }),
{
}

/// How a run ended.
pub open spec fn benchmark_outcome(verified: bool, accepted_patch: bool) -> Seq<char> {
    if verified {
        "verified_repair"@
    } else if accepted_patch {
        "accepted_patch_unverified"@
    } else {
        "no_patch"@
    }
}

/// How a run ended.
pub fn classify_fix_benchmark_outcome(final_bundle_verified: bool, accepted_patch: bool) -> (r:
    &'static str)
    ensures
        r@ == benchmark_outcome(final_bundle_verified, accepted_patch),
{
    if final_bundle_verified {
        "verified_repair"
    } else if accepted_patch {
        "accepted_patch_unverified"
    } else {
        "no_patch"
    }
}

/// What a run failed of, if it failed: the last step that a candidate reached counts.
pub open spec fn attribution(c: FixCounts, verified: bool, accepted_patch: bool) -> Option<
    Seq<char>,
> {
    if verified {
        None
    } else if c.final_bundle_failures > 0 || accepted_patch {
        Some("final_bundle_verification_failed"@)
    } else if c.candidate_verification_failures > 0 {
        Some("candidate_failed_verifier"@)
    } else if c.safety_failures > 0 {
        Some("candidate_failed_safety"@)
    } else if c.generation_failures > 0 {
        Some("patch_generation_failed"@)
    } else {
        Some("no_patch_emitted"@)
    }
}

/// What a run failed of, if it failed: the last step that a candidate reached counts.
pub fn classify_fix_failure_attribution(
    counts: &FixCounts,
    final_bundle_verified: bool,
    accepted_patch: bool,
) -> (r: Option<String>)
    ensures
        chars::opt_text(r) == attribution(*counts, final_bundle_verified, accepted_patch),
{
    if final_bundle_verified {
        None
    } else if counts.final_bundle_failures > 0 || accepted_patch {
        Some(own("final_bundle_verification_failed"))
    } else if counts.candidate_verification_failures > 0 {
        Some(own("candidate_failed_verifier"))
    } else if counts.safety_failures > 0 {
        Some(own("candidate_failed_safety"))
    } else if counts.generation_failures > 0 {
        Some(own("patch_generation_failed"))
    } else {
        Some(own("no_patch_emitted"))
    }
}

/// What is told of the end of a run.
pub open spec fn fix_headline(outcome: Seq<char>, verified: bool, accepted_patch: bool) -> Seq<char> {
    if outcome == "verified_repair"@ {
        "verified repair"@
    } else if outcome == "accepted_patch_unverified"@ {
        "accepted patch but final bundle failed"@
    } else if outcome == "no_patch"@ {
        "no accepted patch"@
    } else if outcome == "fix_failed"@ {
        "fix run failed before a repair was accepted"@
    } else if outcome == "rejected_allowlist"@ {
        "verifier command rejected by allowlist"@
    } else if verified {
        "verified repair"@
    } else if accepted_patch {
        "accepted patch but final bundle failed"@
    } else {
        "no accepted patch"@
    }
}

/// What is told of the end of a run.
pub fn fix_summary_headline(outcome: &str, final_bundle_verified: bool, accepted_patch: bool) -> (r:
    &'static str)
    ensures
        r@ == fix_headline(outcome@, final_bundle_verified, accepted_patch),
{
    if same(outcome, "verified_repair") {
        "verified repair"
    } else if same(outcome, "accepted_patch_unverified") {
        "accepted patch but final bundle failed"
    } else if same(outcome, "no_patch") {
        "no accepted patch"
    } else if same(outcome, "fix_failed") {
        "fix run failed before a repair was accepted"
    } else if same(outcome, "rejected_allowlist") {
        "verifier command rejected by allowlist"
    } else if final_bundle_verified {
        "verified repair"
    } else if accepted_patch {
        "accepted patch but final bundle failed"
    } else {
        "no accepted patch"
    }
}

/// What is told of a failure.
pub open spec fn failure_rollup(failure: Seq<char>) -> Seq<char> {
    if failure == "final_bundle_verification_failed"@ {
        "final bundle verification failed"@
    } else if failure == "candidate_failed_verifier"@ {
        "candidate verification failed"@
    } else if failure == "candidate_failed_safety"@ {
        "candidate rejected by safety policy"@
    } else if failure == "patch_generation_failed"@ {
        "patch generation failed"@
    } else if failure == "no_patch_emitted"@ {
        "no patch was emitted"@
    } else if failure == "fix_failed"@ {
        "fix run failed before a verified repair was produced"@
    } else if failure == "rejected_allowlist"@ {
        "verifier command rejected by allowlist"@
    } else {
        failure
    }
}

/// What is told of a failure.
pub fn fix_failure_reason_rollup(failure: &str) -> (r: String)
    ensures
        r@ == failure_rollup(failure@),
{
    if same(failure, "final_bundle_verification_failed") {
        own("final bundle verification failed")
    } else if same(failure, "candidate_failed_verifier") {
        own("candidate verification failed")
    } else if same(failure, "candidate_failed_safety") {
        own("candidate rejected by safety policy")
    } else if same(failure, "patch_generation_failed") {
        own("patch generation failed")
    } else if same(failure, "no_patch_emitted") {
        own("no patch was emitted")
    } else if same(failure, "fix_failed") {
        own("fix run failed before a verified repair was produced")
    } else if same(failure, "rejected_allowlist") {
        own("verifier command rejected by allowlist")
    } else {
        own(failure)
    }
}

/// A run that verified its bundle failed of nothing, and every other run failed of something.
pub proof fn law_failures_are_attributed(c: FixCounts, verified: bool, accepted_patch: bool)
    ensures
        attribution(c, verified, accepted_patch) is None <==> verified,
        benchmark_outcome(verified, accepted_patch) == "verified_repair"@ <==> verified,
{
    reveal_strlit("verified_repair");
    reveal_strlit("accepted_patch_unverified");
    reveal_strlit("no_patch");
    assert("verified_repair"@.len() == 15);
    assert("accepted_patch_unverified"@.len() == 25);
    assert("no_patch"@.len() == 8);
}

/// An amount of billionths of a dollar as a number of dollars with all its decimals.
pub open spec fn amount(nanos: int) -> Seq<char> {
    if nanos < 0 {
        "-"@ + plain_amount((-nanos) as nat)
    } else {
        plain_amount(nanos as nat)
    }
}

/// An amount of billionths of a dollar that is not negative.
pub open spec fn plain_amount(nanos: nat) -> Seq<char> {
    number::decimal(nanos / 1000000000) + "."@ + pad::zero_padded(nanos % 1000000000, 9)
}

/// An amount of billionths of a dollar in JSON, in dollars.
pub fn cost_json(nanos: i128) -> (r: Json)
    ensures
        r@ == JsonView::Number(amount(nanos as int)),
{
    let size: u128 = if nanos < 0 {
        (-(nanos + 1)) as u128 + 1
    } else {
        nanos as u128
    };
    let whole: u128 = size / 1000000000;
    let rest: usize = (size % 1000000000) as usize;
    let plain = concat3(format_u128(whole).as_str(), ".", format_padded(rest, 9).as_str());
    if nanos < 0 {
        Json::Number(concat2("-", plain.as_str()))
    } else {
        Json::Number(plain)
    }
}

/// What a run cost in all: the work of the agents, the grounding and the plan.
pub open spec fn total_cost(agents: int, grounding: int, plan: int) -> int {
    agents + grounding + plan
}

/// What is left of the budget, never less than nothing.
pub open spec fn cost_left(max_cost: int, total: int) -> int {
    if max_cost - total < 0 {
        0
    } else {
        max_cost - total
    }
}

/// What is left of the budget, never less than nothing.
pub fn remaining_budget(max_cost: i128, total: i128) -> (r: i128)
    requires
        max_cost - total <= i128::MAX,
    ensures
        r == cost_left(max_cost as int, total as int),
{
    if max_cost < total {
        0
    } else {
        max_cost - total
    }
}

/// Whether a run gathered anything before it planned.
pub open spec fn has_grounding(summary: Seq<char>, rounds: nat) -> bool {
    find::trimmed(summary).len() > 0 || rounds > 0
}

/// Whether a run gathered anything before it planned.
pub fn grounding_collected(context: &GroundedRepairContext) -> (r: bool)
    ensures
        r == has_grounding(context.summary@, context.rounds@.len()),
{
    let t = trim(context.summary.as_str());
    !t.as_str().is_empty() || context.rounds.len() > 0
}

/// How the candidates of a run were verified.
#[derive(Debug, Clone, PartialEq, Eq)]
pub struct FixBenchmarkVerifier {
    pub parse_before_write: bool,
    pub test_after_write: bool,
    pub lint_after_write: bool,
    pub test_command: String,
    pub lint_command: String,
}

/// How the candidates of a run were verified, without secrets.
pub fn benchmark_verifier(c: &VerifyConfig, env: &[EnvValue]) -> (r: FixBenchmarkVerifier)
    ensures
        r.parse_before_write == c.parse_before_write,
        r.test_after_write == c.test_after_write,
        r.lint_after_write == c.lint_after_write,
        r.test_command@ == secrets::masked(
            Masking::Lines,
            c.test_command@,
            secrets::env_view(env@),
        ),
        r.lint_command@ == secrets::masked(
            Masking::Lines,
            c.lint_command@,
            secrets::env_view(env@),
        ),
{
    FixBenchmarkVerifier {
        parse_before_write: c.parse_before_write,
        test_after_write: c.test_after_write,
        lint_after_write: c.lint_after_write,
        test_command: redact_secrets(c.test_command.as_str(), env),
        lint_command: redact_secrets(c.lint_command.as_str(), env),
    }
}

/// How the candidates of a run were verified, in JSON.
pub open spec fn verifier_json(v: FixBenchmarkVerifier) -> JsonView {
    JsonView::Object(
        seq![
            ("parse_before_write"@, JsonView::Bool(v.parse_before_write)),
            ("test_after_write"@, JsonView::Bool(v.test_after_write)),
            ("lint_after_write"@, JsonView::Bool(v.lint_after_write)),
            ("test_command"@, JsonView::Text(v.test_command@)),
            ("lint_command"@, JsonView::Text(v.lint_command@)),
        ],
    )
}

impl FixBenchmarkVerifier {
    /// How the candidates were verified, in JSON.
    pub fn to_json(&self) -> (r: Json)
        ensures
            r@ == verifier_json(*self),
    {
        let fields = vec![
            field("parse_before_write", Json::Bool(self.parse_before_write)),
            field("test_after_write", Json::Bool(self.test_after_write)),
            field("lint_after_write", Json::Bool(self.lint_after_write)),
            field("test_command", text(self.test_command.as_str())),
            field("lint_command", text(self.lint_command.as_str())),
        ];
        proof {
            assert(json::fields_view(fields@) =~= verifier_json(*self)->Object_0);
        }
        object(fields)
    }
}

/// Why a run ended before it could tell what came of it.
#[derive(Debug, Clone, Copy, PartialEq, Eq, Structural)]
pub enum FixAbort {
    /// A verifier command is not allowed.
    RejectedAllowlist,
    /// A step of the run failed.
    FixFailed,
}

/// The name of an abort.
pub open spec fn abort_name(a: FixAbort) -> Seq<char> {
    match a {
        FixAbort::RejectedAllowlist => "rejected_allowlist"@,
        FixAbort::FixFailed => "fix_failed"@,
    }
}

impl FixAbort {
    /// The name of the abort.
    pub fn as_str(self) -> (r: &'static str)
        ensures
            r@ == abort_name(self),
    {
        match self {
            FixAbort::RejectedAllowlist => "rejected_allowlist",
            FixAbort::FixFailed => "fix_failed",
        }
    }
}

/// A finished run.
#[derive(Debug)]
pub struct FixRun {
    /// What the run was to do, without secrets.
    pub description: String,
    pub max_agents: usize,
    /// What the run might cost, in billionths of a dollar.
    pub max_cost: i128,
    pub times: RunTimes,
    pub grounding_rounds: usize,
    pub grounding_tool_calls: usize,
    pub grounding_collected: bool,
    pub grounding_cost: i128,
    pub plan_cost: i128,
    pub total_cost: i128,
    pub budget_remaining: i128,
    pub counts: FixCounts,
    pub time_to_first_candidate_ms: Option<u64>,
    pub time_to_verified_repair_ms: Option<u64>,
    pub final_bundle_verified: bool,
    pub applied: bool,
    /// How long the accepted patch is, if there is one.
    pub accepted_patch_bytes: Option<u64>,
    pub sandbox_run_root: Option<String>,
    pub abort: Option<FixAbort>,
    pub verifier: FixBenchmarkVerifier,
    pub security: SecurityRuntimeContext,
}

/// A run that ended early: it cost nothing and came to nothing.
pub fn aborted_run(
    abort: FixAbort,
    description: &str,
    max_agents: usize,
    max_cost: i128,
    times: RunTimes,
    verifier: FixBenchmarkVerifier,
    security: SecurityRuntimeContext,
) -> (r: FixRun)
    ensures
        r.description@ == description@,
        r.max_agents == max_agents,
        r.max_cost == max_cost,
        r.times == times,
        r.grounding_rounds == 0,
        r.grounding_tool_calls == 0,
        !r.grounding_collected,
        r.grounding_cost == 0,
        r.plan_cost == 0,
        r.total_cost == 0,
        r.budget_remaining == max_cost,
        r.counts == no_counts(),
        r.time_to_first_candidate_ms is None,
        r.time_to_verified_repair_ms is None,
        !r.final_bundle_verified,
        !r.applied,
        r.accepted_patch_bytes is None,
        r.sandbox_run_root is None,
        r.abort == Some(abort),
        r.verifier == verifier,
        r.security == security,
{
    FixRun {
        description: own(description),
        max_agents,
        max_cost,
        times,
        grounding_rounds: 0,
        grounding_tool_calls: 0,
        grounding_collected: false,
        grounding_cost: 0,
        plan_cost: 0,
        total_cost: 0,
        budget_remaining: max_cost,
        counts: FixCounts::new(),
        time_to_first_candidate_ms: None,
        time_to_verified_repair_ms: None,
        final_bundle_verified: false,
        applied: false,
        accepted_patch_bytes: None,
        sandbox_run_root: None,
        abort: Some(abort),
        verifier,
        security,
    }
}

/// Whether a run accepted a patch: there is one, and it is not empty.
pub open spec fn has_patch(r: FixRun) -> bool {
    r.accepted_patch_bytes is Some && r.accepted_patch_bytes.unwrap() > 0
}

/// How a run ended.
pub open spec fn outcome_of(r: FixRun) -> Seq<char> {
    match r.abort {
        Some(a) => abort_name(a),
        None => benchmark_outcome(r.final_bundle_verified, has_patch(r)),
    }
}

/// What a run failed of, if it failed.
pub open spec fn failure_of(r: FixRun) -> Option<Seq<char>> {
    match r.abort {
        Some(a) => Some(abort_name(a)),
        None => attribution(r.counts, r.final_bundle_verified, has_patch(r)),
    }
}

impl FixRun {
    /// Whether the run accepted a patch: there is one, and it is not empty.
    pub fn accepted_patch(&self) -> (r: bool)
        ensures
            r == has_patch(*self),
    {
        match self.accepted_patch_bytes {
            Some(n) => n > 0,
            None => false,
        }
    }

    /// How the run ended.
    pub fn outcome(&self) -> (r: &'static str)
        ensures
            r@ == outcome_of(*self),
    {
        match self.abort {
            Some(a) => a.as_str(),
            None => classify_fix_benchmark_outcome(
                self.final_bundle_verified,
                self.accepted_patch(),
            ),
        }
    }

    /// What the run failed of, if it failed.
    pub fn failure_attribution(&self) -> (r: Option<String>)
        ensures
            chars::opt_text(r) == failure_of(*self),
    {
        match self.abort {
            Some(a) => Some(own(a.as_str())),
            None => classify_fix_failure_attribution(
                &self.counts,
                self.final_bundle_verified,
                self.accepted_patch(),
            ),
        }
    }
}

/// The first facts of a run.
pub open spec fn run_facts(r: FixRun) -> Seq<(Seq<char>, JsonView)> {
    seq![
        ("started_at"@, JsonView::Text(r.times.started_at@)),
        ("finished_at"@, JsonView::Text(r.times.finished_at@)),
        ("duration_ms"@, json::natural(r.times.duration_ms as nat)),
    ]
}

fn list_facts(r: &FixRun) -> (f: Vec<(String, Json)>)
    ensures
        json::fields_view(f@) == run_facts(*r),
{
    let fields = vec![
        field("started_at", text(r.times.started_at.as_str())),
        field("finished_at", text(r.times.finished_at.as_str())),
        field("duration_ms", natural_or_null(Some(r.times.duration_ms))),
    ];
    proof {
        assert(json::fields_view(fields@) =~= run_facts(*r));
    }
    fields
}

/// What a run was and cost, in JSON.
pub open spec fn metadata_json(r: FixRun) -> JsonView {
    JsonView::Object(
        seq![
            ("description"@, JsonView::Text(r.description@)),
            ("max_agents"@, json::natural(r.max_agents as nat)),
            ("max_cost"@, JsonView::Number(amount(r.max_cost as int))),
        ] + run_facts(r) + seq![
            ("planner_schema_version"@, JsonView::Text(PLANNER_RESPONSE_SCHEMA_NAME@)),
            ("grounding_schema_version"@, JsonView::Text(GROUNDED_REPAIR_CONTEXT_SCHEMA_NAME@)),
            ("grounding_rounds"@, json::natural(r.grounding_rounds as nat)),
            ("grounding_tool_calls"@, json::natural(r.grounding_tool_calls as nat)),
            ("grounding_collected"@, JsonView::Bool(r.grounding_collected)),
            ("grounding_cost_usd"@, JsonView::Number(amount(r.grounding_cost as int))),
            ("planner_estimated_cost_usd"@, JsonView::Number(amount(r.plan_cost as int))),
            ("final_bundle_verified"@, JsonView::Bool(r.final_bundle_verified)),
            ("applied"@, JsonView::Bool(r.applied)),
            ("sandbox_run_root"@, json::opt_text(chars::opt_text(r.sandbox_run_root))),
            ("total_cost_usd"@, JsonView::Number(amount(r.total_cost as int))),
            ("budget_remaining_usd"@, JsonView::Number(amount(r.budget_remaining as int))),
            ("security"@, guard::security_json(r.security@)),
        ],
    )
}

/// What a run was and cost, in JSON.
pub fn fix_metadata(r: &FixRun) -> (j: Json)
    ensures
        j@ == metadata_json(*r),
{
    let mut fields = vec![
        field("description", text(r.description.as_str())),
        field("max_agents", count(r.max_agents)),
        field("max_cost", cost_json(r.max_cost)),
    ];
    append_fields(&mut fields, list_facts(r));
    let more = vec![
        field("planner_schema_version", text(PLANNER_RESPONSE_SCHEMA_NAME)),
        field("grounding_schema_version", text(GROUNDED_REPAIR_CONTEXT_SCHEMA_NAME)),
        field("grounding_rounds", count(r.grounding_rounds)),
        field("grounding_tool_calls", count(r.grounding_tool_calls)),
        field("grounding_collected", Json::Bool(r.grounding_collected)),
        field("grounding_cost_usd", cost_json(r.grounding_cost)),
        field("planner_estimated_cost_usd", cost_json(r.plan_cost)),
        field("final_bundle_verified", Json::Bool(r.final_bundle_verified)),
        field("applied", Json::Bool(r.applied)),
        field("sandbox_run_root", text_or_null(&r.sandbox_run_root)),
        field("total_cost_usd", cost_json(r.total_cost)),
        field("budget_remaining_usd", cost_json(r.budget_remaining)),
        field("security", r.security.to_json()),
    ];
    append_fields(&mut fields, more);
    proof {
        assert(json::fields_view(fields@) =~= metadata_json(*r)->Object_0);
    }
    object(fields)
}

/// The counts of a run by its steps.
pub open spec fn step_counts(c: FixCounts) -> Seq<(Seq<char>, JsonView)> {
    seq![
        ("accepted_steps"@, json::natural(c.accepted_steps as nat)),
        ("rejected_steps"@, json::natural(c.rejected_steps as nat)),
        ("verification_failures"@, json::natural(c.verification_failures as nat)),
        ("generation_failures"@, json::natural(c.generation_failures as nat)),
        ("safety_failures"@, json::natural(c.safety_failures as nat)),
        (
            "candidate_verification_failures"@,
            json::natural(c.candidate_verification_failures as nat),
        ),
        ("final_bundle_failures"@, json::natural(c.final_bundle_failures as nat)),
    ]
}

/// The counts of a run by its steps.
pub fn list_step_counts(c: &FixCounts) -> (f: Vec<(String, Json)>)
    ensures
        json::fields_view(f@) == step_counts(*c),
{
    let fields = vec![
        field("accepted_steps", count(c.accepted_steps)),
        field("rejected_steps", count(c.rejected_steps)),
        field("verification_failures", count(c.verification_failures)),
        field("generation_failures", count(c.generation_failures)),
        field("safety_failures", count(c.safety_failures)),
        field("candidate_verification_failures", count(c.candidate_verification_failures)),
        field("final_bundle_failures", count(c.final_bundle_failures)),
    ];
    proof {
        assert(json::fields_view(fields@) =~= step_counts(*c));
    }
    fields
}

/// The counts of a run by the sources of its candidates.
pub open spec fn source_counts(c: FixCounts) -> Seq<(Seq<char>, JsonView)> {
    seq![
        ("apply_edit_attempts"@, json::natural(c.apply_edit_attempts as nat)),
        ("grounded_next_edit_attempts"@, json::natural(c.grounded_next_edit_attempts as nat)),
        ("critique_retry_attempts"@, json::natural(c.critique_retry_attempts as nat)),
        ("exploratory_next_edit_attempts"@, json::natural(c.exploratory_next_edit_attempts as nat)),
        ("apply_edit_accepted_steps"@, json::natural(c.apply_edit_accepted_steps as nat)),
        (
            "grounded_next_edit_accepted_steps"@,
            json::natural(c.grounded_next_edit_accepted_steps as nat),
        ),
        ("critique_retry_accepted_steps"@, json::natural(c.critique_retry_accepted_steps as nat)),
        (
            "exploratory_next_edit_accepted_steps"@,
            json::natural(c.exploratory_next_edit_accepted_steps as nat),
        ),
        ("retry_attempts"@, json::natural(c.retry_attempts as nat)),
    ]
}

fn list_source_counts(c: &FixCounts) -> (f: Vec<(String, Json)>)
    ensures
        json::fields_view(f@) == source_counts(*c),
{
    let fields = vec![
        field("apply_edit_attempts", count(c.apply_edit_attempts)),
        field("grounded_next_edit_attempts", count(c.grounded_next_edit_attempts)),
        field("critique_retry_attempts", count(c.critique_retry_attempts)),
        field("exploratory_next_edit_attempts", count(c.exploratory_next_edit_attempts)),
        field("apply_edit_accepted_steps", count(c.apply_edit_accepted_steps)),
        field("grounded_next_edit_accepted_steps", count(c.grounded_next_edit_accepted_steps)),
        field("critique_retry_accepted_steps", count(c.critique_retry_accepted_steps)),
        field(
            "exploratory_next_edit_accepted_steps",
            count(c.exploratory_next_edit_accepted_steps),
        ),
        field("retry_attempts", count(c.retry_attempts)),
    ];
    proof {
        assert(json::fields_view(fields@) =~= source_counts(*c));
    }
    fields
}

/// A field with a text, if there is one.
pub open spec fn text_field_if(name: Seq<char>, t: Option<Seq<char>>) -> Seq<
    (Seq<char>, JsonView),
> {
    match t {
        Some(x) => seq![(name, JsonView::Text(x))],
        None => Seq::empty(),
    }
}

/// A field with a text, if there is one.
pub fn list_text_if(name: &str, t: &Option<String>) -> (f: Vec<(String, Json)>)
    ensures
        json::fields_view(f@) == text_field_if(name@, chars::opt_text(*t)),
{
    let mut out: Vec<(String, Json)> = Vec::new();
    match t {
        Some(x) => {
            out.push(field(name, text(x.as_str())));
        },
        None => {},
    }
    proof {
        assert(json::fields_view(out@) =~= text_field_if(name@, chars::opt_text(*t)));
    }
    out
}

/// The record of a run for benchmarks.
pub open spec fn benchmark_json(r: FixRun) -> JsonView {
    JsonView::Object(
        seq![
            ("schema_version"@, JsonView::Text(FIX_BENCHMARK_RUN_SCHEMA_NAME@)),
            ("description"@, JsonView::Text(r.description@)),
        ] + run_facts(r) + step_counts(r.counts) + source_counts(r.counts) + seq![
            ("time_to_first_candidate_ms"@, json::opt_natural(r.time_to_first_candidate_ms)),
            ("time_to_verified_repair_ms"@, json::opt_natural(r.time_to_verified_repair_ms)),
            ("final_bundle_verified"@, JsonView::Bool(r.final_bundle_verified)),
            ("applied"@, JsonView::Bool(r.applied)),
            ("accepted_patch"@, JsonView::Bool(has_patch(r))),
            ("accepted_patch_bytes"@, json::opt_natural(r.accepted_patch_bytes)),
            ("outcome"@, JsonView::Text(outcome_of(r))),
        ] + text_field_if("failure_attribution"@, failure_of(r)) + seq![
            ("sandbox_run_root"@, json::opt_text(chars::opt_text(r.sandbox_run_root))),
            ("total_cost_usd"@, JsonView::Number(amount(r.total_cost as int))),
            ("budget_remaining_usd"@, JsonView::Number(amount(r.budget_remaining as int))),
            ("verifier"@, verifier_json(r.verifier)),
            ("security"@, guard::security_json(r.security@)),
        ],
    )
}

/// The record of a run for benchmarks.
pub fn fix_benchmark(r: &FixRun) -> (j: Json)
    ensures
        j@ == benchmark_json(*r),
{
    let mut fields = vec![
        field("schema_version", text(FIX_BENCHMARK_RUN_SCHEMA_NAME)),
        field("description", text(r.description.as_str())),
    ];
    append_fields(&mut fields, list_facts(r));
    append_fields(&mut fields, list_step_counts(&r.counts));
    append_fields(&mut fields, list_source_counts(&r.counts));
    let more = vec![
        field("time_to_first_candidate_ms", natural_or_null(r.time_to_first_candidate_ms)),
        field("time_to_verified_repair_ms", natural_or_null(r.time_to_verified_repair_ms)),
        field("final_bundle_verified", Json::Bool(r.final_bundle_verified)),
        field("applied", Json::Bool(r.applied)),
        field("accepted_patch", Json::Bool(r.accepted_patch())),
        field("accepted_patch_bytes", natural_or_null(r.accepted_patch_bytes)),
        field("outcome", text(r.outcome())),
    ];
    append_fields(&mut fields, more);
    append_fields(&mut fields, list_text_if("failure_attribution", &r.failure_attribution()));
    let last = vec![
        field("sandbox_run_root", text_or_null(&r.sandbox_run_root)),
        field("total_cost_usd", cost_json(r.total_cost)),
        field("budget_remaining_usd", cost_json(r.budget_remaining)),
        field("verifier", r.verifier.to_json()),
        field("security", r.security.to_json()),
    ];
    append_fields(&mut fields, last);
    proof {
        assert(json::fields_view(fields@) =~= benchmark_json(*r)->Object_0);
    }
    object(fields)
}

/// What is left of a budget is never more than the budget, and together with the cost it is
/// the budget unless the cost is higher.
pub proof fn law_budget_is_split(max_cost: int, total: int)
    requires
        total >= 0,
        max_cost >= 0,
    ensures
        0 <= cost_left(max_cost, total) <= max_cost,
        total <= max_cost ==> cost_left(max_cost, total) + total == max_cost,
{
}

/// How much a condition adds to a count.
pub open spec fn one_if(b: bool) -> int {
    if b {
        1
    } else {
        0
    }
}

/// A candidate counts for its own source and for the step at which it failed, and for nothing
/// else.
pub proof fn law_candidates_count_for_their_source(
    c: FixCounts,
    source: CandidateSource,
    stage: Option<CandidateFailureStage>,
)
    requires
        can_count(c),
    ensures
        ({
            let d = with_candidate(c, source, stage);
            &&& d.apply_edit_attempts == c.apply_edit_attempts + one_if(source is ApplyEdit)
            &&& d.critique_retry_attempts == c.critique_retry_attempts + one_if(
                source is CritiqueRetry,
            )
            &&& d.exploratory_next_edit_attempts == c.exploratory_next_edit_attempts + one_if(
                source is ExploratoryNextEdit,
            )
            &&& d.generation_failures == c.generation_failures + one_if(
                stage == Some(CandidateFailureStage::Generation),
            )
            &&& d.safety_failures == c.safety_failures + one_if(
                stage == Some(CandidateFailureStage::Safety),
            )
            &&& d.candidate_verification_failures == c.candidate_verification_failures + one_if(
                stage == Some(CandidateFailureStage::Verification),
            )
            &&& d.apply_edit_accepted_steps == c.apply_edit_accepted_steps
            &&& d.critique_retry_accepted_steps == c.critique_retry_accepted_steps
            &&& d.exploratory_next_edit_accepted_steps == c.exploratory_next_edit_accepted_steps
            &&& d.accepted_steps == c.accepted_steps
            &&& d.rejected_steps == c.rejected_steps
        }),
{
}

/// An accepted candidate counts as accepted for its own source, and for nothing else.
pub proof fn law_accepted_candidates_count_for_their_source(c: FixCounts, source: CandidateSource)
    requires
        can_count(c),
    ensures
        ({
            let d = with_accepted(c, source);
            &&& d.apply_edit_accepted_steps == c.apply_edit_accepted_steps + one_if(
                source is ApplyEdit,
            )
            &&& d.critique_retry_accepted_steps == c.critique_retry_accepted_steps + one_if(
                source is CritiqueRetry,
            )
            &&& d.exploratory_next_edit_accepted_steps == c.exploratory_next_edit_accepted_steps
                + one_if(source is ExploratoryNextEdit)
            &&& attempts(d) == attempts(c)
            &&& d.generation_failures == c.generation_failures
            &&& d.safety_failures == c.safety_failures
            &&& d.candidate_verification_failures == c.candidate_verification_failures
        }),
{
}

/// A run that was not verified is put down to the last check that something failed: the final
/// bundle, then the verifier, then safety, then generation.
pub proof fn law_the_last_failed_check_is_blamed(c: FixCounts, accepted_patch: bool)
    ensures
        ({
            let bundle = c.final_bundle_failures > 0 || accepted_patch;
            let verifier = c.candidate_verification_failures > 0;
            let safety = c.safety_failures > 0;
            let generation = c.generation_failures > 0;
            let blamed = attribution(c, false, accepted_patch).unwrap();
            &&& blamed == "final_bundle_verification_failed"@ <==> bundle
            &&& blamed == "candidate_failed_verifier"@ <==> !bundle && verifier
            &&& blamed == "candidate_failed_safety"@ <==> !bundle && !verifier && safety
            &&& blamed == "patch_generation_failed"@ <==> !bundle && !verifier && !safety
                && generation
            &&& blamed == "no_patch_emitted"@ <==> !bundle && !verifier && !safety && !generation
        }),
{
    reveal_strlit("final_bundle_verification_failed");
    reveal_strlit("candidate_failed_verifier");
    reveal_strlit("candidate_failed_safety");
    reveal_strlit("patch_generation_failed");
    reveal_strlit("no_patch_emitted");
    assert("candidate_failed_safety"@[0] == 'c' && "patch_generation_failed"@[0] == 'p');
    assert("final_bundle_verification_failed"@.len() == 32);
    assert("candidate_failed_verifier"@.len() == 25);
    assert("candidate_failed_safety"@.len() == 23);
    assert("patch_generation_failed"@.len() == 23);
    assert("no_patch_emitted"@.len() == 16);
}

/// A run without a verified bundle is an unverified patch exactly if something was accepted,
/// and else no patch.
pub proof fn law_outcomes_tell_what_came_out(accepted_patch: bool)
    ensures
        benchmark_outcome(false, accepted_patch) == "accepted_patch_unverified"@
            <==> accepted_patch,
        benchmark_outcome(false, accepted_patch) == "no_patch"@ <==> !accepted_patch,
{
    reveal_strlit("accepted_patch_unverified");
    reveal_strlit("no_patch");
    assert("accepted_patch_unverified"@.len() == 25 && "no_patch"@.len() == 8);
}

/// A run that was broken off has the name of the reason as its outcome and as its failure; any
/// other run has what its bundle and its patch say, and a patch of no bytes is none.
pub proof fn law_runs_tell_how_they_ended(r: FixRun)
    ensures
        r.abort matches Some(a) ==> outcome_of(r) == abort_name(a) && failure_of(r) == Some(
            abort_name(a),
        ),
        r.abort is None ==> (failure_of(r) is None <==> r.final_bundle_verified),
        r.accepted_patch_bytes is None || r.accepted_patch_bytes == Some(0u64) ==> !has_patch(r),
        r.accepted_patch_bytes matches Some(n) ==> (n > 0 ==> has_patch(r)),
{
}

proof fn lemma_leading_zeros(k: nat, s: Seq<char>)
    requires
        number::all_digits(s),
    ensures
        number::digits_value(pad::repeated('0', k) + s) == number::digits_value(s),
        number::all_digits(pad::repeated('0', k) + s),
    decreases s.len() + k,
{
    let t = pad::repeated('0', k) + s;
    if s.len() > 0 {
        assert(t.drop_last() =~= pad::repeated('0', k) + s.drop_last());
        assert(t.last() == s.last());
        lemma_leading_zeros(k, s.drop_last());
        assert(crate::text::chars::is_digit(s[s.len() - 1]));
    } else if k > 0 {
        assert(t.drop_last() =~= pad::repeated('0', (k - 1) as nat) + s);
        assert(t.last() == '0');
        lemma_leading_zeros((k - 1) as nat, s);
    } else {
        assert(t =~= s);
    }
}

spec fn ten_to(k: nat) -> nat
    decreases k,
{
    if k == 0 {
        1
    } else {
        10 * ten_to((k - 1) as nat)
    }
}

proof fn lemma_decimal_length(n: nat, k: nat)
    requires
        k > 0,
        n < ten_to(k),
    ensures
        number::decimal(n).len() <= k,
    decreases k,
{
    if n >= 10 {
        if k == 1 {
            assert(ten_to(1) == 10 * ten_to(0));
        }
        lemma_decimal_length(n / 10, (k - 1) as nat);
    }
}

/// An amount is written with its whole dollars in front of the point and all its billionths
/// behind it, in nine digits; one below nothing has a sign in front.
pub proof fn law_amounts_are_written_exactly(nanos: nat)
    ensures
        ({
            let cut = crate::text::split::cut_at(plain_amount(nanos), '.');
            &&& cut matches Some((whole, part)) && number::digits_value(whole) * 1000000000
                + number::digits_value(part) == nanos && part.len() == 9
        }),
        amount(nanos as int) == plain_amount(nanos),
        nanos > 0 ==> amount(-nanos) == "-"@ + amount(nanos as int),
{
    reveal_strlit(".");
    let whole = number::decimal(nanos / 1000000000);
    let rest = nanos % 1000000000;
    let part = pad::zero_padded(rest, 9);
    number::lemma_decimal(nanos / 1000000000);
    number::lemma_decimal(rest);
    reveal_with_fuel(ten_to, 10);
    assert(ten_to(9) == 1000000000);
    lemma_decimal_length(rest, 9);
    lemma_leading_zeros(pad::lack(number::decimal(rest), 9), number::decimal(rest));
    assert(!whole.contains('.')) by {
        if whole.contains('.') {
            let i = choose|i: int| 0 <= i < whole.len() && whole[i] == '.';
            assert(crate::text::chars::is_digit(whole[i]));
        }
    }
    assert(plain_amount(nanos) =~= whole + seq!['.'] + part);
    crate::text::laws::law_cut_at_first(whole, '.', part);
}

} // verus!
