//! Plans: how they are asked for, and how they are carried out.
use crate::api::prompt::THERMAL_ANALYSIS_PROMPT;
use crate::api::types::{ApiError, ApiUsage, PLANNER_RESPONSE_SCHEMA_NAME};
use crate::engine::batch;
use crate::engine::batch::{
    build_dispatch_batch, BatchItem, DispatchTarget, FileExecutionState, PlanStep, StateView,
};
use crate::engine::settle::{AcceptedCandidate, StepDispatchResult};
use crate::engine::summary;
use crate::engine::summary::{StepExecutionSummary, StepView};
use crate::engine::verify;
use crate::engine::verify::{FileState, VerifyResult};
use crate::sorting;
use crate::sorting::sort_distinct;
use crate::text::chars;
use crate::text::chars::{concat3, own, same};
use crate::thermal::ExecutionPhase;
use vstd::prelude::*;
use vstd::string::*;

verus! {

broadcast use chars::lemma_texts_push, chars::lemma_texts_empty;

/// A plan.
#[derive(Debug, Clone, PartialEq, Eq)]
pub struct ExecutionPlan {
    pub steps: Vec<PlanStep>,
    /// What every agent is told.
    pub constitutional_prompt: String,
    /// What the plan cost, in billionths of a dollar.
    pub estimated_cost: i128,
    pub estimated_tokens: Option<i64>,
}

/// What a planner answers.
#[derive(Debug, Clone, PartialEq, Eq)]
pub struct PlannerResponse {
    pub schema_version: String,
    pub steps: Vec<PlanStep>,
}

/// How long a plan can be, in tokens.
pub const PLANNER_MAX_TOKENS: u32 = 4096;

/// Asks for plans.
#[derive(Debug, Clone, PartialEq, Eq)]
pub struct Planner {
    pub constitutional_prompt: String,
}

impl Planner {
    /// A planner that tells every agent the given text.
    pub fn new(constitutional_prompt: String) -> (r: Planner)
        ensures
            r.constitutional_prompt == constitutional_prompt,
    {
        Planner { constitutional_prompt }
    }

    /// What the model is told to be.
    pub fn system_prompt(&self) -> (r: String)
        ensures
            r@ == THERMAL_ANALYSIS_PROMPT@ + "\n\n"@ + self.constitutional_prompt@,
    {
        concat3(THERMAL_ANALYSIS_PROMPT, "\n\n", self.constitutional_prompt.as_str())
    }

    /// What the model is asked.
    pub fn user_prompt(&self, goal: &str, repo_map: &str) -> (r: String)
        ensures
            r@ == "Goal: "@ + goal@ + "\n\nRepository Map:\n"@ + repo_map@,
    {
        let mut r = concat3("Goal: ", goal, "\n\nRepository Map:\n");
        r.append(repo_map);
        r
    }

    /// The plan that an answer holds. An answer of another schema is refused.
    pub fn accept(&self, response: PlannerResponse, usage: ApiUsage) -> (r: Result<
        ExecutionPlan,
        ApiError,
    >)
        ensures
            if response.schema_version@ == "planner-response-v1"@ {
                r matches Ok(plan) && plan.steps == response.steps
                    && plan.constitutional_prompt@ == self.constitutional_prompt@
                    && plan.estimated_cost == usage.cost_nanos && plan.estimated_tokens == Some(
                    usage.tokens_used,
                )
            } else {
                r matches Err(ApiError::SchemaViolation(m)) && m@ == "expected schema_version "@
                    + "planner-response-v1"@ + ", got "@ + response.schema_version@
            },
    {
        if !same(response.schema_version.as_str(), PLANNER_RESPONSE_SCHEMA_NAME) {
            let mut m = concat3(
                "expected schema_version ",
                PLANNER_RESPONSE_SCHEMA_NAME,
                ", got ",
            );
            m.append(response.schema_version.as_str());
            return Err(ApiError::SchemaViolation(m));
        }
        Ok(
            ExecutionPlan {
                steps: response.steps,
                constitutional_prompt: own(self.constitutional_prompt.as_str()),
                estimated_cost: usage.cost_nanos,
                estimated_tokens: Some(usage.tokens_used),
            },
        )
    }
}

/// What an [`AcceptedCandidate`] stands for.
#[verifier::ext_equal]
pub struct AcceptedView {
    pub file: Seq<char>,
    pub content: Seq<char>,
    pub agent: Seq<char>,
    pub hash: Seq<char>,
}

impl View for AcceptedCandidate {
    type V = AcceptedView;

    open spec fn view(&self) -> AcceptedView {
        AcceptedView {
            file: self.file_key@,
            content: self.content@,
            agent: self.agent_id@,
            hash: self.state_hash@,
        }
    }
}

/// A plan that is carried out.
#[derive(Debug)]
pub struct PlanRun {
    pub phase: ExecutionPhase,
    /// Whether all phases are over.
    pub finished: bool,
    pub states: Vec<FileExecutionState>,
    pub summary: StepExecutionSummary,
    /// The accepted candidates, in the order in which they were accepted.
    pub accepted: Vec<AcceptedCandidate>,
}

/// What a [`PlanRun`] stands for.
#[verifier::ext_equal]
pub struct PlanView {
    pub phase: ExecutionPhase,
    pub finished: bool,
    pub states: Seq<StateView>,
    pub summary: StepView,
    pub accepted: Seq<AcceptedView>,
}

impl View for PlanRun {
    type V = PlanView;

    open spec fn view(&self) -> PlanView {
        PlanView {
            phase: self.phase,
            finished: self.finished,
            states: sorting::views(self.states@),
            summary: self.summary@,
            accepted: sorting::views(self.accepted@),
        }
    }
}

/// What has to be done to carry out a plan.
#[derive(Debug, Clone, Copy, PartialEq, Eq, Structural)]
pub enum PlanAction {
    /// Work on the steps that can be worked on.
    Dispatch,
    /// Go on to the next phase.
    EndPhase,
    /// Verify the bundle of all accepted candidates.
    Bundle,
    Done,
}

/// What becomes of a bundle.
#[derive(Debug, Clone, Copy, PartialEq, Eq, Structural)]
pub enum BundleAction {
    /// Its files are written and locked.
    Apply,
    /// The project is kept as it is.
    Keep,
}

/// What has to be done next: steps are worked on as long as there are some in a phase, then
/// the next phase begins; after the last one the accepted candidates are verified together,
/// once.
pub open spec fn next_action(p: PlanView, batch_len: nat) -> PlanAction {
    if !p.finished {
        if batch_len == 0 {
            PlanAction::EndPhase
        } else {
            PlanAction::Dispatch
        }
    } else if p.accepted.len() > 0 && p.summary.final_result is None {
        PlanAction::Bundle
    } else {
        PlanAction::Done
    }
}

/// The phase that follows, if there is one.
pub open spec fn following(p: ExecutionPhase) -> Option<ExecutionPhase> {
    match p {
        ExecutionPhase::Scaffolding => Some(ExecutionPhase::Resolution),
        ExecutionPhase::Resolution => Some(ExecutionPhase::Annealing),
        ExecutionPhase::Annealing => None,
    }
}

/// The plan once the current phase has no steps left.
pub open spec fn phase_over(p: PlanView) -> PlanView {
    match following(p.phase) {
        Some(next) => PlanView { phase: next, ..p },
        None => PlanView { finished: true, ..p },
    }
}

/// A file once its next step is settled: the step is done, and an accepted candidate is the
/// new content.
pub open spec fn file_after(s: StateView, w: Option<AcceptedView>) -> StateView {
    let rest = StateView { steps: s.steps.drop_first(), ..s };
    match w {
        Some(a) => StateView { latest: a.content, seen: rest.seen.push(a.hash), ..rest },
        None => rest,
    }
}

/// What an optional candidate stands for.
pub open spec fn opt_accepted(w: Option<AcceptedCandidate>) -> Option<AcceptedView> {
    match w {
        Some(a) => Some(a@),
        None => None,
    }
}

/// The plan once a step of the file at `k` is settled.
pub open spec fn absorbed(p: PlanView, k: int, s: StepView, w: Option<AcceptedView>) -> PlanView {
    PlanView {
        states: p.states.update(k, file_after(p.states[k], w)),
        summary: summary::merged(p.summary, s),
        accepted: match w {
            Some(a) => p.accepted.push(a),
            None => p.accepted,
        },
        ..p
    }
}

/// The content that was last accepted for a file.
pub open spec fn last_content(accepted: Seq<AcceptedView>, file: Seq<char>) -> Option<AcceptedView>
    decreases accepted.len(),
{
    if accepted.len() == 0 {
        None
    } else if accepted.last().file == file {
        Some(accepted.last())
    } else {
        last_content(accepted.drop_last(), file)
    }
}

/// The files with an accepted candidate, in order.
pub open spec fn accepted_names(accepted: Seq<AcceptedView>) -> Seq<Seq<char>> {
    sorting::distinct_texts(Seq::new(accepted.len(), |i: int| accepted[i].file))
}

/// The summary once the whole bundle was verified: it is applied if and only if the
/// verification passed.
pub open spec fn concluded(s: StepView, passed: bool, result: verify::ResultView, elapsed_ms: u64) ->
    StepView {
    StepView {
        verified: passed,
        final_result: Some(result),
        applied: if passed {
            true
        } else {
            s.applied
        },
        verified_repair_ms: if passed {
            Some(elapsed_ms)
        } else {
            s.verified_repair_ms
        },
        verification_failures: if passed {
            s.verification_failures
        } else {
            s.verification_failures + 1
        },
        ..s
    }
}

impl PlanRun {
    /// Begins to carry out a plan.
    pub fn new(states: Vec<FileExecutionState>, run_root: String) -> (r: PlanRun)
        ensures
            r@ == (PlanView {
                phase: ExecutionPhase::Scaffolding,
                finished: false,
                states: sorting::views(states@),
                summary: StepView { run_root: Some(run_root@), ..summary::nothing() },
                accepted: Seq::empty(),
            }),
    {
        let r = PlanRun {
            phase: ExecutionPhase::Scaffolding,
            finished: false,
            states,
            summary: StepExecutionSummary {
                accepted: 0,
                rejected: 0,
                verification_failures: 0,
                retry_attempts: 0,
                time_to_first_candidate_ms: None,
                time_to_verified_repair_ms: None,
                final_bundle_verified: false,
                applied: false,
                run_root: Some(run_root),
                final_verification: None,
            },
            accepted: Vec::new(),
        };
        proof {
            assert(r@.accepted =~= Seq::<AcceptedView>::empty());
        }
        r
    }

    /// The steps to work on next.
    pub fn next_batch(
        &self,
        wanted: &[i32],
        targets: &[DispatchTarget],
        max_concurrency: usize,
    ) -> (r: Vec<BatchItem>)
        requires
            wanted@.len() == self.states@.len(),
            max_concurrency <= i32::MAX,
            forall|i: int|
                0 <= i < self.states@.len() ==> batch::numbered((#[trigger] self.states@[i])@),
        ensures
            batch::items_view(r@) == batch::batch(
                self@.states,
                wanted@,
                sorting::views(targets@),
                self.phase,
                if max_concurrency < 1 {
                    1
                } else {
                    max_concurrency as int
                },
            ),
            forall|i: int| 0 <= i < r@.len() ==> (#[trigger] r@[i]).state < self.states@.len(),
    {
        build_dispatch_batch(
            self.states.as_slice(),
            wanted,
            targets,
            self.phase,
            max_concurrency,
        )
    }

    /// What has to be done next, given how many steps can be worked on.
    pub fn next(&self, batch_len: usize) -> (r: PlanAction)
        ensures
            r == next_action(self@, batch_len as nat),
    {
        if !self.finished {
            if batch_len == 0 {
                PlanAction::EndPhase
            } else {
                PlanAction::Dispatch
            }
        } else if self.accepted.len() > 0 && self.summary.final_verification.is_none() {
            PlanAction::Bundle
        } else {
            PlanAction::Done
        }
    }

    /// What becomes of the bundle of all accepted candidates.
    pub fn after_bundle(&self, result: &VerifyResult) -> (r: BundleAction)
        ensures
            (r is Apply) == verify::passed(result@),
    {
        if result.is_ok() {
            BundleAction::Apply
        } else {
            BundleAction::Keep
        }
    }

    /// Goes on to the next phase.
    pub fn end_phase(&mut self)
        ensures
            final(self)@ == phase_over(old(self)@),
    {
        match self.phase {
            ExecutionPhase::Scaffolding => {
                self.phase = ExecutionPhase::Resolution;
            },
            ExecutionPhase::Resolution => {
                self.phase = ExecutionPhase::Annealing;
            },
            ExecutionPhase::Annealing => {
                self.finished = true;
            },
        }
    }

    /// Takes note of a settled step of the file at `k`.
    pub fn absorb(&mut self, k: usize, result: StepDispatchResult)
        requires
            k < old(self).states@.len(),
            old(self).states@[k as int].steps@.len() > 0,
            summary::can_merge(old(self).summary@, result.summary@),
        ensures
            final(self)@ == absorbed(
                old(self)@,
                k as int,
                result.summary@,
                opt_accepted(result.winner),
            ),
    {
        let ghost before = self.states@;
        let ghost accepted_before = self.accepted@;
        self.summary.merge(result.summary);
        let ghost steps_before = self.states@[k as int].steps@;
        self.states[k].steps.remove(0);
        proof {
            assert(sorting::views(self.states@[k as int].steps@) =~= sorting::views(
                steps_before,
            ).drop_first());
        }
        match result.winner {
            Some(w) => {
                self.states[k].latest_state = own(w.content.as_str());
                self.states[k].seen_hashes.push(own(w.state_hash.as_str()));
                let ghost wv = w@;
                self.accepted.push(w);
                proof {
                    assert(sorting::views(self.accepted@) =~= sorting::views(
                        accepted_before,
                    ).push(wv));
                }
            },
            None => {},
        }
        proof {
            let w = opt_accepted(result.winner);
            let old_views = sorting::views(before);
            assert(old_views[k as int] == before[k as int]@);
            assert(self.states@[k as int]@ =~= file_after(old_views[k as int], w));
            assert(sorting::views(self.states@) =~= old_views.update(
                k as int,
                file_after(old_views[k as int], w),
            ));
        }
    }

    /// The files to write: for each file the candidate that was last accepted.
    pub fn accepted_files(&self) -> (r: Vec<FileState>)
        ensures
            r@.len() == accepted_names(self@.accepted).len(),
            forall|i: int|
                0 <= i < r@.len() ==> (#[trigger] r@[i]).path@ == accepted_names(
                    self@.accepted,
                )[i] && (last_content(self@.accepted, r@[i].path@) matches Some(a) && a.content
                    == r@[i].content@),
    {
        let ghost all = self@.accepted;
        let mut files: Vec<String> = Vec::new();
        let mut i: usize = 0;
        while i < self.accepted.len()
            invariant
                i <= self.accepted@.len(),
                files@.len() == i,
                forall|j: int|
                    0 <= j < i ==> (#[trigger] files@[j])@ == self.accepted@[j].file_key@,
            decreases self.accepted@.len() - i,
        {
            files.push(own(self.accepted[i].file_key.as_str()));
            i = i + 1;
        }
        proof {
            assert(chars::texts(files@) =~= Seq::new(all.len(), |i: int| all[i].file));
            sorting::law_distinct_texts(chars::texts(files@));
        }
        let names = sort_distinct(files);
        let mut out: Vec<FileState> = Vec::new();
        let mut k: usize = 0;
        while k < names.len()
            invariant
                all == sorting::views(self.accepted@),
                chars::texts(names@) == accepted_names(all),
                forall|x: Seq<char>|
                    #[trigger] accepted_names(all).contains(x) ==> Seq::new(
                        all.len(),
                        |i: int| all[i].file,
                    ).contains(x),
                k <= names@.len(),
                out@.len() == k,
                forall|i: int|
                    0 <= i < k ==> (#[trigger] out@[i]).path@ == accepted_names(all)[i]
                        && (last_content(all, out@[i].path@) matches Some(a) && a.content
                        == out@[i].content@),
            decreases names@.len() - k,
        {
            proof {
                assert(chars::texts(names@)[k as int] == names@[k as int]@);
                assert(accepted_names(all).contains(names@[k as int]@));
            }
            let content = content_of(self.accepted.as_slice(), names[k].as_str());
            out.push(FileState { path: own(names[k].as_str()), content });
            k = k + 1;
        }
        proof {
            assert(chars::texts(names@).len() == names@.len());
        }
        out
    }

    /// Takes note of the verification of the whole bundle.
    pub fn conclude(&mut self, result: VerifyResult, elapsed_ms: u64)
        requires
            old(self).summary.verification_failures < usize::MAX,
        ensures
            final(self)@ == (PlanView {
                summary: concluded(
                    old(self)@.summary,
                    verify::passed(result@),
                    result@,
                    elapsed_ms,
                ),
                ..old(self)@
            }),
    {
        let ok = result.is_ok();
        self.summary.final_bundle_verified = ok;
        self.summary.final_verification = Some(result);
        if ok {
            self.summary.time_to_verified_repair_ms = Some(elapsed_ms);
            self.summary.applied = true;
        } else {
            self.summary.verification_failures = self.summary.verification_failures + 1;
        }
    }
}

/// The position of the candidate that was last accepted for a file.
pub fn last_accepted(accepted: &[AcceptedCandidate], file: &str) -> (r: Option<usize>)
    ensures
        match r {
            Some(k) => k < accepted@.len() && last_content(sorting::views(accepted@), file@)
                == Some(accepted@[k as int]@),
            None => last_content(sorting::views(accepted@), file@) is None,
        },
{
    let ghost all = sorting::views(accepted@);
    let mut i: usize = accepted.len();
    proof {
        assert(all.take(i as int) =~= all);
    }
    while i > 0
        invariant
            all == sorting::views(accepted@),
            i <= accepted@.len(),
            last_content(all, file@) == last_content(all.take(i as int), file@),
        decreases i,
    {
        proof {
            assert(all.take(i as int).drop_last() =~= all.take(i - 1));
            assert(all.take(i as int).last() == accepted@[i - 1]@);
        }
        if same(accepted[i - 1].file_key.as_str(), file) {
            return Some(i - 1);
        }
        i = i - 1;
    }
    None
}

proof fn lemma_named_is_accepted(accepted: Seq<AcceptedView>, k: int)
    requires
        0 <= k < accepted.len(),
    ensures
        last_content(accepted, accepted[k].file) is Some,
    decreases accepted.len(),
{
    if k < accepted.len() - 1 {
        lemma_named_is_accepted(accepted.drop_last(), k);
    }
}

fn content_of(accepted: &[AcceptedCandidate], file: &str) -> (r: String)
    requires
        Seq::new(
            sorting::views(accepted@).len(),
            |i: int| sorting::views(accepted@)[i].file,
        ).contains(file@),
    ensures
        last_content(sorting::views(accepted@), file@) matches Some(a) && a.content == r@,
{
    proof {
        let all = sorting::views(accepted@);
        let names = Seq::new(all.len(), |i: int| all[i].file);
        let w = choose|k: int| 0 <= k < names.len() && names[k] == file@;
        lemma_named_is_accepted(all, w);
    }
    match last_accepted(accepted, file) {
        Some(k) => own(accepted[k].content.as_str()),
        None => String::new(),
    }
}

/// How many steps are left in all files.
pub open spec fn steps_left(states: Seq<StateView>) -> nat
    decreases states.len(),
{
    if states.len() == 0 {
        0
    } else {
        steps_left(states.drop_last()) + states.last().steps.len()
    }
}

/// Every settled step is done: one step fewer is left, so a plan ends.
pub proof fn law_settled_steps_are_done(p: PlanView, k: int, s: StepView, w: Option<AcceptedView>)
    requires
        0 <= k < p.states.len(),
        p.states[k].steps.len() > 0,
    ensures
        steps_left(absorbed(p, k, s, w).states) + 1 == steps_left(p.states),
{
    lemma_left_update(p.states, k, file_after(p.states[k], w));
}

proof fn lemma_left_update(states: Seq<StateView>, k: int, s: StateView)
    requires
        0 <= k < states.len(),
        s.steps.len() + 1 == states[k].steps.len(),
    ensures
        steps_left(states.update(k, s)) + 1 == steps_left(states),
    decreases states.len(),
{
    let now = states.update(k, s);
    if k == states.len() - 1 {
        assert(now.drop_last() =~= states.drop_last());
    } else {
        assert(now.drop_last() =~= states.drop_last().update(k, s));
        lemma_left_update(states.drop_last(), k, s);
    }
}

/// Nothing is applied unless the whole bundle was verified.
pub proof fn law_only_verified_bundles_are_applied(
    s: StepView,
    passed: bool,
    result: verify::ResultView,
    elapsed_ms: u64,
)
    requires
        !s.applied,
    ensures
        concluded(s, passed, result, elapsed_ms).applied == passed,
        concluded(s, passed, result, elapsed_ms).applied ==> concluded(
            s,
            passed,
            result,
            elapsed_ms,
        ).verified,
{
}

/// An accepted candidate is the content of its file from then on, and its state counts as
/// seen.
pub proof fn law_accepted_content_is_kept(
    p: PlanView,
    k: int,
    s: StepView,
    w: AcceptedView,
)
    requires
        0 <= k < p.states.len(),
    ensures
        absorbed(p, k, s, Some(w)).states[k].latest == w.content,
        absorbed(p, k, s, Some(w)).states[k].seen.contains(w.hash),
        last_content(absorbed(p, k, s, Some(w)).accepted, w.file) == Some(w),
{
    let seen = absorbed(p, k, s, Some(w)).states[k].seen;
    assert(seen.last() == w.hash);
    assert(seen[seen.len() - 1] == w.hash);
    assert(absorbed(p, k, s, Some(w)).accepted.last() == w);
}

/// How many phases and bundles are still to come.
pub open spec fn turns_left(p: PlanView) -> nat {
    if p.finished {
        if p.summary.final_result is None {
            1
        } else {
            0
        }
    } else {
        match p.phase {
            ExecutionPhase::Scaffolding => 4,
            ExecutionPhase::Resolution => 3,
            ExecutionPhase::Annealing => 2,
        }
    }
}

/// A plan ends: a phase without steps is followed by the next, and the bundle is verified once.
pub proof fn law_plans_end(p: PlanView, passed: bool, result: verify::ResultView, elapsed_ms: u64)
    ensures
        next_action(p, 0) is EndPhase ==> turns_left(phase_over(p)) < turns_left(p),
        next_action(p, 0) is Bundle ==> next_action(
            PlanView { summary: concluded(p.summary, passed, result, elapsed_ms), ..p },
            0,
        ) is Done,
{
}

} // verus!
