//! Working out one candidate of a step: generate, verify, and retry once on critique.
use crate::engine::candidate;
use crate::engine::candidate::{
    candidate_source, change_footprint, unsafe_candidate_reason, CandidateFailureStage,
    CandidateOutcome, ChangeFootprint, OutcomeView,
};
use crate::engine::history;
use crate::engine::history::{build_retry_history, join_verification_errors};
use crate::engine::verify;
use crate::engine::verify::{ResultView, VerifyResult};
use crate::text::chars;
use crate::text::chars::{concat2, concat3, own, own_all};
use crate::text::split;
use crate::verification::workspace;
use crate::verification::workspace::join_path;
use vstd::prelude::*;

verus! {

broadcast use chars::lemma_texts_push, chars::lemma_texts_empty;

/// The steps of working out a candidate.
#[derive(Debug, Clone, Copy, PartialEq, Eq, Structural)]
pub enum VariantStage {
    Generate,
    Verify,
    Retry,
    VerifyRetry,
    Finished,
}

/// What has to be done next.
#[derive(Debug, Clone, PartialEq, Eq)]
pub enum VariantAction {
    /// Apply the instruction to the file.
    Patch { original: String, instruction: String },
    /// Ask for the next edit of the file.
    NextEdit { path: String, content: String, history: String },
    /// Verify the candidate in a workspace at `root`.
    Verify { root: String, content: String, may_ask: bool },
    Finish,
}

/// What an attempt to generate a candidate brought.
#[derive(Debug, Clone, PartialEq, Eq)]
pub enum Generation {
    Made { text: String, tokens: i64, cost: i128 },
    Failed(String),
}

/// A candidate that is worked out.
#[derive(Debug)]
pub struct VariantRun {
    pub agent_id: String,
    pub log_id: i64,
    pub candidate_index: usize,
    /// The directory of the attempts.
    pub sandbox_root: String,
    pub file_path: String,
    /// The file as it stands.
    pub latest_state: String,
    pub instruction: String,
    pub seed_history: String,
    pub stage: VariantStage,
    /// The candidate of the last attempt.
    pub candidate: String,
    /// The history that the retry is given.
    pub retry_history: String,
    pub tokens: i64,
    pub cost: i128,
    /// The errors of the first verification.
    pub errors: Vec<String>,
    pub outcome: Option<CandidateOutcome>,
}

/// What a [`VariantRun`] stands for.
#[verifier::ext_equal]
pub struct VariantView {
    pub agent: Seq<char>,
    pub log_id: i64,
    pub index: nat,
    pub sandbox: Seq<char>,
    pub file: Seq<char>,
    pub latest: Seq<char>,
    pub instruction: Seq<char>,
    pub seed: Seq<char>,
    pub stage: VariantStage,
    pub candidate: Seq<char>,
    pub history: Seq<char>,
    pub tokens: int,
    pub cost: int,
    pub errors: Seq<Seq<char>>,
    pub outcome: Option<OutcomeView>,
}

/// What an optional outcome stands for.
pub open spec fn opt_outcome(o: Option<CandidateOutcome>) -> Option<OutcomeView> {
    match o {
        Some(x) => Some(x@),
        None => None,
    }
}

impl View for VariantRun {
    type V = VariantView;

    open spec fn view(&self) -> VariantView {
        VariantView {
            agent: self.agent_id@,
            log_id: self.log_id,
            index: self.candidate_index as nat,
            sandbox: self.sandbox_root@,
            file: self.file_path@,
            latest: self.latest_state@,
            instruction: self.instruction@,
            seed: self.seed_history@,
            stage: self.stage,
            candidate: self.candidate@,
            history: self.retry_history@,
            tokens: self.tokens as int,
            cost: self.cost as int,
            errors: chars::texts(self.errors@),
            outcome: opt_outcome(self.outcome),
        }
    }
}

/// The directory of an attempt.
pub open spec fn attempt_root(v: VariantView, retry: bool) -> Seq<char> {
    workspace::continued(
        v.sandbox,
        if retry {
            "attempt-2"@
        } else {
            "attempt-1"@
        },
    )
}

/// No change at all.
pub open spec fn no_footprint() -> ChangeFootprint {
    ChangeFootprint { touched_lines: 0, byte_delta: 0 }
}

/// How much a text changes.
pub open spec fn footprint(before: Seq<char>, after: Seq<char>) -> ChangeFootprint {
    ChangeFootprint {
        touched_lines: candidate::touched(
            split::lines_of(before),
            split::lines_of(after),
        ) as usize,
        byte_delta: candidate::length_gap(before, after) as usize,
    }
}

/// The outcome of a candidate that failed.
pub open spec fn failed_outcome(
    v: VariantView,
    retried: bool,
    second_root: bool,
    errors: Seq<Seq<char>>,
    change: ChangeFootprint,
    stage: CandidateFailureStage,
    reason: Seq<char>,
) -> OutcomeView {
    OutcomeView {
        agent: v.agent,
        log_id: v.log_id,
        sandbox: attempt_root(v, second_root),
        source: candidate::source_of(v.index, retried),
        candidate: None,
        retries: if retried {
            1
        } else {
            0
        },
        tokens: v.tokens as i64,
        cost: v.cost as i128,
        errors,
        hash: None,
        footprint: change,
        stage: Some(stage),
        reason: Some(reason),
    }
}

/// The outcome of a candidate that was verified.
pub open spec fn verified_outcome(
    v: VariantView,
    retried: bool,
    errors: Seq<Seq<char>>,
    hash: Seq<char>,
) -> OutcomeView {
    OutcomeView {
        agent: v.agent,
        log_id: v.log_id,
        sandbox: attempt_root(v, retried),
        source: candidate::source_of(v.index, retried),
        candidate: Some(v.candidate),
        retries: if retried {
            1
        } else {
            0
        },
        tokens: v.tokens as i64,
        cost: v.cost as i128,
        errors,
        hash: Some(hash),
        footprint: footprint(v.latest, v.candidate),
        stage: None,
        reason: None,
    }
}

/// The end, with an outcome.
pub open spec fn ended(v: VariantView, o: OutcomeView) -> VariantView {
    VariantView { stage: VariantStage::Finished, outcome: Some(o), ..v }
}

/// What follows an attempt to generate a candidate. A candidate that would blank the text it
/// starts from is refused; any other is verified.
pub open spec fn after_generation(v: VariantView, g: Generation) -> VariantView {
    let retried = v.stage == VariantStage::Retry;
    match g {
        Generation::Failed(err) => ended(
            v,
            failed_outcome(
                v,
                retried,
                false,
                if retried {
                    v.errors
                } else {
                    Seq::empty()
                },
                no_footprint(),
                CandidateFailureStage::Generation,
                (if retried {
                    "retry generation failed: "@
                } else {
                    "patch generation failed: "@
                }) + err@,
            ),
        ),
        Generation::Made { text, tokens, cost } => {
            let paid = VariantView { tokens: v.tokens + tokens, cost: v.cost + cost, ..v };
            let base = if retried {
                v.candidate
            } else {
                v.latest
            };
            match candidate::unsafe_reason(base, text@) {
                Some(why) => ended(
                    paid,
                    failed_outcome(
                        paid,
                        retried,
                        retried,
                        Seq::empty(),
                        footprint(v.latest, text@),
                        CandidateFailureStage::Safety,
                        candidate::source_name(candidate::source_of(v.index, retried))
                            + " candidate rejected: "@ + why,
                    ),
                ),
                None => VariantView {
                    stage: if retried {
                        VariantStage::VerifyRetry
                    } else {
                        VariantStage::Verify
                    },
                    candidate: text@,
                    ..paid
                },
            }
        },
    }
}

/// What follows a verification. A first candidate that failed and got a critique is retried
/// once.
pub open spec fn after_verification(
    v: VariantView,
    r: ResultView,
    hash: Seq<char>,
    structured: Seq<char>,
) -> VariantView {
    let retried = v.stage == VariantStage::VerifyRetry;
    if verify::passed(r) {
        ended(v, verified_outcome(v, retried, r.errors, hash))
    } else if !retried && v.index == 0 && r.critique is Some {
        VariantView {
            stage: VariantStage::Retry,
            history: v.seed + "\n\n"@ + split::joined(
                history::retry_sections(v.instruction, r, r.critique->0, structured),
                "\n\n"@,
            ),
            errors: r.errors,
            ..v
        }
    } else {
        ended(
            v,
            failed_outcome(
                v,
                retried,
                retried,
                r.errors,
                no_footprint(),
                CandidateFailureStage::Verification,
                history::errors_text(r.errors),
            ),
        )
    }
}

/// Whether the lines of two texts can be counted together.
pub open spec fn countable(a: Seq<char>, b: Seq<char>) -> bool {
    split::lines_of(a).len() + split::lines_of(b).len() <= usize::MAX
}

impl VariantRun {
    /// Begins to work out a candidate.
    pub fn new(
        agent_id: String,
        log_id: i64,
        candidate_index: usize,
        sandbox_root: String,
        file_path: String,
        latest_state: String,
        instruction: String,
        seed_history: String,
    ) -> (r: VariantRun)
        ensures
            r@ == (VariantView {
                agent: agent_id@,
                log_id,
                index: candidate_index as nat,
                sandbox: sandbox_root@,
                file: file_path@,
                latest: latest_state@,
                instruction: instruction@,
                seed: seed_history@,
                stage: VariantStage::Generate,
                candidate: Seq::empty(),
                history: Seq::empty(),
                tokens: 0,
                cost: 0,
                errors: Seq::empty(),
                outcome: None,
            }),
    {
        let r = VariantRun {
            agent_id,
            log_id,
            candidate_index,
            sandbox_root,
            file_path,
            latest_state,
            instruction,
            seed_history,
            stage: VariantStage::Generate,
            candidate: String::new(),
            retry_history: String::new(),
            tokens: 0,
            cost: 0,
            errors: Vec::new(),
            outcome: None,
        };
        proof {
            assert(r.candidate@ =~= Seq::<char>::empty());
            assert(r.retry_history@ =~= Seq::<char>::empty());
        }
        r
    }

    fn root(&self, retry: bool) -> (r: String)
        ensures
            r@ == attempt_root(self@, retry),
    {
        join_path(
            self.sandbox_root.as_str(),
            if retry {
                "attempt-2"
            } else {
                "attempt-1"
            },
        )
    }

    /// What has to be done next.
    pub fn action(&self) -> (r: VariantAction)
        ensures
            match self.stage {
                VariantStage::Generate => if self.candidate_index == 0 {
                    r matches VariantAction::Patch { original, instruction } && original@
                        == self.latest_state@ && instruction@ == self.instruction@
                } else {
                    r matches VariantAction::NextEdit { path, content, history } && path@
                        == self.file_path@ && content@ == self.latest_state@ && history@
                        == self.seed_history@
                },
                VariantStage::Retry => r matches VariantAction::NextEdit {
                    path,
                    content,
                    history,
                } && path@ == self.file_path@ && content@ == self.candidate@ && history@
                    == self.retry_history@,
                VariantStage::Verify => r matches VariantAction::Verify { root, content, may_ask }
                    && root@ == attempt_root(self@, false) && content@ == self.candidate@
                    && may_ask,
                VariantStage::VerifyRetry => r matches VariantAction::Verify {
                    root,
                    content,
                    may_ask,
                } && root@ == attempt_root(self@, true) && content@ == self.candidate@
                    && !may_ask,
                VariantStage::Finished => r is Finish,
            },
    {
        match self.stage {
            VariantStage::Generate => {
                if self.candidate_index == 0 {
                    VariantAction::Patch {
                        original: own(self.latest_state.as_str()),
                        instruction: own(self.instruction.as_str()),
                    }
                } else {
                    VariantAction::NextEdit {
                        path: own(self.file_path.as_str()),
                        content: own(self.latest_state.as_str()),
                        history: own(self.seed_history.as_str()),
                    }
                }
            },
            VariantStage::Retry => VariantAction::NextEdit {
                path: own(self.file_path.as_str()),
                content: own(self.candidate.as_str()),
                history: own(self.retry_history.as_str()),
            },
            VariantStage::Verify => VariantAction::Verify {
                root: self.root(false),
                content: own(self.candidate.as_str()),
                may_ask: true,
            },
            VariantStage::VerifyRetry => VariantAction::Verify {
                root: self.root(true),
                content: own(self.candidate.as_str()),
                may_ask: false,
            },
            VariantStage::Finished => VariantAction::Finish,
        }
    }

    fn fail(
        &mut self,
        retried: bool,
        second_root: bool,
        errors: Vec<String>,
        change: ChangeFootprint,
        stage: CandidateFailureStage,
        reason: String,
    )
        ensures
            final(self)@ == ended(
                old(self)@,
                failed_outcome(
                    old(self)@,
                    retried,
                    second_root,
                    chars::texts(errors@),
                    change,
                    stage,
                    reason@,
                ),
            ),
    {
        let o = CandidateOutcome {
            agent_id: own(self.agent_id.as_str()),
            log_id: self.log_id,
            sandbox_root: self.root(second_root),
            source: candidate_source(self.candidate_index, retried),
            candidate: None,
            retry_attempts: if retried {
                1
            } else {
                0
            },
            total_tokens: self.tokens,
            total_cost: self.cost,
            verification_errors: errors,
            state_hash: None,
            change_footprint: change,
            failure_stage: Some(stage),
            reason: Some(reason),
        };
        self.outcome = Some(o);
        self.stage = VariantStage::Finished;
    }

    /// Takes note of an attempt to generate a candidate.
    pub fn generated(&mut self, g: Generation)
        requires
            old(self).stage == VariantStage::Generate || old(self).stage == VariantStage::Retry,
            g matches Generation::Made { text, tokens, cost } ==> {
                &&& countable(old(self).latest_state@, text@)
                &&& i64::MIN <= old(self).tokens + tokens <= i64::MAX
                &&& i128::MIN <= old(self).cost + cost <= i128::MAX
            },
        ensures
            final(self)@ == after_generation(old(self)@, g),
    {
        let retried = self.stage == VariantStage::Retry;
        let none = ChangeFootprint { touched_lines: 0, byte_delta: 0 };
        match g {
            Generation::Failed(err) => {
                let errors: Vec<String> = if retried {
                    own_all(self.errors.as_slice())
                } else {
                    Vec::new()
                };
                let reason = concat2(
                    if retried {
                        "retry generation failed: "
                    } else {
                        "patch generation failed: "
                    },
                    err.as_str(),
                );
                self.fail(
                    retried,
                    false,
                    errors,
                    none,
                    CandidateFailureStage::Generation,
                    reason,
                );
            },
            Generation::Made { text, tokens, cost } => {
                let objection = if retried {
                    unsafe_candidate_reason(self.candidate.as_str(), text.as_str())
                } else {
                    unsafe_candidate_reason(self.latest_state.as_str(), text.as_str())
                };
                self.tokens = self.tokens + tokens;
                self.cost = self.cost + cost;
                match objection {
                    Some(why) => {
                        let change = change_footprint(self.latest_state.as_str(), text.as_str());
                        let reason = concat3(
                            candidate_source(self.candidate_index, retried).as_str(),
                            " candidate rejected: ",
                            why,
                        );
                        self.fail(
                            retried,
                            retried,
                            Vec::new(),
                            change,
                            CandidateFailureStage::Safety,
                            reason,
                        );
                    },
                    None => {
                        self.candidate = text;
                        self.stage = if retried {
                            VariantStage::VerifyRetry
                        } else {
                            VariantStage::Verify
                        };
                    },
                }
            },
        }
    }

    /// Takes note of a verification. `state_hash` is the hash of the candidate, `structured`
    /// the structured failures as JSON text.
    pub fn verified(&mut self, result: VerifyResult, state_hash: &str, structured: &str)
        requires
            old(self).stage == VariantStage::Verify || old(self).stage
                == VariantStage::VerifyRetry,
            countable(old(self).latest_state@, old(self).candidate@),
        ensures
            final(self)@ == after_verification(
                old(self)@,
                result@,
                state_hash@,
                structured@,
            ),
    {
        let retried = self.stage == VariantStage::VerifyRetry;
        if result.is_ok() {
            let change = change_footprint(self.latest_state.as_str(), self.candidate.as_str());
            let o = CandidateOutcome {
                agent_id: own(self.agent_id.as_str()),
                log_id: self.log_id,
                sandbox_root: self.root(retried),
                source: candidate_source(self.candidate_index, retried),
                candidate: Some(own(self.candidate.as_str())),
                retry_attempts: if retried {
                    1
                } else {
                    0
                },
                total_tokens: self.tokens,
                total_cost: self.cost,
                verification_errors: result.errors,
                state_hash: Some(own(state_hash)),
                change_footprint: change,
                failure_stage: None,
                reason: None,
            };
            self.outcome = Some(o);
            self.stage = VariantStage::Finished;
            return ;
        }
        if !retried && self.candidate_index == 0 {
            match &result.critique {
                Some(critique) => {
                    let h = build_retry_history(
                        self.instruction.as_str(),
                        &result,
                        critique.as_str(),
                        structured,
                    );
                    self.retry_history = concat3(self.seed_history.as_str(), "\n\n", h.as_str());
                    self.errors = own_all(result.errors.as_slice());
                    self.stage = VariantStage::Retry;
                    return ;
                },
                None => {},
            }
        }
        let reason = join_verification_errors(result.errors.as_slice());
        let none = ChangeFootprint { touched_lines: 0, byte_delta: 0 };
        self.fail(
            retried,
            retried,
            result.errors,
            none,
            CandidateFailureStage::Verification,
            reason,
        );
    }
}

/// How many actions are left at most.
pub open spec fn actions_left(s: VariantStage) -> nat {
    match s {
        VariantStage::Generate => 4,
        VariantStage::Verify => 3,
        VariantStage::Retry => 2,
        VariantStage::VerifyRetry => 1,
        VariantStage::Finished => 0,
    }
}

/// Every answer brings the end nearer, so a candidate is retried at most once.
pub proof fn law_variants_end(
    v: VariantView,
    g: Generation,
    r: ResultView,
    hash: Seq<char>,
    structured: Seq<char>,
)
    ensures
        v.stage == VariantStage::Generate || v.stage == VariantStage::Retry ==> actions_left(
            after_generation(v, g).stage,
        ) < actions_left(v.stage),
        v.stage == VariantStage::Verify || v.stage == VariantStage::VerifyRetry ==> actions_left(
            after_verification(v, r, hash, structured).stage,
        ) < actions_left(v.stage),
{
}

/// Only a candidate whose verification passed comes out with its text, and it then carries
/// the hash of its state.
pub proof fn law_only_verified_candidates_come_out(
    v: VariantView,
    g: Generation,
    r: ResultView,
    hash: Seq<char>,
    structured: Seq<char>,
)
    ensures
        v.outcome is None ==> match after_generation(v, g).outcome {
            Some(o) => o.candidate is None,
            None => true,
        },
        v.outcome is None ==> match after_verification(v, r, hash, structured).outcome {
            Some(o) => o.candidate is Some ==> verify::passed(r) && o.candidate == Some(
                v.candidate,
            ) && o.hash == Some(hash),
            None => true,
        },
{
}

} // verus!
