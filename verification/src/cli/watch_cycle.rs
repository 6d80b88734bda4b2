//! One cycle of watching: run the command, repair what fails, run it again.
use crate::cli::watch;
use crate::cli::watch::{
    classify_rust_repair_command, ResultView, RustRepairMode, RustRepairTarget, WatchCommandResult,
};
use crate::text::chars;
use crate::text::chars::{concat2, own};
use crate::text::split;
use crate::text::split::join;
use crate::verification::secrets;
use crate::verification::secrets::{redact_secrets, EnvValue, Masking};
use vstd::prelude::*;
use vstd::string::*;

verus! {

/// How a cycle ended.
#[derive(Debug, Clone, Copy, PartialEq, Eq, Structural)]
pub enum WatchDecision {
    PassedWithoutRepair,
    FailedWithoutRepair,
    RepairedAndVerified,
    RepairAppliedButCommandStillFailing,
    RepairNotApplied,
    RepairFlowFailed,
    RepairNotSupported,
}

/// The name of a decision.
pub open spec fn decision_name(d: WatchDecision) -> Seq<char> {
    match d {
        WatchDecision::PassedWithoutRepair => "passed_without_repair"@,
        WatchDecision::FailedWithoutRepair => "failed_without_repair"@,
        WatchDecision::RepairedAndVerified => "repaired_and_verified"@,
        WatchDecision::RepairAppliedButCommandStillFailing =>
            "repair_applied_but_command_still_failing"@,
        WatchDecision::RepairNotApplied => "repair_not_applied"@,
        WatchDecision::RepairFlowFailed => "repair_flow_failed"@,
        WatchDecision::RepairNotSupported => "repair_not_supported"@,
    }
}

/// What is told of a decision.
pub open spec fn decision_headline(d: WatchDecision) -> Seq<char> {
    match d {
        WatchDecision::PassedWithoutRepair => "watch command passed without repair"@,
        WatchDecision::FailedWithoutRepair => "watch command failed without repair"@,
        WatchDecision::RepairedAndVerified => "verified repair"@,
        WatchDecision::RepairAppliedButCommandStillFailing =>
            "repair applied but watched command still failing"@,
        WatchDecision::RepairNotApplied => "repair produced no applied patch"@,
        WatchDecision::RepairFlowFailed => "repair flow failed"@,
        WatchDecision::RepairNotSupported => "repair not supported for watched command"@,
    }
}

/// Whether a cycle with the given end counts as a success.
pub open spec fn succeeded(d: WatchDecision) -> bool {
    d is PassedWithoutRepair || d is RepairedAndVerified
}

impl WatchDecision {
    /// The name of the decision.
    pub fn as_str(self) -> (r: &'static str)
        ensures
            r@ == decision_name(self),
    {
        match self {
            WatchDecision::PassedWithoutRepair => "passed_without_repair",
            WatchDecision::FailedWithoutRepair => "failed_without_repair",
            WatchDecision::RepairedAndVerified => "repaired_and_verified",
            WatchDecision::RepairAppliedButCommandStillFailing =>
                "repair_applied_but_command_still_failing",
            WatchDecision::RepairNotApplied => "repair_not_applied",
            WatchDecision::RepairFlowFailed => "repair_flow_failed",
            WatchDecision::RepairNotSupported => "repair_not_supported",
        }
    }
}

/// What is told of a decision.
pub fn watch_summary_headline(d: WatchDecision) -> (r: &'static str)
    ensures
        r@ == decision_headline(d),
{
    match d {
        WatchDecision::PassedWithoutRepair => "watch command passed without repair",
        WatchDecision::FailedWithoutRepair => "watch command failed without repair",
        WatchDecision::RepairedAndVerified => "verified repair",
        WatchDecision::RepairAppliedButCommandStillFailing =>
            "repair applied but watched command still failing",
        WatchDecision::RepairNotApplied => "repair produced no applied patch",
        WatchDecision::RepairFlowFailed => "repair flow failed",
        WatchDecision::RepairNotSupported => "repair not supported for watched command",
    }
}

/// Whether a cycle with the given end counts as a success.
pub fn watch_decision_succeeded(d: WatchDecision) -> (r: bool)
    ensures
        r == succeeded(d),
{
    match d {
        WatchDecision::PassedWithoutRepair | WatchDecision::RepairedAndVerified => true,
        _ => false,
    }
}

/// What came of a repair.
#[derive(Debug, Clone, PartialEq, Eq)]
pub struct WatchRepairRecord {
    pub supported: bool,
    pub verifier_command: Option<String>,
    pub fix_artifact_root: Option<String>,
    pub sandbox_run_root: Option<String>,
    pub accepted_steps: usize,
    pub rejected_steps: usize,
    pub verification_failures: usize,
    pub final_bundle_verified: bool,
    pub applied: bool,
    pub error: Option<String>,
}

/// What a [`WatchRepairRecord`] stands for.
#[verifier::ext_equal]
pub struct RepairView {
    pub supported: bool,
    pub verifier: Option<Seq<char>>,
    pub artifacts: Option<Seq<char>>,
    pub sandbox: Option<Seq<char>>,
    pub accepted: nat,
    pub rejected: nat,
    pub failures: nat,
    pub verified: bool,
    pub applied: bool,
    pub error: Option<Seq<char>>,
}

impl View for WatchRepairRecord {
    type V = RepairView;

    open spec fn view(&self) -> RepairView {
        RepairView {
            supported: self.supported,
            verifier: chars::opt_text(self.verifier_command),
            artifacts: chars::opt_text(self.fix_artifact_root),
            sandbox: chars::opt_text(self.sandbox_run_root),
            accepted: self.accepted_steps as nat,
            rejected: self.rejected_steps as nat,
            failures: self.verification_failures as nat,
            verified: self.final_bundle_verified,
            applied: self.applied,
            error: chars::opt_text(self.error),
        }
    }
}

/// A repair that ran to its end.
#[derive(Debug, Clone, PartialEq, Eq)]
pub struct FixReport {
    pub artifact_root: String,
    pub sandbox_run_root: Option<String>,
    pub accepted_steps: usize,
    pub rejected_steps: usize,
    pub verification_failures: usize,
    pub final_bundle_verified: bool,
    pub applied: bool,
}

/// What is recorded of a repair that ran to its end.
pub open spec fn finished_repair(verifier: Seq<char>, f: FixReport) -> RepairView {
    RepairView {
        supported: true,
        verifier: Some(verifier),
        artifacts: Some(f.artifact_root@),
        sandbox: chars::opt_text(f.sandbox_run_root),
        accepted: f.accepted_steps as nat,
        rejected: f.rejected_steps as nat,
        failures: f.verification_failures as nat,
        verified: f.final_bundle_verified,
        applied: f.applied,
        error: None,
    }
}

/// What is recorded of a repair that did not come to its end.
pub open spec fn failed_repair(supported: bool, verifier: Option<Seq<char>>, error: Seq<char>) ->
    RepairView {
    RepairView {
        supported,
        verifier,
        artifacts: None,
        sandbox: None,
        accepted: 0,
        rejected: 0,
        failures: 0,
        verified: false,
        applied: false,
        error: Some(error),
    }
}

/// Why a command is not repaired.
pub const UNSUPPORTED_REPAIR: &'static str =
    "auto-repair currently supports direct Rust verifier commands: cargo test, cargo check, cargo clippy";

fn repair_without_result(supported: bool, verifier_command: Option<String>, error: String) -> (r:
    WatchRepairRecord)
    ensures
        r@ == failed_repair(supported, chars::opt_text(verifier_command), error@),
{
    WatchRepairRecord {
        supported,
        verifier_command,
        fix_artifact_root: None,
        sandbox_run_root: None,
        accepted_steps: 0,
        rejected_steps: 0,
        verification_failures: 0,
        final_bundle_verified: false,
        applied: false,
        error: Some(error),
    }
}

/// One cycle of watching.
#[derive(Debug)]
pub struct WatchCycle {
    /// The watched command.
    pub command: String,
    /// Whether failures are to be repaired.
    pub repair_requested: bool,
    pub initial_run: Option<WatchCommandResult>,
    pub target: Option<RustRepairTarget>,
    pub repair: Option<WatchRepairRecord>,
    pub confirmation_run: Option<WatchCommandResult>,
    pub decision: Option<WatchDecision>,
}

/// What a [`WatchCycle`] stands for.
#[verifier::ext_equal]
pub struct CycleView {
    pub command: Seq<char>,
    pub repair_requested: bool,
    pub initial: Option<ResultView>,
    pub target: Option<(Seq<char>, RustRepairMode)>,
    pub repair: Option<RepairView>,
    pub confirmation: Option<ResultView>,
    pub decision: Option<WatchDecision>,
}

/// What an optional run stands for.
pub open spec fn opt_result(r: Option<WatchCommandResult>) -> Option<ResultView> {
    match r {
        Some(x) => Some(x@),
        None => None,
    }
}

/// What an optional record stands for.
pub open spec fn opt_repair(r: Option<WatchRepairRecord>) -> Option<RepairView> {
    match r {
        Some(x) => Some(x@),
        None => None,
    }
}

impl View for WatchCycle {
    type V = CycleView;

    open spec fn view(&self) -> CycleView {
        CycleView {
            command: self.command@,
            repair_requested: self.repair_requested,
            initial: opt_result(self.initial_run),
            target: watch::target_view(self.target),
            repair: opt_repair(self.repair),
            confirmation: opt_result(self.confirmation_run),
            decision: self.decision,
        }
    }
}

/// What a cycle does next.
#[derive(Debug, Clone, Copy, PartialEq, Eq, Structural)]
pub enum WatchAction {
    /// Run the command.
    Run,
    /// Repair what the command reports.
    Repair,
    /// Run the command once more.
    Confirm,
    /// Nothing: the cycle is over.
    Finish,
}

/// A cycle before anything ran.
pub open spec fn fresh(parts: Seq<Seq<char>>, repair_requested: bool) -> CycleView {
    CycleView {
        command: split::joined(parts, " "@),
        repair_requested,
        initial: None,
        target: None,
        repair: None,
        confirmation: None,
        decision: None,
    }
}

/// What a cycle does next.
pub open spec fn next_action(c: CycleView) -> WatchAction {
    if c.decision is Some {
        WatchAction::Finish
    } else if c.initial is None {
        WatchAction::Run
    } else if c.repair is None {
        WatchAction::Repair
    } else {
        WatchAction::Confirm
    }
}

/// The cycle after the command ran first.
pub open spec fn after_run(c: CycleView, r: ResultView) -> CycleView {
    let ran = CycleView { initial: Some(r), ..c };
    if r.success {
        CycleView { decision: Some(WatchDecision::PassedWithoutRepair), ..ran }
    } else if !c.repair_requested {
        CycleView { decision: Some(WatchDecision::FailedWithoutRepair), ..ran }
    } else {
        match watch::repair_target(c.command) {
            Some(t) => CycleView { target: Some(t), ..ran },
            None => CycleView {
                repair: Some(failed_repair(false, None, UNSUPPORTED_REPAIR@)),
                decision: Some(WatchDecision::RepairNotSupported),
                ..ran
            },
        }
    }
}

/// The cycle after a repair.
pub open spec fn after_repair(
    c: CycleView,
    outcome: Result<FixReport, String>,
    env: Seq<(Seq<char>, Seq<char>)>,
) -> CycleView {
    let verifier = secrets::masked(Masking::Lines, c.target.unwrap().0, env);
    match outcome {
        Ok(f) => CycleView { repair: Some(finished_repair(verifier, f)), ..c },
        Err(e) => CycleView {
            repair: Some(
                failed_repair(true, Some(verifier), secrets::masked(Masking::Lines, e@, env)),
            ),
            decision: Some(WatchDecision::RepairFlowFailed),
            ..c
        },
    }
}

/// The cycle after the command ran once more.
pub open spec fn after_confirmation(c: CycleView, r: ResultView) -> CycleView {
    CycleView {
        confirmation: Some(r),
        decision: Some(
            if r.success {
                WatchDecision::RepairedAndVerified
            } else if c.repair.unwrap().applied {
                WatchDecision::RepairAppliedButCommandStillFailing
            } else {
                WatchDecision::RepairNotApplied
            },
        ),
        ..c
    }
}

/// What holds of every cycle: it repairs only what failed, and confirms only what it repaired.
pub open spec fn is_cycle(c: CycleView) -> bool {
    &&& c.initial is None ==> c.target is None && c.repair is None && c.confirmation is None
        && c.decision is None
    &&& c.decision is None && c.initial is Some ==> !c.initial.unwrap().success
        && c.repair_requested && c.target is Some && c.confirmation is None
    &&& c.target is Some ==> c.target == watch::repair_target(c.command)
        && !c.initial.unwrap().success
    &&& c.confirmation is Some ==> c.repair is Some && c.target is Some
    &&& c.repair is Some ==> c.repair_requested && !c.initial.unwrap().success
    &&& match c.decision {
        None => true,
        Some(WatchDecision::PassedWithoutRepair) => c.initial.unwrap().success
            && c.confirmation is None,
        Some(WatchDecision::RepairedAndVerified) => c.confirmation is Some
            && c.confirmation.unwrap().success,
        Some(
            WatchDecision::RepairAppliedButCommandStillFailing | WatchDecision::RepairNotApplied,
        ) => c.confirmation is Some && !c.confirmation.unwrap().success,
        Some(_) => !c.initial.unwrap().success && c.confirmation is None,
    }
}

impl WatchCycle {
    /// A cycle before anything ran.
    pub fn new(command_parts: &[String], repair_requested: bool) -> (r: WatchCycle)
        ensures
            r@ == fresh(chars::texts(command_parts@), repair_requested),
            is_cycle(r@),
    {
        WatchCycle {
            command: join(command_parts, " "),
            repair_requested,
            initial_run: None,
            target: None,
            repair: None,
            confirmation_run: None,
            decision: None,
        }
    }

    /// What the cycle does next.
    pub fn action(&self) -> (r: WatchAction)
        ensures
            r == next_action(self@),
    {
        if self.decision.is_some() {
            WatchAction::Finish
        } else if self.initial_run.is_none() {
            WatchAction::Run
        } else if self.repair.is_none() {
            WatchAction::Repair
        } else {
            WatchAction::Confirm
        }
    }

    /// Takes what the first run of the command gave.
    pub fn ran(&mut self, result: WatchCommandResult)
        requires
            is_cycle(old(self)@),
            next_action(old(self)@) is Run,
        ensures
            final(self)@ == after_run(old(self)@, result@),
            is_cycle(final(self)@),
    {
        let success = result.success;
        self.initial_run = Some(result);
        if success {
            self.decision = Some(WatchDecision::PassedWithoutRepair);
        } else if !self.repair_requested {
            self.decision = Some(WatchDecision::FailedWithoutRepair);
        } else {
            match classify_rust_repair_command(self.command.as_str()) {
                Some(t) => {
                    self.target = Some(t);
                },
                None => {
                    self.repair = Some(
                        repair_without_result(false, None, own(UNSUPPORTED_REPAIR)),
                    );
                    self.decision = Some(WatchDecision::RepairNotSupported);
                },
            }
        }
    }

    /// Takes what the repair gave.
    pub fn repaired(&mut self, outcome: Result<FixReport, String>, env: &[EnvValue])
        requires
            is_cycle(old(self)@),
            next_action(old(self)@) is Repair,
        ensures
            final(self)@ == after_repair(old(self)@, outcome, secrets::env_view(env@)),
            is_cycle(final(self)@),
    {
        let verifier = match &self.target {
            Some(t) => redact_secrets(t.verifier_command.as_str(), env),
            None => String::new(),
        };
        match outcome {
            Ok(f) => {
                self.repair = Some(
                    WatchRepairRecord {
                        supported: true,
                        verifier_command: Some(verifier),
                        fix_artifact_root: Some(f.artifact_root),
                        sandbox_run_root: f.sandbox_run_root,
                        accepted_steps: f.accepted_steps,
                        rejected_steps: f.rejected_steps,
                        verification_failures: f.verification_failures,
                        final_bundle_verified: f.final_bundle_verified,
                        applied: f.applied,
                        error: None,
                    },
                );
            },
            Err(e) => {
                self.repair = Some(
                    repair_without_result(true, Some(verifier), redact_secrets(e.as_str(), env)),
                );
                self.decision = Some(WatchDecision::RepairFlowFailed);
            },
        }
    }

    /// Takes what the second run of the command gave.
    pub fn confirmed(&mut self, result: WatchCommandResult)
        requires
            is_cycle(old(self)@),
            next_action(old(self)@) is Confirm,
        ensures
            final(self)@ == after_confirmation(old(self)@, result@),
            is_cycle(final(self)@),
    {
        let applied = match &self.repair {
            Some(r) => r.applied,
            None => false,
        };
        self.decision = Some(
            if result.success {
                WatchDecision::RepairedAndVerified
            } else if applied {
                WatchDecision::RepairAppliedButCommandStillFailing
            } else {
                WatchDecision::RepairNotApplied
            },
        );
        self.confirmation_run = Some(result);
    }
}

/// A cycle counts as a success exactly if the command succeeded when it ran last.
pub proof fn law_success_means_last_run_succeeded(c: CycleView)
    requires
        is_cycle(c),
        c.decision is Some,
    ensures
        succeeded(c.decision.unwrap()) <==> match c.confirmation {
            Some(r) => r.success,
            None => c.initial.unwrap().success,
        },
{
}

/// How many steps a cycle has before it.
pub open spec fn steps_left(c: CycleView) -> nat {
    match next_action(c) {
        WatchAction::Run => 3,
        WatchAction::Repair => 2,
        WatchAction::Confirm => 1,
        WatchAction::Finish => 0,
    }
}

/// Every step brings a cycle nearer to its end: it runs the command at most twice and repairs
/// at most once.
pub proof fn law_cycles_end(
    c: CycleView,
    r: ResultView,
    outcome: Result<FixReport, String>,
    env: Seq<(Seq<char>, Seq<char>)>,
)
    requires
        is_cycle(c),
    ensures
        next_action(c) is Run ==> steps_left(after_run(c, r)) < steps_left(c),
        next_action(c) is Repair ==> steps_left(after_repair(c, outcome, env)) < steps_left(c),
        next_action(c) is Confirm ==> steps_left(after_confirmation(c, r)) < steps_left(c),
{
}

/// A cycle repairs only where a repair was asked for and the command failed, and only plain
/// Rust verifiers.
pub proof fn law_only_requested_repairs_run(c: CycleView)
    requires
        is_cycle(c),
        next_action(c) is Repair,
    ensures
        c.repair_requested,
        !c.initial.unwrap().success,
        watch::repair_target(c.command) is Some,
{
}

/// What a cycle records of a command that fails again after the repair: that the repair was
/// applied if it was, and else that it was not.
pub proof fn law_failed_confirmation_tells_whether_applied(c: CycleView, r: ResultView)
    requires
        is_cycle(c),
        next_action(c) is Confirm,
        !r.success,
    ensures
        after_confirmation(c, r).decision is Some,
        after_confirmation(c, r).decision.unwrap() is RepairAppliedButCommandStillFailing
            <==> c.repair.unwrap().applied,
        after_confirmation(c, r).decision.unwrap() is RepairNotApplied
            <==> !c.repair.unwrap().applied,
        after_confirmation(c, r).repair == c.repair,
{
}

/// A command that succeeds after the repair makes the cycle repaired and verified; no cycle is
/// that in any other way.
pub proof fn law_repaired_means_confirmed(c: CycleView, r: ResultView)
    requires
        is_cycle(c),
        next_action(c) is Confirm,
    ensures
        after_confirmation(c, r).decision.unwrap() is RepairedAndVerified <==> r.success,
        after_confirmation(c, r).confirmation == Some(r),
        after_confirmation(c, r).initial == c.initial,
{
}

/// After its first run a cycle is over exactly if the command succeeded, no repair was asked
/// for, or the command is none that can be repaired; and it says which of these holds.
pub proof fn law_first_run_decides(c: CycleView, r: ResultView)
    requires
        is_cycle(c),
        next_action(c) is Run,
    ensures
        ({
            let after = after_run(c, r);
            let repairable = watch::repair_target(c.command) is Some;
            &&& after.initial == Some(r)
            &&& after.confirmation is None
            &&& next_action(after) is Repair <==> !r.success && c.repair_requested && repairable
            &&& next_action(after) is Finish <==> r.success || !c.repair_requested || !repairable
            &&& after.decision == Some(WatchDecision::PassedWithoutRepair) <==> r.success
            &&& after.decision == Some(WatchDecision::FailedWithoutRepair) <==> !r.success
                && !c.repair_requested
            &&& after.decision == Some(WatchDecision::RepairNotSupported) <==> !r.success
                && c.repair_requested && !repairable
            &&& after.decision == Some(WatchDecision::RepairNotSupported) ==> {
                &&& after.repair is Some
                &&& !after.repair.unwrap().supported
                &&& !after.repair.unwrap().applied
            }
            &&& after.decision == Some(WatchDecision::PassedWithoutRepair) ==> after.repair is None
            &&& after.decision == Some(WatchDecision::FailedWithoutRepair) ==> after.repair is None
        }),
{
}

/// A repair that ran to its end is confirmed next, and recorded with what it reported; one that
/// broke off ends the cycle, and nothing counts as applied.
pub proof fn law_repairs_are_recorded(
    c: CycleView,
    outcome: Result<FixReport, String>,
    env: Seq<(Seq<char>, Seq<char>)>,
)
    requires
        is_cycle(c),
        next_action(c) is Repair,
    ensures
        ({
            let after = after_repair(c, outcome, env);
            &&& after.repair is Some
            &&& after.repair.unwrap().supported
            &&& after.initial == c.initial
            &&& outcome is Ok ==> {
                let f = outcome.unwrap();
                let record = after.repair.unwrap();
                &&& next_action(after) is Confirm
                &&& record.applied == f.applied
                &&& record.verified == f.final_bundle_verified
                &&& record.accepted == f.accepted_steps
                &&& record.rejected == f.rejected_steps
                &&& record.failures == f.verification_failures
                &&& record.artifacts == Some(f.artifact_root@)
                &&& record.error is None
            }
            &&& outcome is Err ==> {
                &&& next_action(after) is Finish
                &&& after.decision == Some(WatchDecision::RepairFlowFailed)
                &&& !after.repair.unwrap().applied
                &&& !after.repair.unwrap().verified
                &&& after.repair.unwrap().error is Some
            }
        }),
{
}

/// What watching does after a cycle.
#[derive(Debug, Clone, PartialEq, Eq)]
pub enum WatchStep {
    /// Wait until a file changes, then run another cycle.
    WaitForChange,
    /// End well.
    Stop,
    /// End with an error.
    Fail(String),
}

/// What watching does after a cycle: it goes on unless nobody watches.
pub open spec fn step_after(continuous: bool, d: WatchDecision, root: Seq<char>) -> Option<
    Result<(), Seq<char>>,
> {
    if continuous {
        None
    } else if succeeded(d) {
        Some(Ok(()))
    } else {
        Some(
            Err(
                "watch cycle failed: decision="@ + decision_name(d) + " artifact="@ + root,
            ),
        )
    }
}

/// What a step stands for.
pub open spec fn step_view(s: WatchStep) -> Option<Result<(), Seq<char>>> {
    match s {
        WatchStep::WaitForChange => None,
        WatchStep::Stop => Some(Ok(())),
        WatchStep::Fail(e) => Some(Err(e@)),
    }
}

/// What watching does after a cycle: it goes on unless nobody watches.
pub fn after_watch_cycle(continuous: bool, decision: WatchDecision, artifact_root: &str) -> (r:
    WatchStep)
    ensures
        step_view(r) == step_after(continuous, decision, artifact_root@),
{
    if continuous {
        return WatchStep::WaitForChange;
    }
    if watch_decision_succeeded(decision) {
        return WatchStep::Stop;
    }
    let mut e = concat2("watch cycle failed: decision=", decision.as_str());
    e.append(" artifact=");
    e.append(artifact_root);
    WatchStep::Fail(e)
}

/// Watching goes on while someone watches; else it ends well exactly if the cycle succeeded,
/// and otherwise with an error that names the decision and the artifacts.
pub proof fn law_watching_ends_as_its_last_cycle(d: WatchDecision, root: Seq<char>)
    ensures
        step_after(true, d, root) is None,
        step_after(false, d, root) is Some,
        step_after(false, d, root).unwrap() is Ok <==> d is PassedWithoutRepair
            || d is RepairedAndVerified,
        step_after(false, d, root).unwrap() matches Err(e) ==> crate::text::find::has_suffix(
            e,
            root,
        ) && crate::text::find::has_text(e, decision_name(d)),
{
    if let Some(Err(e)) = step_after(false, d, root) {
        let head = "watch cycle failed: decision="@;
        let name = decision_name(d);
        assert(e.subrange(e.len() - root.len(), e.len() as int) =~= root);
        assert(e.subrange(head.len() as int, head.len() as int + name.len()) =~= name);
        assert(crate::text::find::occurs_at(e, name, head.len() as int));
    }
}

} // verus!
