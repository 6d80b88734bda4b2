use mercury_cli::api::types::{ApiError, ApiUsage, PLANNER_RESPONSE_SCHEMA_NAME};
use mercury_cli::db::ThermalAggregate;
use mercury_cli::engine::apply::{
    content_hash, file_lock, replaced_locks, rollback_atomic_targets, ExecutionTelemetry,
    StagedWrite,
};
use mercury_cli::engine::batch::{
    build_dispatch_batch, candidate_fanout, group_steps, DispatchTarget, FileExecutionState,
    IndexedPlanStep, PlanStep,
};
use mercury_cli::engine::candidate::{
    CandidateFailureStage, CandidateOutcome, CandidateSource, ChangeFootprint,
};
use mercury_cli::engine::error::EngineError;
use mercury_cli::engine::history::{
    build_retry_history, build_seed_history, candidate_agent_id, candidate_directory,
    join_verification_errors, sanitize_path_component, step_directory,
};
use mercury_cli::engine::patcher::Patcher;
use mercury_cli::engine::plan::{BundleAction, PlanAction, PlanRun, Planner, PlannerResponse};
use mercury_cli::engine::scheduler::{planned_heat, FileHeat, Scheduler, SchedulerConfig};
use mercury_cli::engine::settings::VerifyConfig;
use mercury_cli::engine::settle::{phase_temperature, settle_step};
use mercury_cli::engine::summary::{merge_min_duration, StepExecutionSummary};
use mercury_cli::engine::targets::dispatch_targets;
use mercury_cli::engine::variant::{Generation, VariantAction, VariantRun, VariantStage};
use mercury_cli::engine::verify::{
    admit_command, check_parse, command_result, FileState, VerifierCommandResult, VerifyAction,
    VerifyEvent, VerifyResult, VerifyRun,
};
use mercury_cli::failure_parser::{CargoCommandKind, FailureStage};
use mercury_cli::json::Json;
use mercury_cli::score::Score;
use mercury_cli::swarm::monitor::DensityController;
use mercury_cli::thermal::ExecutionPhase;

fn config(test: Option<&str>, lint: Option<&str>, critique: bool) -> VerifyConfig {
    VerifyConfig {
        parse_before_write: true,
        test_after_write: test.is_some(),
        lint_after_write: lint.is_some(),
        mercury2_critique_on_failure: critique,
        test_command: test.unwrap_or("true").to_string(),
        lint_command: lint.unwrap_or("true").to_string(),
    }
}

fn result(test_ok: bool, critique: Option<&str>) -> VerifyResult {
    VerifyResult {
        parse_ok: true,
        test_ok,
        lint_ok: true,
        critique: critique.map(str::to_string),
        command_results: vec![],
        errors: if test_ok {
            vec![]
        } else {
            vec!["tests failed: boom".to_string()]
        },
    }
}

fn ran(command: &str, success: bool, stderr: &str) -> VerifierCommandResult {
    let parts: Vec<String> = command.split(' ').map(str::to_string).collect();
    command_result(
        command,
        &parts,
        success,
        Some(if success { 0 } else { 1 }),
        String::new(),
        stderr.to_string(),
    )
}

fn step(file: &str, priority: f64) -> PlanStep {
    PlanStep {
        file_path: file.to_string(),
        instruction: format!("change {file}"),
        priority: priority.to_bits(),
        estimated_tokens: 10,
    }
}

fn outcome(agent: &str, hash: Option<&str>, touched: usize) -> CandidateOutcome {
    CandidateOutcome {
        agent_id: agent.to_string(),
        log_id: touched as i64,
        sandbox_root: format!("/tmp/{agent}"),
        source: CandidateSource::ApplyEdit,
        candidate: hash.map(|hash| format!("content {hash}")),
        retry_attempts: 0,
        total_tokens: 5,
        total_cost: 7,
        verification_errors: vec![],
        state_hash: hash.map(str::to_string),
        change_footprint: ChangeFootprint {
            touched_lines: touched,
            byte_delta: 0,
        },
        failure_stage: match hash {
            Some(_) => None,
            None => Some(CandidateFailureStage::Verification),
        },
        reason: None,
    }
}

fn text_at<'a>(value: &'a Json, key: &str) -> &'a str {
    match value {
        Json::Object(fields) => match fields.iter().find(|(name, _)| name == key) {
            Some((_, Json::Text(text))) => text,
            Some((_, Json::Number(text))) => text,
            other => panic!("no text under {key}: {other:?}"),
        },
        other => panic!("no object: {other:?}"),
    }
}

#[test]
fn test_planner_sets_estimated_cost_from_usage() {
    let planner = Planner::new("constitution".to_string());
    let plan = planner
        .accept(
            PlannerResponse {
                schema_version: PLANNER_RESPONSE_SCHEMA_NAME.to_string(),
                steps: vec![PlanStep {
                    file_path: "src/main.rs".to_string(),
                    instruction: "Do thing".to_string(),
                    priority: 0.9f64.to_bits(),
                    estimated_tokens: 150,
                }],
            },
            ApiUsage {
                tokens_used: 321,
                cost_nanos: 12_300_000,
            },
        )
        .unwrap();
    assert!(plan.estimated_cost > 0);
    assert_eq!(plan.estimated_cost, 12_300_000);
    assert_eq!(plan.estimated_tokens, Some(321));
    assert_eq!(plan.constitutional_prompt, "constitution");
    assert_eq!(
        planner.user_prompt("goal", "repo"),
        "Goal: goal\n\nRepository Map:\nrepo"
    );
    assert!(planner.system_prompt().ends_with("\n\nconstitution"));
}

#[test]
fn plans_of_another_schema_are_refused() {
    let planner = Planner::new(String::new());
    let refused = planner.accept(
        PlannerResponse {
            schema_version: "planner-response-v0".to_string(),
            steps: vec![],
        },
        ApiUsage::default(),
    );
    match refused {
        Err(ApiError::SchemaViolation(message)) => assert_eq!(
            message,
            "expected schema_version planner-response-v1, got planner-response-v0"
        ),
        other => panic!("unexpected: {:?}", other.map(|plan| plan.steps.len())),
    }
}

#[test]
fn test_run_command_rejects_shell_composition() {
    let err = match admit_command("printf '%s' 'hello shell' | cat") {
        Ok(admitted) => panic!(
            "expected shell-composition rejection, got command={}",
            admitted.command
        ),
        Err(err) => err,
    };
    assert!(
        err.to_string().contains("command not allowlisted"),
        "unexpected error: {}",
        err.to_string()
    );
}

#[test]
fn commands_have_to_say_something() {
    for (command, reason) in [("   ", "empty command"), ("cargo\0test", "command contains NUL byte")] {
        match admit_command(command) {
            Err(EngineError::VerificationFailed { reason: said }) => assert_eq!(said, reason),
            other => panic!("unexpected: {}", other.is_ok()),
        }
    }
    let admitted = admit_command("  cargo test --quiet ").unwrap();
    assert_eq!(admitted.command, "cargo test --quiet");
    assert_eq!(admitted.invocation.program, "cargo");
    assert_eq!(admitted.invocation.args, ["test", "--quiet"]);
}

#[test]
fn test_verify_captures_structured_cargo_failures() {
    let mut run = VerifyRun::of_file(
        &config(Some("cargo test"), None, false),
        "src/lib.rs",
        "pub fn ok() {}\n",
        false,
    );
    assert!(matches!(run.action(), VerifyAction::Write));
    run.advance(VerifyEvent::Written);
    let command = match run.action() {
        VerifyAction::Run(command) => command,
        _ => panic!("the tests have to run"),
    };
    let admitted = admit_command(&command).unwrap();
    run.advance(VerifyEvent::Ran(command_result(
        &admitted.command,
        &admitted.parts,
        false,
        Some(1),
        "running 1 test\ntest tests::broken ... FAILED\n".to_string(),
        " --> src/lib.rs:7:9\nassertion `left == right` failed\n".to_string(),
    )));
    assert!(matches!(run.action(), VerifyAction::Finish));
    let verify = run.result;

    assert!(!verify.test_ok);
    assert_eq!(verify.command_results.len(), 1);
    let command = &verify.command_results[0];
    assert!(!command.success);
    let parsed = command.parsed_failure.as_ref().unwrap();
    assert_eq!(parsed.command, CargoCommandKind::Test);
    assert_eq!(parsed.stage, FailureStage::Test);
    assert_eq!(parsed.failures.len(), 1);
    assert_eq!(parsed.failures[0].error_class, "test.assertion");
    assert_eq!(
        parsed.failures[0].target.file_path.as_deref(),
        Some("src/lib.rs")
    );
    assert_eq!(parsed.failures[0].target.line, Some(7));
    assert_eq!(parsed.failures[0].target.column, Some(9));
    assert_eq!(
        parsed.failures[0].target.symbol.as_deref(),
        Some("tests::broken")
    );
}

#[test]
fn sources_that_do_not_parse_fail() {
    assert!(check_parse("src/lib.rs", "fn main() {}\n"));
    assert!(!check_parse("src/lib.rs", "fn main( {\n"));
    assert!(check_parse("notes.txt", "fn main( {\n"));

    let run = VerifyRun::of_file(
        &config(None, None, false),
        "src/lib.rs",
        "fn main( {\n",
        true,
    );
    assert!(!run.result.is_ok());
    assert_eq!(run.result.errors, ["tree-sitter parse produced errors"]);
}

#[test]
fn verification_runs_test_lint_and_critique() {
    let mut run = VerifyRun::of_workspace(
        &config(Some("cargo test"), Some("cargo clippy"), true),
        &[FileState {
            path: "src/lib.rs".to_string(),
            content: "fn a() {}\n".to_string(),
        }],
        true,
    );
    assert!(matches!(run.action(), VerifyAction::Run(command) if command == "cargo test"));
    run.advance(VerifyEvent::Ran(ran("cargo test", true, "")));
    assert!(matches!(run.action(), VerifyAction::Run(command) if command == "cargo clippy"));
    run.advance(VerifyEvent::NotRun("not found".to_string()));
    match run.action() {
        VerifyAction::Ask { user, .. } => {
            assert!(user.contains("// src/lib.rs\nfn a() {}\n"));
            assert!(user.contains("not found"));
        }
        _ => panic!("a critique is due"),
    }
    run.advance(VerifyEvent::Critique(Some("install it".to_string())));
    assert!(matches!(run.action(), VerifyAction::Finish));
    assert!(!run.result.lint_ok);
    assert_eq!(run.result.critique.as_deref(), Some("install it"));
    assert_eq!(run.result.command_results.len(), 1);
}

#[test]
fn failures_are_summed_up_by_their_output() {
    assert_eq!(ran("cargo test", false, " boom \n").failure_summary(), "boom");
    assert_eq!(
        ran("cargo test", false, "").failure_summary(),
        "command exited with status 1"
    );
}

fn variant(index: usize) -> VariantRun {
    VariantRun::new(
        "agent".to_string(),
        3,
        index,
        "/run/candidate".to_string(),
        "src/lib.rs".to_string(),
        "fn a() {}\n".to_string(),
        "rename it".to_string(),
        "seed".to_string(),
    )
}

fn made(text: &str) -> Generation {
    Generation::Made {
        text: text.to_string(),
        tokens: 10,
        cost: 20,
    }
}

#[test]
fn verified_candidates_come_out() {
    let mut run = variant(0);
    match run.action() {
        VariantAction::Patch {
            original,
            instruction,
        } => {
            assert_eq!(original, "fn a() {}\n");
            assert_eq!(instruction, "rename it");
        }
        _ => panic!("the first candidate applies the instruction"),
    }
    run.generated(made("fn b() {}\n"));
    match run.action() {
        VariantAction::Verify {
            root,
            content,
            may_ask,
        } => {
            assert_eq!(root, "/run/candidate/attempt-1");
            assert_eq!(content, "fn b() {}\n");
            assert!(may_ask);
        }
        _ => panic!("the candidate has to be verified"),
    }
    run.verified(result(true, None), "hash", "[]");
    let outcome = run.outcome.unwrap();
    assert_eq!(outcome.candidate.as_deref(), Some("fn b() {}\n"));
    assert_eq!(outcome.state_hash.as_deref(), Some("hash"));
    assert_eq!(outcome.source, CandidateSource::ApplyEdit);
    assert_eq!((outcome.total_tokens, outcome.total_cost), (10, 20));
    assert_eq!(outcome.change_footprint.touched_lines, 2);
    assert_eq!(outcome.change_footprint.byte_delta, 0);
}

#[test]
fn criticized_candidates_are_tried_once_more() {
    let mut run = variant(0);
    run.generated(made("fn b() {}\n"));
    run.verified(result(false, Some("use c")), "hash", "[]");
    match run.action() {
        VariantAction::NextEdit {
            path,
            content,
            history,
        } => {
            assert_eq!(path, "src/lib.rs");
            assert_eq!(content, "fn b() {}\n");
            assert!(history.starts_with("seed\n\noriginal_instruction:\nrename it"));
            assert!(history.ends_with("critique:\nuse c"));
        }
        _ => panic!("a critique leads to a retry"),
    }
    run.generated(made("fn c() {}\n"));
    assert!(matches!(
        run.action(),
        VariantAction::Verify { root, may_ask: false, .. } if root == "/run/candidate/attempt-2"
    ));
    run.verified(result(false, Some("again")), "hash", "[]");
    assert_eq!(run.stage, VariantStage::Finished);
    let outcome = run.outcome.unwrap();
    assert_eq!(outcome.candidate, None);
    assert_eq!(outcome.retry_attempts, 1);
    assert_eq!(outcome.source, CandidateSource::CritiqueRetry);
    assert_eq!(outcome.total_tokens, 20);
    assert_eq!(
        outcome.failure_stage,
        Some(CandidateFailureStage::Verification)
    );
    assert_eq!(outcome.reason.as_deref(), Some("tests failed: boom"));
}

#[test]
fn failed_requests_end_a_candidate() {
    let mut run = variant(1);
    assert!(matches!(
        run.action(),
        VariantAction::NextEdit { history, .. } if history == "seed"
    ));
    run.generated(Generation::Failed("no answer".to_string()));
    let outcome = run.outcome.unwrap();
    assert_eq!(outcome.source, CandidateSource::ExploratoryNextEdit);
    assert_eq!(
        outcome.failure_stage,
        Some(CandidateFailureStage::Generation)
    );
    assert_eq!(
        outcome.reason.as_deref(),
        Some("patch generation failed: no answer")
    );
}

#[test]
fn blank_candidates_are_unsafe() {
    let mut run = variant(0);
    run.generated(made("  \n"));
    let outcome = run.outcome.unwrap();
    assert_eq!(outcome.failure_stage, Some(CandidateFailureStage::Safety));
    assert!(outcome
        .reason
        .unwrap()
        .starts_with("apply_edit candidate rejected: "));
}

#[test]
fn settled_steps_accept_the_preferred_new_candidate() {
    let result = settle_step(
        "src/lib.rs",
        vec![
            outcome("a", Some("seen"), 1),
            outcome("b", Some("new"), 4),
            outcome("c", Some("new"), 3),
            outcome("d", Some("other"), 9),
            outcome("e", None, 2),
        ],
        &["seen".to_string()],
        ExecutionPhase::Resolution,
        5,
        42,
    );
    let winner = result.winner.unwrap();
    assert_eq!(winner.agent_id, "c");
    assert_eq!(winner.state_hash, "new");
    assert_eq!(winner.content, "content new");
    assert_eq!(result.summary.accepted, 1);
    assert_eq!(result.summary.rejected, 4);
    assert_eq!(result.summary.verification_failures, 1);
    assert_eq!(result.summary.time_to_first_candidate_ms, Some(42));
    assert_eq!(result.updates.len(), 5);
    let reason_of = |log_id: i64| {
        let update = result
            .updates
            .iter()
            .find(|update| update.log_id == log_id)
            .unwrap();
        match update.status.as_str() {
            "success" => text_at(&update.metadata, "outcome").to_string(),
            _ => text_at(&update.metadata, "reason").to_string(),
        }
    };
    assert_eq!(
        reason_of(1),
        "oscillation suppressed: candidate matches a previously accepted file state"
    );
    assert_eq!(reason_of(4), "duplicate verified candidate output");
    assert_eq!(reason_of(3), "accepted");
    assert_eq!(reason_of(9), "lower-ranked competing candidate");
}

#[test]
fn steps_without_candidates_have_no_winner() {
    let result = settle_step(
        "src/lib.rs",
        vec![outcome("e", None, 2)],
        &[],
        ExecutionPhase::Scaffolding,
        1,
        42,
    );
    assert!(result.winner.is_none());
    assert_eq!(result.summary.accepted, 0);
    assert_eq!(result.summary.time_to_first_candidate_ms, None);
    assert_eq!(text_at(&result.updates[0].metadata, "phase"), "Scaffolding");
}

#[test]
fn phases_have_their_temperatures() {
    let of = |phase| phase_temperature(phase).parse::<f64>().unwrap();
    assert!(of(ExecutionPhase::Scaffolding) > 0.0);
    assert!(of(ExecutionPhase::Annealing) <= of(ExecutionPhase::Resolution));
}

#[test]
fn names_are_numbered_from_one() {
    assert_eq!(candidate_agent_id(0, 1), "fix-step-0001-candidate-02");
    assert_eq!(candidate_directory(0), "candidate-01");
    assert_eq!(step_directory(11, "src/a b.rs"), "step-0012-src_a_b.rs");
    assert_eq!(sanitize_path_component("a\\b:c/d"), "a_b_c_d");
}

#[test]
fn histories_tell_what_went_wrong() {
    let seed = build_seed_history("src/a.rs", " one \n\n two", "0.500", ExecutionPhase::Resolution, 1);
    assert!(seed.contains("src/a.rs"));
    assert!(seed.contains("+ one\n+ two"));
    let empty = build_seed_history("src/a.rs", " \n", "0.500", ExecutionPhase::Resolution, 1);
    assert!(empty.contains("+ (no explicit instruction provided)"));

    assert_eq!(
        build_retry_history("do it", &result(false, None), "why", "[]"),
        "original_instruction:\ndo it\n\nverification_errors:\ntests failed: boom\n\ncritique:\nwhy"
    );
    let mut failing = result(true, None);
    failing
        .command_results
        .push(ran("cargo check", false, "error: broken\n"));
    assert!(build_retry_history("do it", &failing, "why", "[1]")
        .contains("structured_failures:\n[1]"));
    assert_eq!(
        join_verification_errors(&[]),
        "verification failed without structured errors"
    );
}

#[test]
fn plan_steps_are_grouped_by_file() {
    let groups = group_steps(&[step("b.rs", 0.1), step("a.rs", 0.2), step("b.rs", 0.3)]);
    assert_eq!(groups.len(), 2);
    assert_eq!(groups[0].file_key, "a.rs");
    assert_eq!(groups[1].file_key, "b.rs");
    let numbers: Vec<usize> = groups[1].steps.iter().map(|step| step.index).collect();
    assert_eq!(numbers, [0, 2]);
}

#[test]
fn fanout_follows_phase_and_density() {
    let controller = DensityController::new(4);
    let of = |phase, wanted, active| candidate_fanout(phase, 4, wanted, active, &controller);
    assert_eq!(of(ExecutionPhase::Scaffolding, 4, 0), 1);
    assert_eq!(of(ExecutionPhase::Resolution, 4, 0), 4);
    assert_eq!(of(ExecutionPhase::Resolution, 4, 3), 1);
    assert_eq!(of(ExecutionPhase::Annealing, 4, 0), 2);
    assert_eq!(of(ExecutionPhase::Resolution, 2, 0), 2);
}

fn state(file: &str, index: usize, priority: f64) -> FileExecutionState {
    FileExecutionState::new(
        file.to_string(),
        vec![IndexedPlanStep {
            index,
            step: step(file, priority),
        }],
        "old".to_string(),
        "hash".to_string(),
    )
}

#[test]
fn batches_follow_the_targets() {
    let states = [state("a.rs", 0, 0.9), state("b.rs", 0, 0.2)];
    assert_eq!(states[0].next_phase(), Some(ExecutionPhase::Annealing));
    let target = |file: &str, launch_now| DispatchTarget {
        file_path: file.to_string(),
        active_agents: 0,
        launchable_agents: 1,
        launch_now,
    };
    let batch = build_dispatch_batch(
        &states,
        &[2, 2],
        &[target("b.rs", true), target("a.rs", false)],
        ExecutionPhase::Annealing,
        2,
    );
    assert_eq!(batch.len(), 1);
    assert_eq!((batch[0].state, batch[0].fanout), (1, 1));

    let fallback = build_dispatch_batch(&states, &[2, 2], &[], ExecutionPhase::Annealing, 2);
    assert_eq!(fallback.len(), 1);
    assert_eq!(fallback[0].state, 0);

    let none = build_dispatch_batch(&states, &[2, 2], &[], ExecutionPhase::Scaffolding, 2);
    assert!(none.is_empty());
}

#[test]
fn plans_run_phase_by_phase() {
    let mut run = PlanRun::new(vec![state("a.rs", 0, 0.9)], "/run".to_string());
    assert_eq!(run.phase, ExecutionPhase::Scaffolding);
    assert!(run.next_batch(&[1], &[], 2).is_empty());
    run.end_phase();
    run.end_phase();
    assert_eq!(run.phase, ExecutionPhase::Annealing);
    let batch = run.next_batch(&[1], &[], 2);
    assert_eq!(batch.len(), 1);
    assert_eq!(run.next(batch.len()), PlanAction::Dispatch);
    let settled = settle_step(
        "a.rs",
        vec![outcome("x", Some("new"), 1)],
        &run.states[0].seen_hashes,
        run.phase,
        1,
        5,
    );
    run.absorb(0, settled);
    assert_eq!(run.states[0].latest_state, "content new");
    assert!(run.states[0].steps.is_empty());
    assert_eq!(run.states[0].seen_hashes, ["hash", "new"]);
    assert_eq!(run.next(0), PlanAction::EndPhase);
    run.end_phase();
    assert!(run.finished);
    assert_eq!(run.next(0), PlanAction::Bundle);
    let locks = run.accepted_locks("now");
    assert_eq!(locks.len(), 1);
    assert_eq!(locks[0].file_path, "a.rs");
    assert_eq!(locks[0].locked_by_agent, "x");
    assert_eq!(locks[0].locked_hash, content_hash("content new"));
    assert_eq!(run.after_bundle(&result(false, None)), BundleAction::Keep);
    assert_eq!(run.after_bundle(&result(true, None)), BundleAction::Apply);
    let files = run.accepted_files();
    assert_eq!(files.len(), 1);
    assert_eq!(
        (files[0].path.as_str(), files[0].content.as_str()),
        ("a.rs", "content new")
    );

    run.conclude(result(true, None), 99);
    assert!(run.summary.applied);
    assert!(run.summary.final_bundle_verified);
    assert_eq!(run.summary.time_to_verified_repair_ms, Some(99));
    assert_eq!(run.next(0), PlanAction::Done);
}

#[test]
fn bundles_that_fail_are_not_applied() {
    let mut run = PlanRun::new(vec![], "/run".to_string());
    run.conclude(result(false, None), 99);
    assert!(!run.summary.applied);
    assert_eq!(run.summary.verification_failures, 1);
    assert_eq!(run.summary.time_to_verified_repair_ms, None);
}

#[test]
fn summaries_add_up() {
    assert_eq!(merge_min_duration(Some(3), Some(2)), Some(2));
    assert_eq!(merge_min_duration(None, Some(2)), Some(2));
    let mut all = StepExecutionSummary::default();
    all.merge(StepExecutionSummary {
        accepted: 1,
        rejected: 2,
        time_to_first_candidate_ms: Some(7),
        applied: true,
        ..StepExecutionSummary::default()
    });
    all.merge(StepExecutionSummary {
        accepted: 1,
        time_to_first_candidate_ms: Some(4),
        ..StepExecutionSummary::default()
    });
    assert_eq!(all.total(), 4);
    assert_eq!(all.time_to_first_candidate_ms, Some(4));
    assert!(all.applied);
}

#[test]
fn budgets_stay_exceeded() {
    let mut scheduler = Scheduler::new(SchedulerConfig {
        max_cost_per_command: 1_000_000,
        ..Default::default()
    });
    scheduler.acquire();
    assert_eq!(scheduler.active_count(), 1);
    scheduler.release();
    match scheduler.record_cost(2_000_999) {
        Err(EngineError::BudgetExceeded { spent, limit }) => {
            assert_eq!((spent, limit), (2_000_000, 1_000_000));
        }
        other => panic!("unexpected: {other:?}"),
    }
    assert!(scheduler.record_cost(-5).is_err());
    assert_eq!(scheduler.budget_remaining(), -1_000_000);
    assert!(!scheduler.has_budget());
}

#[test]
fn planned_files_are_at_least_as_hot_as_their_step() {
    let score = |value: f64| Score::from_bits(value.to_bits());
    let fresh = planned_heat(None, score(1.5));
    assert_eq!(fresh.composite_score.rank, score(1.0).rank);
    let kept = planned_heat(
        Some(FileHeat {
            composite_score: score(0.8),
            max_score: score(0.1),
            agent_density: 3,
        }),
        score(0.5),
    );
    assert_eq!(kept.composite_score.rank, score(0.8).rank);
    assert_eq!(kept.max_score.rank, score(0.5).rank);
    assert_eq!(kept.agent_density, 3);
    let unknown = planned_heat(
        Some(FileHeat {
            composite_score: score(0.8),
            max_score: score(f64::NAN),
            agent_density: 0,
        }),
        score(f64::NAN),
    );
    assert_eq!(unknown.composite_score.rank, score(0.8).rank);
    assert!(!unknown.max_score.is_number());
    assert!(!planned_heat(None, score(f64::NAN)).composite_score.is_number());
}

#[test]
fn rolled_back_files_hold_what_they_held() {
    let staged = [
        StagedWrite {
            path: "a".to_string(),
            original: Some(b"old".to_vec()),
            content: b"new".to_vec(),
        },
        StagedWrite {
            path: "b".to_string(),
            original: None,
            content: b"new".to_vec(),
        },
        StagedWrite {
            path: "c".to_string(),
            original: None,
            content: b"new".to_vec(),
        },
    ];
    let steps = rollback_atomic_targets(&staged, 2);
    assert_eq!(steps.len(), 2);
    assert_eq!(steps[0].restore.as_deref(), Some(&b"old"[..]));
    assert_eq!(steps[1].path, "b");
    assert_eq!(steps[1].restore, None);
    assert!(rollback_atomic_targets(&staged, 0).is_empty());
}

#[test]
fn hashes_tell_contents_apart() {
    let hash = content_hash("fn a() {}");
    assert_eq!(hash.len(), 16);
    assert_eq!(hash, content_hash("fn a() {}"));
    assert_ne!(hash, content_hash("fn b() {}"));
    assert_ne!(hash, "fn a() {}");
}

#[test]
fn accepted_files_are_locked_as_a_whole() {
    let lock = file_lock("a.rs", "one\ntwo\n", "agent", "now");
    assert_eq!((lock.line_start, lock.line_end), (1, 2));
    assert_eq!(lock.locked_hash, content_hash("one\ntwo\n"));
    assert_eq!(file_lock("b.rs", "", "agent", "now").line_end, 1);
    let other = file_lock("b.rs", "x", "agent", "now");
    let third = file_lock("a.rs", "x", "agent", "now");
    assert_eq!(replaced_locks(&[lock, other, third], "a.rs"), [0, 2]);
}

#[test]
fn telemetry_counts_what_happens() {
    let mut telemetry = ExecutionTelemetry::new(7, 1, 2, 3);
    assert_eq!(telemetry.record_spawn(), 2);
    telemetry.record_usage(40);
    assert_eq!(telemetry.next_iteration(), 4);
    assert_eq!(
        (telemetry.agents_spawned, telemetry.total_tokens, telemetry.iterations),
        (2, 42, 4)
    );
}

#[test]
fn engine_errors_name_their_cause() {
    let text = || "x".to_string();
    let said = [
        (
            EngineError::Api(ApiError::MaxRetries(3)),
            "API error: max retries (3) exceeded",
        ),
        (EngineError::Db(text()), "database error: x"),
        (EngineError::Thermal(text()), "thermal error: x"),
        (EngineError::Repo(text()), "repo error: x"),
        (
            EngineError::VerificationFailed { reason: text() },
            "verification failed: x",
        ),
        (
            EngineError::BudgetExceeded {
                spent: 2_500_000_000,
                limit: 100_000_000,
            },
            "budget exceeded: $2.5000 of $0.1000",
        ),
        (EngineError::Io(text()), "IO error: x"),
        (
            EngineError::ParseError(text()),
            "parse error after patch: x",
        ),
        (EngineError::TestFailure(text()), "test failure: x"),
        (EngineError::LintFailure(text()), "lint failure: x"),
    ];
    for (error, expected) in said {
        assert_eq!(error.to_string(), expected);
    }
}

#[test]
fn contents_that_a_file_had_are_not_accepted_again() {
    let state = FileExecutionState::of_content("a.rs".to_string(), vec![], "fn b() {}\n".to_string());
    assert_eq!(state.seen_hashes, [content_hash("fn b() {}\n")]);
    let mut run = variant(0);
    run.generated(made("fn b() {}\n"));
    run.verified_candidate(result(true, None), "[]");
    let outcome = run.outcome.unwrap();
    assert_eq!(outcome.state_hash, Some(content_hash("fn b() {}\n")));
    let settled = settle_step(
        "a.rs",
        vec![outcome],
        &state.seen_hashes,
        ExecutionPhase::Resolution,
        1,
        1,
    );
    assert!(settled.winner.is_none());
    assert_eq!(settled.summary.rejected, 1);
}

#[test]
fn targets_come_in_the_order_of_the_phase() {
    let row = |file: &str, value: f64| ThermalAggregate {
        file_path: file.to_string(),
        composite_score: Score::from_bits(value.to_bits()),
        max_score: Score::from_bits(value.to_bits()),
        agent_density: 0,
        last_updated: String::new(),
        is_locked: false,
    };
    let rows = || vec![row("a.rs", 0.2), row("b.rs", 0.9), row("c.rs", 0.5)];
    let names = |phase, locks: &[mercury_cli::db::CoolLock]| {
        dispatch_targets(rows(), locks, &[], phase, 2)
            .into_iter()
            .map(|target| (target.file_path, target.launchable_agents))
            .collect::<Vec<_>>()
    };
    let expected = |files: &[&str]| {
        files
            .iter()
            .map(|file| (file.to_string(), 2))
            .collect::<Vec<_>>()
    };
    assert_eq!(
        names(ExecutionPhase::Resolution, &[]),
        expected(&["b.rs", "c.rs", "a.rs"])
    );
    assert_eq!(
        names(ExecutionPhase::Scaffolding, &[]),
        expected(&["a.rs", "c.rs", "b.rs"])
    );
    assert_eq!(
        names(
            ExecutionPhase::Resolution,
            &[file_lock("b.rs", "x", "agent", "now")]
        ),
        expected(&["c.rs", "a.rs"])
    );
}

#[test]
fn requests_to_the_edit_service_are_worded() {
    let patcher = Patcher::new();
    let patch = patcher.patch("old", "new");
    assert_eq!((patch.original_code.as_str(), patch.update_snippet.as_str()), ("old", "new"));
    assert_eq!(patch.max_tokens, 8192);
    let completion = patcher.complete("before", "after");
    assert_eq!((completion.prompt.as_str(), completion.suffix.as_str()), ("before", "after"));
    assert_eq!(completion.max_tokens, 256);
    let next = patcher.next_edit("content", "history");
    assert_eq!(next.file_content, "content");
    assert_eq!(next.edit_history, "history");
    assert!(next.cursor.is_empty() && next.code_to_edit.is_empty());
}
