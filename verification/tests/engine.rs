use mercury_cli::engine::candidate::{
    change_footprint, rank_candidate_outcomes, split_duplicate_state_candidates,
    unsafe_candidate_reason, CandidateOutcome, CandidateSource, ChangeFootprint,
};
use mercury_cli::engine::scheduler::{Scheduler, SchedulerConfig};
use mercury_cli::engine::verify::VerifyResult;

fn candidate_outcome(
    agent_id: &str,
    source: CandidateSource,
    retry_attempts: usize,
    total_cost: i128,
    state_hash: Option<&str>,
    change_footprint: ChangeFootprint,
) -> CandidateOutcome {
    CandidateOutcome {
        agent_id: agent_id.to_string(),
        log_id: 1,
        sandbox_root: format!("/tmp/{agent_id}"),
        source,
        candidate: Some("fn candidate() {}\n".to_string()),
        retry_attempts,
        total_tokens: 0,
        total_cost,
        verification_errors: Vec::new(),
        state_hash: state_hash.map(str::to_string),
        change_footprint,
        failure_stage: None,
        reason: None,
    }
}

#[test]
fn test_scheduler_budget_tracking() {
    let mut scheduler = Scheduler::new(SchedulerConfig {
        max_cost_per_command: 100_000_000,
        ..Default::default()
    });
    assert!(scheduler.record_cost(50_000_000).is_ok());
    assert_eq!(scheduler.current_cost(), 50_000_000);
    assert!(scheduler.has_budget());
    let result = scheduler.record_cost(60_000_000);
    assert!(result.is_err());
}

#[test]
fn test_verify_result() {
    let ok = VerifyResult {
        parse_ok: true,
        test_ok: true,
        lint_ok: true,
        critique: None,
        command_results: vec![],
        errors: vec![],
    };
    assert!(ok.is_ok());

    let fail = VerifyResult {
        parse_ok: true,
        test_ok: false,
        lint_ok: true,
        critique: None,
        command_results: vec![],
        errors: vec!["test failed".to_string()],
    };
    assert!(!fail.is_ok());
}

#[test]
fn test_scheduler_active_count() {
    let mut scheduler = Scheduler::new(SchedulerConfig::default());
    assert_eq!(scheduler.active_count(), 0);
    scheduler.acquire();
    assert_eq!(scheduler.active_count(), 1);
    scheduler.release();
    assert_eq!(scheduler.active_count(), 0);
}

#[test]
fn test_change_footprint_prefers_localized_edit_over_full_rewrite() {
    let baseline = "fn main() {\n    alpha();\n    beta();\n    gamma();\n}\n";
    let localized = "fn main() {\n    alpha();\n    beta_fixed();\n    gamma();\n}\n";
    let rewrite = "use std::process::ExitCode;\n\nfn main() -> ExitCode {\n    beta_fixed();\n    ExitCode::SUCCESS\n}\n";

    assert!(change_footprint(baseline, localized) < change_footprint(baseline, rewrite));
}

#[test]
fn test_rank_candidate_outcomes_prefers_lower_churn_before_agent_id() {
    let candidates = vec![
        candidate_outcome(
            "agent-z",
            CandidateSource::ApplyEdit,
            0,
            10_000_000,
            Some("hash-z"),
            ChangeFootprint {
                touched_lines: 8,
                byte_delta: 12,
            },
        ),
        candidate_outcome(
            "agent-a",
            CandidateSource::ApplyEdit,
            0,
            10_000_000,
            Some("hash-a"),
            ChangeFootprint {
                touched_lines: 2,
                byte_delta: 3,
            },
        ),
    ];

    let candidates = rank_candidate_outcomes(candidates);

    assert_eq!(candidates[0].agent_id, "agent-a");
    assert_eq!(candidates[1].agent_id, "agent-z");
}

#[test]
fn test_rank_candidate_outcomes_prefers_apply_edit_lineage_over_exploration() {
    let candidates = vec![
        candidate_outcome(
            "agent-explore",
            CandidateSource::ExploratoryNextEdit,
            0,
            1_000_000,
            Some("explore-hash"),
            ChangeFootprint {
                touched_lines: 1,
                byte_delta: 1,
            },
        ),
        candidate_outcome(
            "agent-apply",
            CandidateSource::ApplyEdit,
            0,
            10_000_000,
            Some("apply-hash"),
            ChangeFootprint {
                touched_lines: 3,
                byte_delta: 4,
            },
        ),
    ];

    let candidates = rank_candidate_outcomes(candidates);

    assert_eq!(candidates[0].agent_id, "agent-apply");
    assert_eq!(candidates[1].agent_id, "agent-explore");
}

#[test]
fn test_unsafe_candidate_reason_rejects_blank_rewrite() {
    assert_eq!(
        unsafe_candidate_reason("fn keep() {}\n", ""),
        Some("blank rewrite would erase a non-empty file")
    );
    assert_eq!(unsafe_candidate_reason("", ""), None);
}

#[test]
fn test_split_duplicate_state_candidates_keeps_best_ranked_output_once() {
    let candidates = vec![
        candidate_outcome(
            "agent-duplicate-expensive",
            CandidateSource::ApplyEdit,
            0,
            50_000_000,
            Some("same-hash"),
            ChangeFootprint {
                touched_lines: 3,
                byte_delta: 4,
            },
        ),
        candidate_outcome(
            "agent-unique",
            CandidateSource::ApplyEdit,
            0,
            30_000_000,
            Some("unique-hash"),
            ChangeFootprint {
                touched_lines: 2,
                byte_delta: 2,
            },
        ),
        candidate_outcome(
            "agent-duplicate-cheap",
            CandidateSource::ApplyEdit,
            0,
            10_000_000,
            Some("same-hash"),
            ChangeFootprint {
                touched_lines: 3,
                byte_delta: 4,
            },
        ),
    ];

    let (unique, duplicates) =
        split_duplicate_state_candidates(rank_candidate_outcomes(candidates));

    assert_eq!(unique.len(), 2);
    assert_eq!(duplicates.len(), 1);
    assert_eq!(duplicates[0].agent_id, "agent-duplicate-expensive");
    assert!(unique
        .iter()
        .any(|candidate| candidate.agent_id == "agent-duplicate-cheap"));
    assert!(unique
        .iter()
        .any(|candidate| candidate.agent_id == "agent-unique"));
}
