use mercury_cli::api::types::{ApiError, ApiUsage, ThermalAssessment};
use mercury_cli::cli::assessment::{
    assessment_lines, assessment_rows, plan_lines, AssessmentTexts,
};
use mercury_cli::cli::config::{
    config_key_path, expected_value, parse_config_item, supported_config_keys,
    supported_config_keys_help, supported_config_value_kind, table_step, unsupported_key,
    AnnealingConfig, ApiConfig, ConfigValue, ConfigValueKind, ConstitutionalConfig, MercuryConfig,
    RepoConfig, SchedulerConfigToml, TableEntry, TableStep, ThermalConfig, VerificationConfig,
    DEFAULT_CONFIG,
};
use mercury_cli::cli::config_file::{
    config_value_line, look_up, set_config_value, value_line, ConfigEditError,
};
use mercury_cli::cli::error::MercuryError;
use mercury_cli::cli::fix::{
    aborted_run, benchmark_verifier, classify_fix_benchmark_outcome,
    classify_fix_failure_attribution, cost_json, fix_benchmark, fix_failure_reason_rollup,
    fix_metadata, fix_summary_headline, remaining_budget, FixAbort, FixCounts, FixStage,
};
use mercury_cli::cli::fix_report::{
    artifact_candidate_lineage_summary, artifact_count_summary, count_tool_calls,
    execution_complete_details, execution_lines, finished_run, fix_completed_details,
    fix_failed_details, fix_stage_details, fix_started_details, fix_summary_index,
    list_run_artifacts, plan_estimate, plan_ready_details, FixRequest, WrittenFiles,
};
use mercury_cli::cli::guard::{
    enforce_verifier_allowlist, is_noninteractive_mode, running_in_ci, security_runtime_context,
    switched_on, SecurityRuntimeContext,
};
use mercury_cli::cli::watch_report::RunTimes;
use mercury_cli::db::DbError;
use mercury_cli::engine::batch::PlanStep;
use mercury_cli::engine::candidate::{CandidateFailureStage, CandidateSource};
use mercury_cli::engine::error::EngineError;
use mercury_cli::engine::plan::ExecutionPlan;
use mercury_cli::engine::settings::VerifyConfig;
use mercury_cli::engine::summary::StepExecutionSummary;
use mercury_cli::json::{field, text, Json};
use mercury_cli::repo::RepoError;
use mercury_cli::score::Score;
use mercury_cli::swarm::agent::SwarmError;
use mercury_cli::thermal::ThermalError;
use mercury_cli::verification::grounding::GroundingRun;

fn score(value: f64) -> Score {
    Score::from_bits(value.to_bits())
}

fn verify_config(test: &str, lint: &str) -> VerifyConfig {
    VerifyConfig {
        parse_before_write: true,
        test_after_write: true,
        lint_after_write: true,
        mercury2_critique_on_failure: false,
        test_command: test.to_string(),
        lint_command: lint.to_string(),
    }
}

fn security() -> SecurityRuntimeContext {
    security_runtime_context(true, false, true, &None)
}

fn times() -> RunTimes {
    RunTimes {
        started_at: "start".to_string(),
        finished_at: "end".to_string(),
        duration_ms: 12,
    }
}

fn at<'a>(value: &'a Json, key: &str) -> &'a Json {
    match value {
        Json::Object(fields) => match fields.iter().find(|(name, _)| name == key) {
            Some((_, found)) => found,
            None => panic!("nothing under {key}"),
        },
        other => panic!("no object: {other:?}"),
    }
}

fn shown(value: &Json) -> String {
    match value {
        Json::Text(text) => text.clone(),
        Json::Number(text) => text.clone(),
        Json::Bool(flag) => flag.to_string(),
        Json::Null => "null".to_string(),
        other => panic!("no plain value: {other:?}"),
    }
}

fn config() -> MercuryConfig {
    MercuryConfig {
        api: ApiConfig {
            mercury2_endpoint: "https://example.invalid/chat".to_string(),
            mercury_edit_endpoint: "https://example.invalid/edit".to_string(),
            api_key_env: "INCEPTION_API_KEY".to_string(),
        },
        scheduler: SchedulerConfigToml {
            max_concurrency: 2,
            max_cost_per_command: 3_000_000_000,
            max_agents_per_command: 2,
            retry_limit: 2,
            backoff_base_ms: 100,
        },
        thermal: ThermalConfig {
            decay_half_life_seconds: score(300.0),
            aggregation_method: "log_sum_exp".to_string(),
            rescan_on_git_pull: true,
            hot_threshold: score(0.7),
            cool_threshold: score(0.3),
            lock_cool_zones: true,
        },
        annealing: AnnealingConfig {
            enable_global_momentum: true,
            initial_temperature: score(1.0),
            cooling_rate: score(0.02),
            min_modification_threshold: score(0.1),
        },
        verification: VerificationConfig {
            parse_before_write: true,
            test_after_write: true,
            lint_after_write: false,
            mercury2_critique_on_failure: true,
            test_command: "cargo test".to_string(),
            lint_command: "cargo clippy".to_string(),
        },
        constitutional: ConstitutionalConfig {
            style_guide: "tabs".to_string(),
            architecture_rules: String::new(),
            naming_conventions: "snake".to_string(),
        },
        repo: RepoConfig::default(),
    }
}

#[test]
fn configurations_give_the_settings_of_the_parts() {
    let config = config();
    assert_eq!(
        config.constitutional_prompt(),
        "Style guide: tabs\nNaming conventions: snake"
    );
    assert!(config.repo_languages().rust);
    assert!(!config.repo_languages().typescript);
    let scheduler = config.to_scheduler_config();
    assert_eq!(scheduler.max_concurrency, 2);
    assert_eq!(scheduler.max_cost_per_command, 3_000_000_000);
    assert_eq!(scheduler.hot_threshold.rank, score(0.7).rank);
    let verify = config.build_verify_config();
    assert!(verify.test_after_write && !verify.lint_after_write);
    assert_eq!(verify.test_command, "cargo test");
}

#[test]
fn keys_have_their_kinds() {
    assert_eq!(
        supported_config_value_kind("scheduler.max_concurrency"),
        Some(ConfigValueKind::Integer)
    );
    assert_eq!(
        supported_config_value_kind("thermal.hot_threshold"),
        Some(ConfigValueKind::Float)
    );
    assert_eq!(
        supported_config_value_kind("api.api_key_env"),
        Some(ConfigValueKind::Text)
    );
    assert_eq!(supported_config_value_kind("no.such_key"), None);
    assert!(unsupported_key("no.such_key").contains("no.such_key"));
    let help = supported_config_keys_help();
    for key in supported_config_keys() {
        assert!(help.contains(key.key));
    }
}

#[test]
fn values_are_read_by_kind() {
    assert!(matches!(
        parse_config_item("true", ConfigValueKind::Bool),
        Ok(ConfigValue::Bool(true))
    ));
    assert!(matches!(
        parse_config_item("-3", ConfigValueKind::Integer),
        Ok(ConfigValue::Integer(-3))
    ));
    assert!(matches!(
        parse_config_item("x y", ConfigValueKind::Text),
        Ok(ConfigValue::Text(text)) if text == "x y"
    ));
    assert!(parse_config_item("yes", ConfigValueKind::Bool).is_err());
    assert!(parse_config_item("1.5", ConfigValueKind::Integer).is_err());
    assert!(expected_value("a float", "abc").contains("abc"));
    assert_eq!(config_key_path("a.b.c"), ["a", "b", "c"]);
    assert!(matches!(
        table_step(TableEntry::Missing, "a", "a.b"),
        TableStep::Create
    ));
    assert!(matches!(
        table_step(TableEntry::Table, "a", "a.b"),
        TableStep::Enter
    ));
    assert!(matches!(
        table_step(TableEntry::Other, "a", "a.b"),
        TableStep::Refuse(message) if message.contains("a")
    ));
}

#[test]
fn the_default_configuration_sets_every_key_once() {
    for key in supported_config_keys() {
        let leaf = config_key_path(key.key).pop().unwrap();
        let assigned = DEFAULT_CONFIG
            .lines()
            .filter(|line| line.starts_with(&format!("{leaf} = ")))
            .count();
        assert_eq!(assigned, 1, "{}", key.key);
    }
}

#[test]
fn unlisted_verifiers_are_refused() {
    assert_eq!(
        enforce_verifier_allowlist(&verify_config("cargo test", "cargo clippy"), false, true),
        Ok(false)
    );
    let refused =
        enforce_verifier_allowlist(&verify_config("make", " rm -rf x "), false, false).unwrap_err();
    assert!(refused.starts_with(
        "verifier allowlist violation: test_command=`make`, lint_command=`rm -rf x`. "
    ));
    assert!(refused.ends_with("Set MERCURY_ALLOW_UNSAFE_VERIFIER_COMMANDS=1 to bypass."));
    assert_eq!(
        enforce_verifier_allowlist(&verify_config("make", "make"), true, false),
        Ok(true)
    );
    assert_eq!(
        enforce_verifier_allowlist(&verify_config("cargo test", "cargo clippy"), true, true),
        Err(
            "verifier allowlist override via MERCURY_ALLOW_UNSAFE_VERIFIER_COMMANDS is disabled in CI"
                .to_string()
        )
    );
}

#[test]
fn switches_are_read_in_any_case() {
    assert!(switched_on(&Some("TRUE".to_string())));
    assert!(switched_on(&Some("1".to_string())));
    assert!(!switched_on(&Some("yes".to_string())));
    assert!(!switched_on(&None));
    assert!(running_in_ci(&None, &Some("true".to_string())));
    assert!(!running_in_ci(&Some("0".to_string()), &None));
    assert!(is_noninteractive_mode(false, false, false));
    assert!(!is_noninteractive_mode(false, false, true));
    assert!(is_noninteractive_mode(true, false, true));
}

#[test]
fn security_says_whether_the_list_holds() {
    let enforced = security();
    assert!(enforced.verifier_allowlist_enforced);
    assert!(!enforced.execution_sandbox_enforced);
    let bypassed = security_runtime_context(false, true, false, &Some("/run".to_string()));
    assert!(bypassed.verifier_allowlist_override_applied);
    assert!(!bypassed.verifier_allowlist_enforced);
    assert_eq!(shown(at(&bypassed.to_json(), "sandbox_run_root")), "/run");
    assert_eq!(
        shown(at(&bypassed.copy().to_json(), "sandbox_policy")),
        "repo_isolated_worktree_copy"
    );
}

#[test]
fn stages_follow_each_other() {
    let mut stage = FixStage::IndexRepository;
    let mut names = vec![stage.as_str()];
    while let Some(next) = stage.next() {
        stage = next;
        names.push(stage.as_str());
    }
    assert_eq!(
        names,
        [
            "index_repository",
            "plan_repair",
            "scaffold_cool_zones",
            "resolve_hot_zones",
            "patch_and_verify",
            "anneal_and_report"
        ]
    );
    assert_eq!(
        FixStage::PlanRepair.banner(),
        "[2/7] Planning with Mercury 2..."
    );
    assert_eq!(
        shown(at(&fix_stage_details(stage, "/run"), "stage")),
        "anneal_and_report"
    );
}

#[test]
fn outcomes_and_reasons_are_classified() {
    assert_eq!(classify_fix_benchmark_outcome(true, true), "verified_repair");
    assert_eq!(
        classify_fix_benchmark_outcome(false, true),
        "accepted_patch_unverified"
    );
    assert_eq!(classify_fix_benchmark_outcome(false, false), "no_patch");

    let none = FixCounts::new();
    assert_eq!(classify_fix_failure_attribution(&none, true, true), None);
    let of = |counts: &FixCounts| {
        classify_fix_failure_attribution(counts, false, false).unwrap()
    };
    assert_eq!(of(&none), "no_patch_emitted");
    let mut counts = FixCounts::new();
    counts.count_candidate(
        CandidateSource::ApplyEdit,
        Some(CandidateFailureStage::Generation),
    );
    assert_eq!(of(&counts), "patch_generation_failed");
    counts.count_candidate(
        CandidateSource::CritiqueRetry,
        Some(CandidateFailureStage::Safety),
    );
    assert_eq!(of(&counts), "candidate_failed_safety");
    counts.count_candidate(
        CandidateSource::ExploratoryNextEdit,
        Some(CandidateFailureStage::Verification),
    );
    assert_eq!(of(&counts), "candidate_failed_verifier");
    assert_eq!(
        (
            counts.apply_edit_attempts,
            counts.critique_retry_attempts,
            counts.exploratory_next_edit_attempts
        ),
        (1, 1, 1)
    );
    assert_eq!(
        fix_failure_reason_rollup("candidate_failed_safety"),
        "candidate rejected by safety policy"
    );
    assert_eq!(fix_failure_reason_rollup("other"), "other");
    assert_eq!(
        fix_summary_headline("fix_failed", false, false),
        "fix run failed before a repair was accepted"
    );
    assert_eq!(fix_summary_headline("?", true, false), "verified repair");
}

#[test]
fn costs_are_written_in_dollars() {
    assert_eq!(shown(&cost_json(1_500_000_000)).parse::<f64>().unwrap(), 1.5);
    assert_eq!(shown(&cost_json(0)).parse::<f64>().unwrap(), 0.0);
    assert_eq!(
        shown(&cost_json(-12_300_000)).parse::<f64>().unwrap(),
        -0.0123
    );
    assert_eq!(remaining_budget(500, 200), 300);
    assert_eq!(remaining_budget(500, 900), 0);
}

#[test]
fn refused_runs_leave_a_record() {
    let run = aborted_run(
        FixAbort::RejectedAllowlist,
        "fix it",
        4,
        500_000_000,
        times(),
        benchmark_verifier(&verify_config("make", "make"), &[]),
        security(),
    );
    assert_eq!(run.outcome(), "rejected_allowlist");
    assert_eq!(
        run.failure_attribution().as_deref(),
        Some("rejected_allowlist")
    );
    assert_eq!(run.budget_remaining, 500_000_000);
    assert!(!run.accepted_patch());
    let benchmark = fix_benchmark(&run);
    assert_eq!(shown(at(&benchmark, "outcome")), "rejected_allowlist");
    assert_eq!(shown(at(&benchmark, "duration_ms")), "12");
    assert_eq!(shown(at(at(&benchmark, "verifier"), "test_command")), "make");
    let metadata = fix_metadata(&run);
    assert_eq!(shown(at(&metadata, "max_agents")), "4");
    assert_eq!(
        shown(at(&metadata, "grounding_schema_version")),
        "grounded-repair-context-v1"
    );
    let index = fix_summary_index(&run, "/run", &[], None);
    assert_eq!(
        shown(at(&index, "headline")),
        "verifier command rejected by allowlist"
    );
    assert_eq!(list_run_artifacts(None).len(), 3);
}

#[test]
fn finished_runs_add_up_their_costs() {
    let mut run = GroundingRun::new();
    run.record(
        "seen",
        0,
        vec![],
        &ApiUsage {
            tokens_used: 5,
            cost_nanos: 100,
        },
        &[],
    );
    let context = run.finish("fix it", vec![], None);
    assert_eq!(count_tool_calls(&context.rounds), 0);
    let summary = StepExecutionSummary {
        accepted: 1,
        final_bundle_verified: true,
        applied: true,
        ..StepExecutionSummary::default()
    };
    let mut counts = FixCounts::new();
    counts.count_candidate(CandidateSource::ApplyEdit, None);
    counts.count_accepted(CandidateSource::ApplyEdit);
    let request = FixRequest {
        description: "fix it".to_string(),
        max_agents: 2,
        max_cost: 1_000,
        verifier: benchmark_verifier(&verify_config("cargo test", "cargo clippy"), &[]),
    };
    assert_eq!(
        shown(at(&fix_started_details(&request, "/run", &security()), "max_agents")),
        "2"
    );
    let done = finished_run(
        request,
        times(),
        &context,
        20,
        3,
        &summary,
        counts.with_summary(&summary),
        Some(9),
        security(),
    );
    assert_eq!(done.total_cost, 123);
    assert_eq!(done.budget_remaining, 877);
    assert_eq!(done.outcome(), "verified_repair");
    assert_eq!(done.failure_attribution(), None);
    assert!(done.accepted_patch());
    assert!(done.grounding_collected);
    assert_eq!(shown(at(&artifact_count_summary(&done.counts), "accepted_steps")), "1");
    let lineage = artifact_candidate_lineage_summary(&done.counts);
    assert_eq!(shown(at(at(&lineage, "apply_edit"), "accepted_steps")), "1");
    assert_eq!(
        shown(at(&fix_completed_details(&done, "/run"), "artifact_root")),
        "/run"
    );
    let files = list_run_artifacts(Some(WrittenFiles {
        final_verification: false,
        swarm_state: false,
        diff_patch: true,
    }));
    assert!(files.iter().any(|(name, _)| name == "diff_patch"));
    assert!(!files.iter().any(|(name, _)| name == "swarm_state"));
}

#[test]
fn events_of_a_fix_carry_their_details() {
    assert_eq!(plan_estimate(12_300_000, Some(321)), "$0.0123 | tokens: 321");
    assert_eq!(plan_estimate(0, None), "$0.0000");
    let ready = plan_ready_details(3, 0, None, field("artifact_root", text("/run")));
    assert_eq!(shown(at(&ready, "plan_steps")), "3");
    assert_eq!(shown(at(&ready, "estimated_tokens")), "null");
    assert_eq!(shown(at(&ready, "artifact_root")), "/run");
    let failed = fix_failed_details("fix it", &None, "boom", &security());
    assert_eq!(shown(at(&failed, "error")), "boom");
    let summary = StepExecutionSummary {
        accepted: 2,
        rejected: 1,
        ..StepExecutionSummary::default()
    };
    let complete = execution_complete_details(&summary, &Some("/run".to_string()), &security());
    assert_eq!(shown(at(&complete, "accepted_steps")), "2");
    assert_eq!(
        execution_lines(&summary, 12_300_000, 0),
        [
            "\nExecution summary:",
            "  Accepted steps: 2",
            "  Rejected steps: 1",
            "  Verification failures: 0",
            "\nCost: $0.0123",
            "Budget remaining: $0.0000"
        ]
    );
}

fn steps() -> Vec<PlanStep> {
    vec![PlanStep {
        file_path: "src/a.rs".to_string(),
        instruction: "rename".to_string(),
        priority: 0.5f64.to_bits(),
        estimated_tokens: 1,
    }]
}

fn assessment() -> ThermalAssessment {
    ThermalAssessment {
        complexity_score: score(0.1),
        dependency_score: score(0.2),
        risk_score: score(0.3),
        churn_score: score(0.4),
        suggested_action: "refactor".to_string(),
        reasoning: String::new(),
    }
}

#[test]
fn assessments_become_four_scores() {
    let rows = assessment_rows(&steps(), &[assessment(), assessment()]);
    assert_eq!(rows.len(), 8);
    let kinds: Vec<&str> = rows[..4].iter().map(|row| row.score_type.as_str()).collect();
    assert_eq!(kinds, ["complexity", "dependency", "risk", "churn"]);
    assert_eq!(rows[2].score.rank, score(0.3).rank);
    assert_eq!(rows[0].file_path, "src/a.rs");
    assert_eq!((rows[0].line_start, rows[0].line_end), (1, 1000));
    assert_eq!(rows[4].file_path, "unknown");
}

#[test]
fn plans_and_assessments_are_shown() {
    let texts = AssessmentTexts {
        complexity: "0.10".to_string(),
        dependency: "0.20".to_string(),
        risk: "0.30".to_string(),
        churn: "0.40".to_string(),
        average: "0.25".to_string(),
    };
    assert_eq!(
        assessment_lines(&steps(), &[texts]),
        [
            "\nAssessment contributions (complexity/dependency/risk/churn):",
            "  - src/a.rs => c:0.10 d:0.20 r:0.30 h:0.40 avg:0.25"
        ]
    );
    assert!(assessment_lines(&steps(), &[]).is_empty());
    let plan = ExecutionPlan {
        steps: steps(),
        constitutional_prompt: String::new(),
        estimated_cost: 12_300_000,
        estimated_tokens: Some(7),
    };
    assert_eq!(
        plan_lines(&plan, &["0.50".to_string()]),
        [
            "\nExecution Plan (1 steps):",
            "Estimated planning cost: $0.0123 | tokens: 7",
            "  1. src/a.rs (priority: 0.50)",
            "     rename"
        ]
    );
}

#[test]
fn errors_of_all_parts_are_wrapped() {
    let io = || "gone".to_string();
    let said = [
        (
            MercuryError::Db(DbError::LockConflict {
                file: "a.rs".to_string(),
                locked_by: "x".to_string(),
            }),
            "database error: ",
        ),
        (MercuryError::Thermal(ThermalError::EmptyScores), "thermal error: "),
        (MercuryError::Api(ApiError::MaxRetries(1)), "API error: "),
        (MercuryError::Repo(RepoError::Io(io())), "repo error: "),
        (MercuryError::Engine(EngineError::Io(io())), "engine error: "),
        (MercuryError::Swarm(SwarmError::BudgetExhausted), "swarm error: "),
        (MercuryError::Config(io()), "config error: gone"),
        (MercuryError::Io(io()), "IO error: gone"),
    ];
    for (error, start) in said {
        assert!(error.to_string().starts_with(start), "{}", error.to_string());
    }
}

#[test]
fn database_errors_name_their_cause() {
    let range = DbError::ScoreOutOfRange {
        score: "1.5".to_string(),
        file: "x.rs".to_string(),
        line: 10,
    };
    assert!(range.to_string().contains("1.5"));
    assert!(range.to_string().contains("x.rs"));
    let lock = DbError::LockConflict {
        file: "a.rs".to_string(),
        locked_by: "agent-1".to_string(),
    };
    assert!(lock.to_string().contains("agent-1"));
    assert!(DbError::Sqlite("busy".to_string()).to_string().contains("busy"));
}

#[test]
fn set_values_are_read_back() {
    let text = set_config_value(DEFAULT_CONFIG, "scheduler.max_concurrency", Ok(5i64.into())).unwrap();
    assert!(text.contains("max_concurrency = 5\n"));
    assert_eq!(
        config_value_line(&text, "scheduler.max_concurrency").unwrap(),
        "  5"
    );
    assert_eq!(
        config_value_line(&text, "scheduler.retry_limit").unwrap(),
        config_value_line(DEFAULT_CONFIG, "scheduler.retry_limit").unwrap()
    );
    assert_eq!(text.lines().count(), DEFAULT_CONFIG.lines().count());
    let unchanged = text
        .lines()
        .zip(DEFAULT_CONFIG.lines())
        .filter(|(new, old)| new != old)
        .count();
    assert_eq!(unchanged, 1);
}

#[test]
fn missing_tables_are_made() {
    let text = set_config_value("# kept\n", "a.b.c", Ok(true.into())).unwrap();
    assert!(text.contains("# kept"));
    assert_eq!(config_value_line(&text, "a.b.c").unwrap(), "  true");
    assert_eq!(
        config_value_line(&text, "a.x").unwrap(),
        "  Key not found: a.x"
    );
    let replaced = set_config_value("[a]\nb = 1\n", "a", Ok("x".into())).unwrap();
    assert_eq!(config_value_line(&replaced, "a").unwrap(), "  \"x\"");
    assert_eq!(
        config_value_line(&replaced, "a.b").unwrap(),
        "  Key not found: a.b"
    );
    assert_eq!(value_line(&None, "k"), "  Key not found: k");
}

#[test]
fn values_hold_no_keys() {
    assert_eq!(
        set_config_value("a = 1\n", "a.b", Ok(2i64.into())),
        Err(ConfigEditError::NotTable(
            "config path 'a' is not a table and cannot contain 'a.b'".to_string()
        ))
    );
    assert!(matches!(
        set_config_value("a = = 1\n", "a", Ok(2i64.into())),
        Err(ConfigEditError::NotToml(_))
    ));
    assert!(config_value_line("a = = 1\n", "a").is_err());
    assert!(matches!(
        set_config_value("a = = 1\n", "a", Err("no number".to_string())),
        Err(ConfigEditError::NotToml(_))
    ));
    assert_eq!(
        set_config_value("a = 1\n", "a.b", Err("no number".to_string())),
        Err(ConfigEditError::NotValue("no number".to_string()))
    );
}

#[test]
fn names_are_followed_one_by_one() {
    let text = "[a]\nb = { c = [1, 2] }\n";
    let at = |path: &[&str]| {
        let names: Vec<String> = path.iter().map(|name| name.to_string()).collect();
        look_up(text, &names).unwrap()
    };
    assert_eq!(at(&["a", "b", "c"]), Some("[1, 2]".to_string()));
    assert_eq!(at(&["a", "x", "c"]), None);
    assert_eq!(at(&["a", "b", "c", "d"]), None);
    assert!(at(&[]).is_some());
}
