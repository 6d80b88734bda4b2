use mercury_cli::cli::edit::{
    build_next_edit_cli_context, edit_fate, parse_cli_repo_relative_path, parse_file_line,
    parse_reasoning_effort, split_at_line, EditFate,
};
use mercury_cli::cli::event_line::{
    agent_lines, format_live_event_line, live_agent_lines, live_event_lines, live_interval,
    push_live_event_line, shows_heatmap,
};
use mercury_cli::cli::events::{
    candidate_event_details, diff_live_status_events, initial_live_status_events, LiveRenderMode,
    LiveStatusEvent, Transition,
};
use mercury_cli::cli::figure::Figure;
use mercury_cli::cli::guard::event_payload;
use mercury_cli::cli::progress::{
    build_candidate_live_state, parse_candidate_runtime_metadata, CandidateLiveState,
};
use mercury_cli::cli::snapshot::{
    build_live_status_snapshot, build_runtime_overview, hottest_aggregate, LiveStatusSnapshot,
    OverviewFigures,
};
use mercury_cli::api::types::ReasoningEffort;
use mercury_cli::db::{AgentLogEntry, SwarmState, ThermalAggregate};
use mercury_cli::json::Json;
use mercury_cli::repo::{PathEntry, RepoRelativePath};
use mercury_cli::score::Score;

fn score(value: f64) -> Score {
    Score::from_bits(value.to_bits())
}

fn figure(value: f64) -> Figure {
    Figure {
        score: score(value),
        json: format!("{value}"),
        shown: format!("{value:.4}"),
    }
}

fn at<'a>(value: &'a Json, path: &[&str]) -> &'a Json {
    let mut current = value;
    for key in path {
        current = match current {
            Json::Object(fields) => fields
                .iter()
                .find(|(name, _)| name == key)
                .map(|(_, value)| value)
                .expect("field should exist"),
            Json::List(items) => &items[key.parse::<usize>().expect("position")],
            _ => panic!("no field {key}"),
        };
    }
    current
}

fn is_text(value: &Json, expected: &str) -> bool {
    matches!(value, Json::Text(text) if text == expected)
}

fn is_number(value: &Json, expected: &str) -> bool {
    matches!(value, Json::Number(text) if text == expected)
}

fn sample_agent_log_entry(
    id: i64,
    status: &str,
    command: &str,
    micro_heatmap: Option<&str>,
) -> AgentLogEntry {
    AgentLogEntry {
        id,
        agent_id: format!("agent-{id:02}"),
        command: command.to_string(),
        file_path: format!("src/file_{id}.rs"),
        status: status.to_string(),
        micro_heatmap: micro_heatmap.map(str::to_string),
        started_at: format!("2026-03-11T12:00:{id:02}Z"),
        completed_at: if matches!(status, "success" | "failed") {
            Some(format!("2026-03-11T12:01:{id:02}Z"))
        } else {
            None
        },
        tokens_used: id * 100,
        cost_usd: score(id as f64 * 0.015),
    }
}

fn live_state(entry: &AgentLogEntry) -> CandidateLiveState {
    build_candidate_live_state(entry, &figure(entry.id as f64 * 0.015), &None)
}

fn sample_aggregate(file_path: &str, composite_score: f64, agent_density: i32) -> ThermalAggregate {
    ThermalAggregate {
        file_path: file_path.to_string(),
        composite_score: score(composite_score),
        max_score: score(composite_score),
        agent_density,
        last_updated: "2026-03-11T12:00:00Z".to_string(),
        is_locked: false,
    }
}

fn sample_swarm_state() -> SwarmState {
    SwarmState {
        id: 1,
        total_agents_spawned: 5,
        active_agents: 2,
        total_tokens_used: 4096,
        total_cost_usd: score(1.25),
        global_temperature: score(0.72),
        iteration_count: 3,
        started_at: "2026-03-11T11:59:00Z".to_string(),
    }
}

fn snapshot(
    aggregates: &[ThermalAggregate],
    active: &[AgentLogEntry],
    logs: &[AgentLogEntry],
    state: Option<SwarmState>,
    cost: f64,
    temperature: f64,
    hottest: f64,
) -> LiveStatusSnapshot {
    let figures = OverviewFigures {
        cost: figure(cost),
        temperature: figure(temperature),
        hottest: Some(figure(hottest)),
    };
    let runtime = build_runtime_overview(aggregates, active, logs, &state, &figures);
    build_live_status_snapshot(logs.iter().map(live_state).collect(), runtime)
}

#[test]
fn parse_cli_repo_relative_path_rejects_invalid_inputs() {
    for (input, expected_reason) in [
        (
            "../../etc/passwd",
            "parent-directory traversal is not allowed",
        ),
        ("/tmp/file", "absolute paths are not allowed"),
        (r"C:\temp\file.rs", "absolute Windows paths are not allowed"),
    ] {
        let err = parse_cli_repo_relative_path(input, "/repo", &[]).expect_err(input);
        assert!(err.contains(expected_reason));
    }
}

#[test]
fn parse_file_line_uses_repo_relative_paths() {
    let entries = [PathEntry::Directory, PathEntry::Missing];
    let (relative, line) = parse_file_line("src/lib.rs:42", "/repo", &entries).unwrap();
    assert_eq!(
        relative.as_str(),
        RepoRelativePath::new("src/lib.rs").unwrap().as_str()
    );
    assert_eq!(line, 42);

    let (default_relative, default_line) =
        parse_file_line("src/main.rs", "/repo", &entries).unwrap();
    assert_eq!(
        default_relative.as_str(),
        RepoRelativePath::new("src/main.rs").unwrap().as_str()
    );
    assert_eq!(default_line, 1);
}

#[test]
fn escaping_paths_of_the_command_line_are_refused() {
    let entries = [
        PathEntry::Link {
            target: "/outside".to_string(),
        },
        PathEntry::Missing,
    ];
    let err = parse_cli_repo_relative_path("escape/file.rs", "/repo", &entries)
        .expect_err("path should be refused");
    assert_eq!(
        err,
        "file path `escape/file.rs` must stay within the repository root: invalid repo-relative path `escape/file.rs`: symlink escapes the repository root"
    );
}

#[test]
fn parse_candidate_runtime_metadata_reads_candidate_fields() {
    let entry = sample_agent_log_entry(
        1,
        "running",
        "repair:verify",
        Some(
            r#"{"phase": "verify",
                "candidate_source": "critique_retry",
                "retry_attempts": 2,
                "outcome": "verification_failed",
                "reason": "test failure",
                "failure_stage": "verification",
                "sandbox_root": ".mercury/worktrees/candidate-1",
                "fanout": 4,
                "temperature": 0.61,
                "touched_lines": 17,
                "byte_delta": -48}"#,
        ),
    );

    let metadata = parse_candidate_runtime_metadata(&entry, &Some(figure(0.61)));
    assert_eq!(metadata.phase.as_deref(), Some("verify"));
    assert_eq!(metadata.source_lineage.as_deref(), Some("critique_retry"));
    assert_eq!(metadata.retry_count, Some(2));
    assert_eq!(metadata.outcome.as_deref(), Some("verification_failed"));
    assert_eq!(metadata.reason.as_deref(), Some("test failure"));
    assert_eq!(metadata.failure_stage.as_deref(), Some("verification"));
    assert_eq!(
        metadata.sandbox_root.as_deref(),
        Some(".mercury/worktrees/candidate-1")
    );
    assert_eq!(metadata.fanout, Some(4));
    assert_eq!(
        metadata.temperature.map(|figure| figure.json).as_deref(),
        Some("0.61")
    );
    assert_eq!(metadata.touched_lines, Some(17));
    assert_eq!(metadata.byte_delta, Some(-48));
}

#[test]
fn metadata_without_a_note_comes_from_the_command() {
    let entry = sample_agent_log_entry(1, "running", "repair: verify ", None);
    let metadata = parse_candidate_runtime_metadata(&entry, &Some(figure(0.5)));
    assert_eq!(metadata.phase.as_deref(), Some("verify"));
    assert!(metadata.temperature.is_none());
    let broken = sample_agent_log_entry(1, "running", "repair", Some("{\"phase\": \"\", \"fanout\": \"x\"}"));
    let metadata = parse_candidate_runtime_metadata(&broken, &None);
    assert_eq!(metadata.phase, None);
    assert_eq!(metadata.fanout, None);
}

#[test]
fn initial_live_status_events_include_backlog_candidates_and_runtime() {
    let plan = sample_agent_log_entry(
        1,
        "running",
        "repair:plan",
        Some(r#"{"phase": "plan", "candidate_source": "apply_edit"}"#),
    );
    let verify = sample_agent_log_entry(
        2,
        "success",
        "repair:verify",
        Some(
            r#"{"phase": "verify", "candidate_source": "critique_retry", "outcome": "accepted"}"#,
        ),
    );
    let aggregates = vec![sample_aggregate("src/file_2.rs", 0.91, 3)];
    let active = vec![plan.clone()];
    let logs = vec![plan, verify];

    let snapshot = snapshot(
        &aggregates,
        &active,
        &logs,
        Some(sample_swarm_state()),
        1.25,
        0.72,
        0.91,
    );
    let events = initial_live_status_events(&snapshot, LiveRenderMode::JsonStream, 750);

    assert_eq!(
        events.first().map(|event| event.name()),
        Some("live_attached")
    );
    assert!(events.iter().any(|event| {
        event.name() == "phase_started" && is_text(at(&event.details(), &["phase"]), "plan")
    }));
    assert!(events.iter().any(|event| {
        event.name() == "phase_started" && is_text(at(&event.details(), &["phase"]), "verify")
    }));

    let candidate_events = events
        .iter()
        .filter(|event| event.name() == "candidate_event")
        .collect::<Vec<_>>();
    assert_eq!(candidate_events.len(), 2);
    assert!(candidate_events
        .iter()
        .all(|event| matches!(at(&event.details(), &["backlog"]), Json::Bool(true))));
    assert!(candidate_events.iter().any(|event| {
        let details = event.details();
        is_text(at(&details, &["agent_id"]), "agent-02")
            && is_text(at(&details, &["verification_result"]), "passed")
            && is_text(at(&details, &["decision"]), "won")
            && is_text(
                at(&details, &["explanation"]),
                "verified candidate selected for application",
            )
    }));

    let runtime_event = events
        .iter()
        .find(|event| event.name() == "runtime_state")
        .expect("runtime state event should exist")
        .details();
    assert!(matches!(
        at(&runtime_event, &["backlog"]),
        Json::Bool(true)
    ));
    assert!(is_number(at(&runtime_event, &["total_agents_spawned"]), "5"));
    assert!(is_number(at(&runtime_event, &["locked_files"]), "0"));
    assert!(is_text(
        at(&runtime_event, &["hottest_file"]),
        "src/file_2.rs"
    ));
}

#[test]
fn diff_live_status_events_report_candidate_transitions() {
    let running = sample_agent_log_entry(
        1,
        "running",
        "repair:apply",
        Some(r#"{"phase": "apply", "candidate_source": "apply_edit"}"#),
    );
    let previous = snapshot(
        &[sample_aggregate("src/file_1.rs", 0.45, 1)],
        std::slice::from_ref(&running),
        std::slice::from_ref(&running),
        Some(sample_swarm_state()),
        1.25,
        0.72,
        0.45,
    );

    let success = sample_agent_log_entry(
        1,
        "success",
        "repair:apply",
        Some(r#"{"phase": "apply", "candidate_source": "apply_edit", "outcome": "accepted"}"#),
    );
    let launched = sample_agent_log_entry(
        2,
        "spawned",
        "repair:verify",
        Some(r#"{"phase": "verify", "candidate_source": "exploratory_next_edit"}"#),
    );
    let current = snapshot(
        &[
            sample_aggregate("src/file_1.rs", 0.60, 2),
            sample_aggregate("src/file_2.rs", 0.88, 3),
        ],
        std::slice::from_ref(&launched),
        &[success, launched.clone()],
        Some(SwarmState {
            total_agents_spawned: 6,
            active_agents: 1,
            total_tokens_used: 8192,
            total_cost_usd: score(2.5),
            global_temperature: score(0.66),
            iteration_count: 4,
            ..sample_swarm_state()
        }),
        2.5,
        0.66,
        0.88,
    );

    let events = diff_live_status_events(&previous, &current);

    assert!(events.iter().any(|event| {
        event.name() == "phase_started" && is_text(at(&event.details(), &["phase"]), "verify")
    }));
    assert!(events.iter().any(|event| {
        let details = event.details();
        event.name() == "candidate_event"
            && is_text(at(&details, &["agent_id"]), "agent-01")
            && is_text(at(&details, &["transition"]), "status_changed")
            && is_text(at(&details, &["verification_result"]), "passed")
            && is_text(at(&details, &["decision"]), "won")
            && is_text(
                at(&details, &["explanation"]),
                "verified candidate selected for application",
            )
    }));
    assert!(events.iter().any(|event| {
        let details = event.details();
        event.name() == "candidate_event"
            && is_text(at(&details, &["agent_id"]), "agent-02")
            && is_text(at(&details, &["transition"]), "launched")
            && is_text(at(&details, &["source_lineage"]), "exploratory_next_edit")
            && is_text(at(&details, &["decision"]), "in_flight")
    }));
    assert!(events.iter().any(|event| {
        let details = event.details();
        event.name() == "runtime_state"
            && matches!(at(&details, &["backlog"]), Json::Bool(false))
            && is_number(at(&details, &["total_tokens_used"]), "8192")
    }));
    assert!(diff_live_status_events(&current, &current).is_empty());
}

#[test]
fn totals_come_from_the_runs_where_nothing_was_recorded() {
    let first = sample_agent_log_entry(1, "success", "repair", None);
    let second = sample_agent_log_entry(2, "failed", "repair", None);
    let aggregates = [
        sample_aggregate("a.rs", 0.5, -2),
        sample_aggregate("b.rs", 0.5, -1),
    ];
    let taken = snapshot(&aggregates, &[], &[first, second], None, 0.045, 0.0, 0.5);
    assert_eq!(taken.runtime.total_tokens_used, 300);
    assert_eq!(taken.runtime.total_agents_spawned, 2);
    assert_eq!(taken.runtime.max_agent_density, -1);
    assert_eq!(taken.runtime.hottest_file.as_deref(), Some("b.rs"));
    assert_eq!(hottest_aggregate(&[]), None);
}

#[test]
fn candidate_event_details_surface_suppression_and_verification_loss_explanations() {
    let suppressed = sample_agent_log_entry(
        1,
        "failed",
        "repair:verify",
        Some(
            r#"{"phase": "verify",
                "candidate_source": "grounded_next_edit",
                "outcome": "rejected",
                "reason": "duplicate verified candidate output; identical verified state already kept from a higher-ranked candidate"}"#,
        ),
    );
    let verification_failure = sample_agent_log_entry(
        2,
        "failed",
        "repair:verify",
        Some(
            r#"{"phase": "verify",
                "candidate_source": "critique_retry",
                "outcome": "rejected",
                "failure_stage": "verification",
                "reason": "cargo test failed"}"#,
        ),
    );

    let suppressed_details =
        candidate_event_details(&live_state(&suppressed), Transition::StatusChanged, false);
    assert!(is_text(at(&suppressed_details, &["decision"]), "suppressed"));
    assert!(is_text(
        at(&suppressed_details, &["verification_result"]),
        "passed_not_selected"
    ));
    assert!(is_text(
        at(&suppressed_details, &["explanation"]),
        "duplicate verified candidate output; identical verified state already kept from a higher-ranked candidate"
    ));

    let loss_details = candidate_event_details(
        &live_state(&verification_failure),
        Transition::StatusChanged,
        false,
    );
    assert!(is_text(at(&loss_details, &["decision"]), "lost"));
    assert!(is_text(at(&loss_details, &["verification_result"]), "failed"));
    assert!(is_text(
        at(&loss_details, &["explanation"]),
        "cargo test failed"
    ));
}

#[test]
fn format_live_event_line_includes_decision_and_explanation() {
    let entry = AgentLogEntry {
        agent_id: "agent-07".to_string(),
        file_path: "src/lib.rs".to_string(),
        ..sample_agent_log_entry(
            7,
            "success",
            "repair:verify",
            Some(
                r#"{"phase": "verify",
                    "candidate_source": "apply_edit",
                    "outcome": "accepted",
                    "reason": "highest-ranked verified candidate over 2 competing verified candidates; suppressed 1 duplicate verified output",
                    "byte_delta": 12}"#,
            ),
        )
    };
    let event = LiveStatusEvent::Candidate {
        transition: Transition::StatusChanged,
        backlog: false,
        state: build_candidate_live_state(&entry, &figure(0.21), &None),
    };

    let line = format_live_event_line(&event, "10:11:12");
    assert!(line.contains("decision=won"));
    assert!(line.contains("why=highest-ranked verified candidate over 2 competing verified candidates; suppressed 1 duplicate verified output"));
    assert!(line.contains("verify=passed"));
    assert_eq!(
        line,
        "[10:11:12] status_changed | verify | agent-07 | success | src/lib.rs | source=apply_edit | outcome=accepted | decision=won | verify=passed | why=highest-ranked verified candidate over 2 competing verified candidates; suppressed 1 duplicate verified output | bytes=+12 | tokens=700 | cost=$0.2100"
    );
}

#[test]
fn only_the_latest_lines_are_kept() {
    let mut buffer: Vec<String> = Vec::new();
    assert_eq!(
        live_event_lines(&buffer)[1],
        "  No candidate/runtime events observed yet."
    );
    for n in 0..20 {
        push_live_event_line(&mut buffer, format!("line {n}"));
    }
    assert_eq!(buffer.len(), 14);
    assert_eq!(buffer[0], "line 6");
    assert_eq!(buffer[13], "line 19");
    assert_eq!(live_event_lines(&buffer)[0], "\nLive Events (latest 14):");
}

#[test]
fn long_lists_of_agents_are_cut() {
    let many: Vec<AgentLogEntry> = (0..15)
        .map(|id| sample_agent_log_entry(id, "running", "repair", None))
        .collect();
    let live = live_agent_lines(&many);
    assert_eq!(live.len(), 14);
    assert_eq!(live[13], "  ... 3 more");
    assert_eq!(agent_lines(&many).len(), 16);
    assert_eq!(agent_lines(&[]), vec!["No active agents."]);
    assert_eq!(live_agent_lines(&[]), vec!["\nActive Agents: 0"]);
}

#[test]
fn live_status_waits_a_quarter_of_a_second() {
    assert_eq!(live_interval(10), 250);
    assert_eq!(live_interval(1000), 1000);
    assert!(shows_heatmap(false, false, false));
    assert!(!shows_heatmap(false, true, false));
    assert!(shows_heatmap(true, true, true));
}

#[test]
fn event_payload_redacts_nested_values() {
    let details = Json::Object(vec![
        (
            "token_line".to_string(),
            Json::Text("Authorization: Bearer secret-token".to_string()),
        ),
        (
            "nested".to_string(),
            Json::Object(vec![(
                "api_key".to_string(),
                Json::Text("api_key=12345".to_string()),
            )]),
        ),
        (
            "items".to_string(),
            Json::List(vec![
                Json::Text("normal=value".to_string()),
                Json::Text("password: hunter2".to_string()),
            ]),
        ),
    ]);
    let payload = event_payload("2026-03-11T12:00:00Z", "test_event", &details, &[]);

    assert!(is_text(at(&payload, &["event"]), "test_event"));
    assert!(is_text(
        at(&payload, &["details", "token_line"]),
        "Authorization: [REDACTED]"
    ));
    assert!(is_text(
        at(&payload, &["details", "nested", "api_key"]),
        "api_key=[REDACTED]"
    ));
    assert!(is_text(
        at(&payload, &["details", "items", "1"]),
        "password: [REDACTED]"
    ));
    assert!(is_text(
        at(&payload, &["details", "items", "0"]),
        "normal=value"
    ));
}

#[test]
fn efforts_are_named_in_any_case() {
    assert_eq!(parse_reasoning_effort("HIGH"), Some(ReasoningEffort::High));
    assert_eq!(parse_reasoning_effort("med"), Some(ReasoningEffort::Medium));
    assert_eq!(parse_reasoning_effort("much"), None);
}

#[test]
fn next_edit_context_shows_the_lines_around() {
    let path = RepoRelativePath::new("src/lib.rs").unwrap();
    let content = (1..=20).map(|n| format!("line {n}\n")).collect::<String>();
    let context = build_next_edit_cli_context(&path, &content, 10);
    assert_eq!(
        context.code_to_edit,
        "line 7\nline 8\nline 9\nline 10\nline 11\nline 12\nline 13"
    );
    assert_eq!(context.cursor, "4:1");
    assert!(context
        .recent_snippets
        .starts_with("src/lib.rs:2-18\n    2 | line 2\n"));
    assert!(context.recent_snippets.contains("\n>  10 | line 10\n"));
    let beyond = build_next_edit_cli_context(&path, &content, 99);
    assert_eq!(beyond.cursor, "4:1");
    let empty = build_next_edit_cli_context(&path, "", 5);
    assert_eq!(empty.recent_snippets, "src/lib.rs:1-1\n>   1 | ");
    assert_eq!(empty.cursor, "1:1");
}

#[test]
fn completion_splits_behind_the_line() {
    assert_eq!(
        split_at_line("a\nb\nc\n", 2),
        ("a\nb".to_string(), "c".to_string())
    );
    assert_eq!(
        split_at_line("a\nb", 9),
        ("a\nb".to_string(), String::new())
    );
    assert_eq!(edit_fate(true, true), EditFate::Show);
    assert_eq!(edit_fate(false, true), EditFate::WriteUnverified);
    assert_eq!(edit_fate(false, false), EditFate::Verify);
}
