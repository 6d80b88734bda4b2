use mercury_cli::api::types::{read_tool_args, ApiError, ApiUsage, ToolCall, ToolCallFunction};
use mercury_cli::engine::settings::VerifyConfig;
use mercury_cli::failure_parser::{
    parse_cargo_failure, parse_command_parts, VerifierCommandKind,
};
use mercury_cli::json::Json;
use mercury_cli::verification::failures::{redact_parsed_failure_report, report_to_json};
use mercury_cli::verification::grounding::{
    grounding_args, grounding_system_prompt, grounding_user_prompt, redacted_verifier_commands,
    summarize_value, truncate_text, usable_arguments, verifier_commands, GroundingRun, GroundingToolCall, VerificationError,
    GROUNDED_REPAIR_CONTEXT_SCHEMA_NAME,
};
use mercury_cli::verification::invocation::{
    injected_verifier_env, parse_allowlisted_verifier_invocation, verifier_rejection_reason,
    verifier_runtime_mode,
};
use mercury_cli::verification::policy::{verifier_policy_json, ToolContext};
use mercury_cli::verification::secrets::{
    is_sensitive_key, redact_json_value, redact_sensitive_token, EnvValue,
};
use mercury_cli::verification::tools::{
    diff_output, open_tool_call, patch_output, plan_tool_call, read_file_output, rollback_output,
    run_tests_output, search_output, tool_result, CommandRun, RepoToolResult, ToolRequest,
    GIT_DIFF_TOOL, READ_FILE_TOOL, RUN_TESTS_TOOL,
};
use mercury_cli::verification::workspace::{
    normalize_path, normalized_relative, parse_ripgrep_match, path_extension,
    resolve_relative_path, should_skip_copy,
};

fn context(secrets: Vec<EnvValue>) -> ToolContext {
    ToolContext {
        project_root: "/project".to_string(),
        workspace_root: "/workspace".to_string(),
        cwd: "/".to_string(),
        mode: verifier_runtime_mode(&None, &None, &None),
        secrets,
    }
}

fn config() -> VerifyConfig {
    VerifyConfig {
        parse_before_write: true,
        test_after_write: true,
        lint_after_write: false,
        mercury2_critique_on_failure: true,
        test_command: "cargo test --quiet".to_string(),
        lint_command: String::new(),
    }
}

fn at<'a>(value: &'a Json, key: &str) -> &'a Json {
    match value {
        Json::Object(fields) => match fields.iter().find(|(name, _)| name == key) {
            Some((_, found)) => found,
            None => panic!("nothing under {key}"),
        },
        other => panic!("no object: {other:?}"),
    }
}

fn text(value: &Json) -> &str {
    match value {
        Json::Text(text) => text,
        other => panic!("no text: {other:?}"),
    }
}

fn grounding_call(call: &ToolCall, result: RepoToolResult) -> GroundingToolCall {
    GroundingToolCall {
        id: call.id.clone(),
        name: call.function.name.clone(),
        arguments: Json::Object(vec![]),
        arguments_text: call.function.arguments.clone(),
        output_text: "{}".to_string(),
        result,
    }
}

#[test]
fn gather_grounded_context_executes_requested_tool_calls() {
    let tools = context(vec![]);
    let call = ToolCall {
        id: "call-1".to_string(),
        kind: "function".to_string(),
        function: ToolCallFunction {
            name: READ_FILE_TOOL.to_string(),
            arguments: "{\"path\": \"src/lib.rs\"}".to_string(),
        },
    };
    let mut run = GroundingRun::new();
    assert_eq!(run.grant(1), 1);
    let (args, request) = open_tool_call(&tools, &call).unwrap();
    let outcome = match request.unwrap() {
        ToolRequest::ReadFile { at, path } => {
            assert_eq!(at, "/workspace/src/lib.rs");
            Ok(read_file_output(&path, "pub fn stable() -> i32 { 1 }\n"))
        }
        _ => panic!("a file has to be read"),
    };
    let result = tool_result(
        &tools,
        Some(call.id.clone()),
        &call.function.name,
        &args,
        outcome,
    );
    let usage = ApiUsage {
        tokens_used: 10,
        cost_nanos: 20,
    };
    run.record(
        "Focus on src/lib.rs",
        1,
        vec![grounding_call(&call, result)],
        &usage,
        &[],
    );
    assert!(!run.finished);
    run.record("Grounding complete", 0, vec![], &usage, &[]);
    assert!(run.finished);

    let context = run.finish("Repair failing tests", verifier_commands(&config()), None);
    assert_eq!(context.schema_version, GROUNDED_REPAIR_CONTEXT_SCHEMA_NAME);
    assert_eq!(context.rounds.len(), 2);
    assert_eq!(context.rounds[0].tool_calls.len(), 1);
    assert_eq!(context.rounds[0].tool_calls[0].name, READ_FILE_TOOL);
    assert!(context.rounds[0].tool_calls[0].result.success);
    assert!(context.summary.contains("Repair failing tests"));
    assert_eq!(context.total_usage.tokens_used, 20);
    assert_eq!(context.total_usage.cost_nanos, 40);
    assert_eq!(context.tool_surface.len(), 6);

    let brief = context.planner_brief(&None);
    assert!(brief.starts_with("Grounded repair context (schema: grounded-repair-context-v1)."));
    assert!(brief.contains("Verifier commands:\n- cargo test --quiet"));
    assert!(brief.contains("Grounded tool observations:\n- read_file => "));
}

#[test]
fn at_most_six_calls_are_made() {
    let run = GroundingRun::new();
    assert_eq!(run.grant(9), 6);
    let mut short = GroundingRun::new();
    short.record("nothing to do", 0, vec![], &ApiUsage::default(), &[]);
    assert!(short.finished);
}

#[test]
fn prompts_tell_what_is_known() {
    assert!(!grounding_system_prompt().is_empty());
    let prompt = grounding_user_prompt(
        " fix it ",
        &["cargo test".to_string()],
        &Some("{\"a\":1}".to_string()),
        &[],
        2,
    );
    assert!(prompt.starts_with("Repair objective:\nfix it\n\nVerifier commands:\n- cargo test\n"));
    assert!(prompt.contains("Tool call budget already used: 2 of 6.\n"));
    assert!(prompt.contains("\nParsed failure report:\n{\"a\":1}\n"));
}

#[test]
fn commands_are_shown_without_secrets() {
    let mut config = config();
    config.test_command = "API_KEY=hidden-value cargo test".to_string();
    let shown = redacted_verifier_commands(&config, &[]);
    assert_eq!(shown.len(), 1);
    assert!(!shown[0].contains("hidden-value"));
    assert!(shown[0].contains("cargo test"));
}

#[test]
fn long_texts_are_cut() {
    assert_eq!(truncate_text("short", 10), "short");
    assert!(truncate_text("a rather long text", 8).chars().count() < 18);
    assert_eq!(
        summarize_value(&Json::Text("plain".to_string()), "\"plain\"", 20),
        "plain"
    );
    assert_eq!(summarize_value(&Json::Bool(true), "true", 20), "true");
}

#[test]
fn repo_tool_executor_redacts_sensitive_test_output() {
    let secret = "supersecret-observability-token";
    let tools = context(vec![EnvValue {
        key: "INCEPTION_API_KEY".to_string(),
        value: secret.to_string(),
    }]);
    let args = read_tool_args(
        "{\"command\": \"env INCEPTION_API_KEY=supersecret-observability-token cargo test --quiet\"}",
    );
    let outcome = match plan_tool_call(&tools, RUN_TESTS_TOOL, &args).unwrap() {
        ToolRequest::RunTests {
            command,
            parts,
            invocation,
        } => {
            assert_eq!(invocation.command_kind, VerifierCommandKind::CargoTest);
            let run = CommandRun {
                success: false,
                exit_code: Some(101),
                stdout: format!("stdout secret={secret}\n"),
                stderr: format!("stderr secret={secret}\npanic secret={secret}\n"),
                stdout_bytes: 46,
                stderr_bytes: 90,
            };
            Ok(run_tests_output(&tools, &command, &parts, invocation, &run))
        }
        _ => panic!("tests have to run"),
    };
    let result = tool_result(&tools, None, RUN_TESTS_TOOL, &args, outcome);

    assert!(result.success);
    assert!(matches!(at(&result.output, "success"), Json::Bool(false)));
    let output = format!("{:?}", result.output);
    assert!(!output.contains(secret));
    assert!(output.contains("INCEPTION_API_KEY=[REDACTED]"));
    assert!(output.contains("panic secret=[REDACTED]"));
}

#[test]
fn outputs_of_tools_tell_what_was_done() {
    let tools = context(vec![]);
    assert_eq!(text(at(&read_file_output("a", "x"), "content")), "x");
    match at(&patch_output("a", "four"), "bytes_written") {
        Json::Number(count) => assert_eq!(count, "4"),
        other => panic!("no number: {other:?}"),
    }
    assert_eq!(text(at(&diff_output("+x", &None), "diff")), "+x");
    assert_eq!(
        text(at(&rollback_output(&tools), "workspace_root")),
        "/workspace"
    );
    let found = search_output(&tools, "stable", "/workspace/src/lib.rs:3:pub fn stable()\nnoise\n");
    match at(&found, "matches") {
        Json::List(matches) => {
            assert_eq!(matches.len(), 1);
            assert_eq!(text(at(&matches[0], "path")), "src/lib.rs");
        }
        other => panic!("no list: {other:?}"),
    }
}

#[test]
fn diffs_compare_project_and_workspace() {
    match plan_tool_call(&context(vec![]), GIT_DIFF_TOOL, &read_tool_args("{}")).unwrap() {
        ToolRequest::GitDiff {
            left,
            right,
            relative,
        } => {
            assert_eq!((left.as_str(), right.as_str()), ("/project", "/workspace"));
            assert_eq!(relative, None);
        }
        _ => panic!("a diff has to be made"),
    }
    assert_eq!(
        plan_tool_call(&context(vec![]), "unknown", &read_tool_args("{}")).err(),
        Some("unknown tool: unknown".to_string())
    );
}

#[test]
fn matches_of_a_search_have_a_place() {
    let found = parse_ripgrep_match("/w/src/a.rs:12:let x = 1;", "/w").unwrap();
    assert_eq!(found.path, "src/a.rs");
    assert_eq!(found.line, 12);
    assert_eq!(found.column, None);
    assert_eq!(found.text, "let x = 1;:");
    let placed = parse_ripgrep_match("/w/src/a.rs:12:5:a:b", "/w").unwrap();
    assert_eq!(placed.column, Some(5));
    assert_eq!(placed.text, "a:b");
    assert!(parse_ripgrep_match("no match", "/w").is_none());
}

#[test]
fn paths_are_normalized() {
    assert_eq!(normalize_path("/a/./b/../c", "/").unwrap(), ["a", "c"]);
    assert_eq!(
        resolve_relative_path("/w", "src/../a.rs", "/").unwrap(),
        "/w/a.rs"
    );
    assert!(resolve_relative_path("/w", "../etc/passwd", "/").is_err());
    assert_eq!(normalized_relative("/w", "/w/src/a.rs"), "src/a.rs");
    assert_eq!(normalized_relative("ws", "ws/./a"), "a");
    assert_eq!(normalized_relative("ws", "./ws/a"), "./ws/a");
    assert_eq!(normalized_relative("./ws", "./ws/a"), "a");
    assert_eq!(normalized_relative("./ws", "ws/a"), "ws/a");
    assert_eq!(normalized_relative(".", "./a"), "a");
    assert_eq!(path_extension("src/a.rs").as_deref(), Some("rs"));
    assert_eq!(path_extension("src/.hidden"), None);
    assert!(should_skip_copy(".git/config"));
    assert!(!should_skip_copy("src/a.rs"));
}

#[test]
fn automated_runs_tell_the_verifier() {
    let invocation =
        parse_allowlisted_verifier_invocation(&parse_command_parts("cargo test")).unwrap();
    let quiet = verifier_runtime_mode(&None, &None, &None);
    let in_ci = verifier_runtime_mode(&Some("true".to_string()), &None, &None);
    assert!(!quiet.ci);
    assert!(in_ci.ci);
    assert!(
        injected_verifier_env(&invocation, in_ci).len()
            >= injected_verifier_env(&invocation, quiet).len()
    );
}

#[test]
fn refusals_are_classified() {
    assert_ne!(
        verifier_rejection_reason("shell composition is not allowed: a | b"),
        verifier_rejection_reason("command not allowlisted: make")
    );
}

#[test]
fn secrets_are_found_by_their_names() {
    assert!(is_sensitive_key("my_api_key"));
    assert!(is_sensitive_key("PASSWORD"));
    assert!(!is_sensitive_key("path"));
    assert_eq!(redact_sensitive_token("API_KEY=abc"), "API_KEY=[REDACTED]");
    assert_eq!(redact_sensitive_token("plain"), "plain");
    let value = Json::Object(vec![("note".to_string(), Json::Text("password: x".to_string()))]);
    assert!(!format!("{:?}", redact_json_value(&value, &[])).contains("password: x"));
}

#[test]
fn reports_are_masked_and_written() {
    let report = parse_cargo_failure(
        &parse_command_parts("cargo check"),
        "",
        "error: key is abc123xyz\n --> src/a.rs:1:2\n",
    );
    let env = [EnvValue {
        key: "GITHUB_TOKEN".to_string(),
        value: "abc123xyz".to_string(),
    }];
    let masked = redact_parsed_failure_report(&report, &env);
    assert!(!masked.failures[0].message.contains("abc123xyz"));
    let json = report_to_json(&report);
    assert_eq!(text(at(&json, "stage")), "Compile");
    match at(&json, "failures") {
        Json::List(failures) => {
            assert_eq!(text(at(&failures[0], "error_class")), "compile.unknown");
        }
        other => panic!("no list: {other:?}"),
    }
}

#[test]
fn grounding_errors_name_their_cause() {
    assert_eq!(
        VerificationError::Grounding("x".to_string()).to_string(),
        "grounding failed: x"
    );
    assert_eq!(VerificationError::Io("x".to_string()).to_string(), "x");
    assert_eq!(
        VerificationError::Api(ApiError::MaxRetries(2)).to_string(),
        ApiError::MaxRetries(2).to_string()
    );
}

#[test]
fn unreadable_arguments_count_as_none() {
    let call = |arguments: &str| ToolCall {
        id: "call-1".to_string(),
        kind: "function".to_string(),
        function: ToolCallFunction {
            name: READ_FILE_TOOL.to_string(),
            arguments: arguments.to_string(),
        },
    };
    assert_eq!(usable_arguments(&call("{oops")), "{}");
    assert_eq!(grounding_args(&call("{oops")).path, None);
    let given = call("{\"path\": \"a.rs\"}");
    assert_eq!(usable_arguments(&given), given.function.arguments);
    assert_eq!(grounding_args(&given).path.as_deref(), Some("a.rs"));
}

#[test]
fn variables_that_are_set_twice_are_shown_once() {
    let tools = context(vec![]);
    let parts = parse_command_parts("A=1 B=2 A=3 cargo test");
    let invocation = parse_allowlisted_verifier_invocation(&parts).unwrap();
    let kind = VerifierCommandKind::CargoTest;
    let policy = verifier_policy_json(&tools, &Some(invocation), kind, &[]);
    match at(&policy, "env_overrides") {
        Json::Object(fields) => {
            let shown: Vec<(&str, &str)> = fields
                .iter()
                .map(|(name, value)| (name.as_str(), text(value)))
                .collect();
            assert_eq!(shown, [("B", "2"), ("A", "3")]);
        }
        other => panic!("no object: {other:?}"),
    }
}
