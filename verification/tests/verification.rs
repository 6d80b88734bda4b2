use mercury_cli::api::types::{ToolArgs, ToolCall, ToolCallFunction};
use mercury_cli::failure_parser::parse_command_parts;
use mercury_cli::json::Json;
use mercury_cli::verification::invocation::{
    parse_allowlisted_verifier_invocation, verifier_command_allowlisted, verifier_runtime_mode,
};
use mercury_cli::verification::policy::ToolContext;
use mercury_cli::verification::secrets::{
    redact_secrets, redact_sensitive_text, EnvValue,
};
use mercury_cli::verification::tools::{
    mercury_repair_tools, open_tool_call, plan_tool_call, tool_result, ToolRequest,
    APPLY_PATCH_TEMP_TOOL, GIT_DIFF_TOOL, READ_FILE_TOOL, ROLLBACK_CANDIDATE_TOOL, RUN_TESTS_TOOL,
    SEARCH_SYMBOL_TOOL,
};

fn context() -> ToolContext {
    ToolContext {
        project_root: "/project".to_string(),
        workspace_root: "/workspace".to_string(),
        cwd: "/".to_string(),
        mode: verifier_runtime_mode(&None, &None, &None),
        secrets: Vec::new(),
    }
}

fn arguments(path: Option<&str>, command: Option<&str>) -> ToolArgs {
    ToolArgs {
        path: path.map(str::to_string),
        query: None,
        command: command.map(str::to_string),
        content: None,
    }
}

fn text_at<'a>(value: &'a Json, key: &str) -> &'a str {
    match value {
        Json::Object(fields) => match fields.iter().find(|(name, _)| name == key) {
            Some((_, Json::Text(text))) => text,
            other => panic!("no text under {key}: {other:?}"),
        },
        other => panic!("no object: {other:?}"),
    }
}

#[test]
fn tool_definitions_cover_repo_native_surface() {
    let tools = mercury_repair_tools();
    let names = tools
        .iter()
        .map(|tool| tool.function.name.as_str())
        .collect::<Vec<_>>();
    assert!(names.contains(&READ_FILE_TOOL));
    assert!(names.contains(&SEARCH_SYMBOL_TOOL));
    assert!(names.contains(&RUN_TESTS_TOOL));
    assert!(names.contains(&APPLY_PATCH_TEMP_TOOL));
    assert!(names.contains(&GIT_DIFF_TOOL));
    assert!(names.contains(&ROLLBACK_CANDIDATE_TOOL));
}

#[test]
fn repo_tool_executor_rejects_shell_composition() {
    let c = context();
    let args = arguments(None, Some("cargo test && cargo clippy"));
    let outcome = plan_tool_call(&c, RUN_TESTS_TOOL, &args)
        .map(|_| Json::Null);
    let result = tool_result(&c, None, RUN_TESTS_TOOL, &args, outcome);
    assert!(!result.success);
    assert!(text_at(&result.output, "error").contains("shell composition"));
}

#[test]
fn tool_calls_are_read_from_their_arguments() {
    let c = context();
    let call = ToolCall {
        id: "call-1".to_string(),
        kind: "function".to_string(),
        function: ToolCallFunction {
            name: READ_FILE_TOOL.to_string(),
            arguments: "{\"path\":\"src/lib.rs\"}".to_string(),
        },
    };
    match open_tool_call(&c, &call) {
        Ok((args, Ok(ToolRequest::ReadFile { .. }))) => {
            assert_eq!(args.path.as_deref(), Some("src/lib.rs"))
        }
        other => panic!("expected a file to be read, got {other:?}"),
    }
}

#[test]
fn tool_calls_without_json_fail() {
    let c = context();
    let call = ToolCall {
        id: "call-2".to_string(),
        kind: "function".to_string(),
        function: ToolCallFunction {
            name: READ_FILE_TOOL.to_string(),
            arguments: "not json".to_string(),
        },
    };
    match open_tool_call(&c, &call) {
        Err(result) => {
            assert!(!result.success);
            assert_eq!(result.tool_call_id.as_deref(), Some("call-2"));
            assert!(text_at(&result.output, "error")
                .starts_with("invalid tool arguments: JSON parse error: "));
        }
        other => panic!("expected a failure, got {other:?}"),
    }
}

#[test]
fn tools_do_not_leave_the_workspace() {
    let c = context();
    let args = arguments(Some("../outside.rs"), None);
    assert!(plan_tool_call(&c, READ_FILE_TOOL, &args).is_err());
    assert_eq!(
        plan_tool_call(&c, READ_FILE_TOOL, &arguments(None, None)).err().as_deref(),
        Some("missing path")
    );
    assert_eq!(
        plan_tool_call(&c, "format_disk", &args).err().as_deref(),
        Some("unknown tool: format_disk")
    );
}

#[test]
fn build_allowlisted_verifier_command_accepts_typescript_commands() {
    let npm_test = parse_command_parts("env NODE_ENV=test npm run test -- --runInBand");
    assert!(parse_allowlisted_verifier_invocation(&npm_test).is_ok());

    let npx_lint = parse_command_parts("env -i npx --yes eslint src");
    assert!(parse_allowlisted_verifier_invocation(&npx_lint).is_ok());

    let pnpm_check = parse_command_parts("pnpm exec tsc --noEmit");
    assert!(parse_allowlisted_verifier_invocation(&pnpm_check).is_ok());
}

#[test]
fn build_allowlisted_verifier_command_rejects_unsupported_inputs() {
    let unsupported_env = parse_command_parts("env -x npm test");
    assert!(parse_allowlisted_verifier_invocation(&unsupported_env).is_err());

    let unsupported_script = parse_command_parts("npm run build");
    assert!(parse_allowlisted_verifier_invocation(&unsupported_script).is_err());
}

#[test]
fn verifier_allowlist_accepts_direct_rust_cargo_commands() {
    assert!(verifier_command_allowlisted("cargo test"));
    assert!(verifier_command_allowlisted(
        "RUST_BACKTRACE=1 env RUSTFLAGS=-Dwarnings cargo +nightly clippy --workspace"
    ));
    assert!(verifier_command_allowlisted(
        "env -i cargo check -p mercury-cli"
    ));
}

#[test]
fn verifier_allowlist_rejects_shell_composition_and_non_cargo_commands() {
    assert!(!verifier_command_allowlisted("cargo test && cargo clippy"));
    assert!(!verifier_command_allowlisted("cargo test | tee out.txt"));
    assert!(!verifier_command_allowlisted("pytest -q"));
    assert!(!verifier_command_allowlisted(""));
}

#[test]
fn redact_secrets_scrubs_marker_lines() {
    let input = "Authorization: Bearer abcdef\napi_key=12345\nnormal=value\n";
    let output = redact_secrets(input, &[]);
    assert!(output.contains("Authorization: [REDACTED]"));
    assert!(output.contains("api_key=[REDACTED]"));
    assert!(output.contains("normal=value"));
}

#[test]
fn values_of_secret_variables_are_masked() {
    let env = [EnvValue {
        key: "AWS_ACCESS_KEY_ID".to_string(),
        value: "abcd1234".to_string(),
    }];
    let output = redact_secrets("pushed with abcd1234 twice", &env);
    assert_eq!(output, "pushed with [REDACTED:AWS_ACCESS_KEY_ID] twice");
    assert_eq!(
        redact_sensitive_text("INCEPTION_API_KEY=xyz plain", &[]),
        "INCEPTION_API_KEY=[REDACTED] plain"
    );
}
