use mercury_cli::api::client::{Mercury2Client, MercuryEditClient};
use mercury_cli::api::prompt::{
    build_apply_request, build_next_edit_request, strict_json_schema_response_format,
    THERMAL_ANALYSIS_PROMPT,
};
use mercury_cli::api::schema::{planner_response_json_schema_v1, thermal_assessment_json_schema};
use mercury_cli::api::transport::{
    after_failure, api_key_env_hint, estimate_cost, format_dollars, is_retryable, key_env_names,
    next_slot, parse_chat_response, parse_chat_response_with_tools, parse_fim_response,
    resolve_api_key, retry_delay_ms, RequestFailure, RetryStep, TransportConfig,
};
use mercury_cli::api::types::{
    default_edit_max_tokens, default_fim_max_tokens, ApiError, ApiUsage, ChatChoice, ChatMessage,
    ChatRequest, ChatResponse, EditPayload, FimResponse, NextEditPayload, ReasoningEffort,
    ToolCall, ToolCallFunction, ToolChoice, ToolChoiceFunction, ToolChoiceFunctionName,
    ToolDefinition, ToolFunctionDefinition, UsageBlock,
    INCEPTION_API_KEY_ENV, MERCURY2_MODEL, MERCURY_API_KEY_ENV, PLANNER_RESPONSE_SCHEMA_NAME,
};
use mercury_cli::json::Json;
use mercury_cli::verification::secrets::EnvValue;

fn at<'a>(value: &'a Json, path: &[&str]) -> &'a Json {
    let mut current = value;
    for key in path {
        current = match current {
            Json::Object(fields) => fields
                .iter()
                .find(|(name, _)| name == key)
                .map(|(_, value)| value)
                .expect("field should exist"),
            Json::List(items) => &items[key.parse::<usize>().expect("position")],
            _ => panic!("no field {key}"),
        };
    }
    current
}

fn is_text(value: &Json, expected: &str) -> bool {
    matches!(value, Json::Text(text) if text == expected)
}

fn env(pairs: &[(&str, &str)]) -> Vec<EnvValue> {
    pairs
        .iter()
        .map(|(key, value)| EnvValue {
            key: key.to_string(),
            value: value.to_string(),
        })
        .collect()
}

#[test]
fn error_display_budget_exceeded() {
    let err = ApiError::BudgetExceeded {
        spent: 1_234_500_000,
        limit: 1_000_000_000,
    };
    let msg = err.to_string();
    assert!(msg.contains("1.2345"));
    assert!(msg.contains("1.0000"));
    assert_eq!(msg, "budget exceeded: $1.2345 of $1.0000 limit");
}

#[test]
fn error_display_max_retries() {
    let err = ApiError::MaxRetries(5);
    assert_eq!(err.to_string(), "max retries (5) exceeded");
}

#[test]
fn error_display_missing_key() {
    let err = ApiError::MissingApiKey(api_key_env_hint());
    let msg = err.to_string();
    assert!(msg.contains(INCEPTION_API_KEY_ENV));
    assert!(msg.contains(MERCURY_API_KEY_ENV));
}

#[test]
fn error_display_api_status() {
    let err = ApiError::ApiStatus {
        status: 403,
        body: "forbidden".into(),
    };
    assert!(err.to_string().contains("403"));
    assert!(err.to_string().contains("forbidden"));
}

#[test]
fn error_display_other_failures() {
    assert_eq!(ApiError::Http("down".into()).to_string(), "HTTP error: down");
    assert_eq!(
        ApiError::JsonParse("eof".into()).to_string(),
        "JSON parse error: eof"
    );
    assert_eq!(
        ApiError::SchemaViolation("no steps".into()).to_string(),
        "schema violation: no steps"
    );
}

#[test]
fn edit_payload_default_max_tokens() {
    assert_eq!(default_edit_max_tokens(), 8192);
}

#[test]
fn fim_payload_has_its_own_default() {
    assert!(default_fim_max_tokens() > 0);
}

#[test]
fn api_usage_defaults_to_zero() {
    let usage = ApiUsage::default();
    assert_eq!(usage.tokens_used, 0);
    assert_eq!(usage.cost_nanos, 0);
}

#[test]
fn is_retryable_identifies_transient_codes() {
    assert!(is_retryable(429));
    assert!(is_retryable(500));
    assert!(is_retryable(502));
    assert!(is_retryable(503));
    assert!(is_retryable(599));
    assert!(!is_retryable(200));
    assert!(!is_retryable(400));
    assert!(!is_retryable(401));
    assert!(!is_retryable(403));
    assert!(!is_retryable(404));
}

#[test]
fn cost_estimation_is_correct() {
    let usage = UsageBlock {
        prompt_tokens: 1000,
        completion_tokens: 1000,
        total_tokens: 2000,
        reasoning_tokens: 0,
        cached_input_tokens: 0,
    };
    let cost = estimate_cost(&usage);
    assert_eq!(cost, 1000 * 250 + 1000 * 750);

    let usage_cached = UsageBlock {
        prompt_tokens: 1000,
        completion_tokens: 1000,
        total_tokens: 2000,
        reasoning_tokens: 0,
        cached_input_tokens: 500,
    };
    let cost_cached = estimate_cost(&usage_cached);
    assert!(cost_cached < cost, "cached inputs should reduce cost");
}

#[test]
fn client_builder_methods() {
    let client = Mercury2Client::new("test-key".into())
        .with_base_url("http://localhost:8080".into())
        .with_model("mercury-coder-large".into())
        .with_retries(5, 1000)
        .with_budget(10_000_000_000)
        .with_request_spacing(250);

    assert_eq!(client.base_url, "http://localhost:8080");
    assert_eq!(client.model, "mercury-coder-large");
    assert_eq!(client.config.retry_limit, 5);
    assert_eq!(client.config.backoff_base_ms, 1000);
    assert_eq!(client.config.budget_limit, Some(10_000_000_000));
    assert_eq!(client.config.min_request_interval_ms, 250);
    assert_eq!(client.cumulative_cost(), 0);
    assert_eq!(client.cumulative_tokens(), 0);
}

#[test]
fn budget_tracking_enforces_limit() {
    let mut client = Mercury2Client::new("test-key".into()).with_budget(100_000_000);

    let small = ApiUsage {
        tokens_used: 100,
        cost_nanos: 50_000_000,
    };
    assert!(client.track_usage(&small).is_ok());
    assert_eq!(client.cumulative_cost(), 50_000_000);
    assert_eq!(client.cumulative_tokens(), 100);

    let over = ApiUsage {
        tokens_used: 200,
        cost_nanos: 80_000_000,
    };
    let result = client.track_usage(&over);
    assert!(result.is_err());
    match result {
        Err(ApiError::BudgetExceeded { spent, limit }) => {
            assert_eq!(spent, 130_000_000);
            assert_eq!(limit, 100_000_000);
        }
        other => panic!("expected BudgetExceeded, got {other:?}"),
    }
    assert_eq!(client.cumulative_tokens(), 300);
}

#[test]
fn from_env_prefers_inception_key() {
    let vars = env(&[
        (INCEPTION_API_KEY_ENV, "preferred-key"),
        (MERCURY_API_KEY_ENV, "legacy-key"),
    ]);
    let client = Mercury2Client::from_env(&vars).expect("client should load preferred key");
    assert_eq!(client.api_key, "preferred-key");
}

#[test]
fn from_env_falls_back_to_legacy_key() {
    let vars = env(&[(MERCURY_API_KEY_ENV, "legacy-key")]);
    let client = Mercury2Client::from_env(&vars).expect("client should load fallback key");
    assert_eq!(client.api_key, "legacy-key");
}

#[test]
fn edit_client_from_env_uses_shared_resolution() {
    let vars = env(&[
        (INCEPTION_API_KEY_ENV, "preferred-key"),
        (MERCURY_API_KEY_ENV, "legacy-key"),
    ]);
    let client = MercuryEditClient::from_env("http://localhost:9000", &vars)
        .expect("edit client should load preferred key");
    assert_eq!(client.api_key, "preferred-key");
}

#[test]
fn from_env_fails_without_key() {
    let result = Mercury2Client::from_env(&env(&[]));
    assert!(result.is_err());
    match result {
        Err(ApiError::MissingApiKey(name)) => {
            assert!(name.contains(INCEPTION_API_KEY_ENV));
            assert!(name.contains(MERCURY_API_KEY_ENV));
        }
        other => panic!("expected MissingApiKey, got {:?}", other.err()),
    }
}

#[test]
fn configured_variable_comes_first() {
    let vars = env(&[
        ("TEAM_KEY", "team"),
        (INCEPTION_API_KEY_ENV, "preferred-key"),
    ]);
    assert_eq!(
        resolve_api_key(" TEAM_KEY ", &vars).expect("key should be found"),
        "team"
    );
    assert_eq!(key_env_names("")[0], INCEPTION_API_KEY_ENV);
}

#[test]
fn edit_client_builder() {
    let client = MercuryEditClient::new("test-key".into(), "http://localhost:9000".into())
        .with_retries(7, 250)
        .with_budget(1_500_000_000)
        .with_request_spacing(100);

    assert_eq!(client.config.retry_limit, 7);
    assert_eq!(client.config.backoff_base_ms, 250);
    assert_eq!(client.config.budget_limit, Some(1_500_000_000));
    assert_eq!(client.config.min_request_interval_ms, 100);
    assert_eq!(client.cumulative_tokens(), 0);
}

#[test]
fn thermal_analysis_prompt_is_non_empty() {
    assert!(!THERMAL_ANALYSIS_PROMPT.is_empty());
    assert!(THERMAL_ANALYSIS_PROMPT.contains("complexity_score"));
    assert!(THERMAL_ANALYSIS_PROMPT.contains("suggested_action"));
}

#[test]
fn reasoning_effort_serializes() {
    assert_eq!(ReasoningEffort::Instant.as_str(), "instant");
    assert_eq!(ReasoningEffort::High.as_str(), "high");
}

#[test]
fn strict_json_schema_request_uses_official_shape() {
    let request = ChatRequest {
        model: MERCURY2_MODEL.to_string(),
        messages: vec![ChatMessage {
            role: "user".into(),
            content: "plan this".into(),
        }],
        max_tokens: 256,
        response_format: Some(strict_json_schema_response_format(
            PLANNER_RESPONSE_SCHEMA_NAME,
            planner_response_json_schema_v1(),
        )),
        reasoning_effort: Some(ReasoningEffort::Medium),
        tools: None,
        tool_choice: None,
    };

    let format = request.response_format.expect("format should be set");
    assert_eq!(format.kind, "json_schema");
    assert_eq!(format.json_schema.name, PLANNER_RESPONSE_SCHEMA_NAME);
    assert!(format.json_schema.strict);
    assert!(is_text(
        at(
            &format.json_schema.schema,
            &["properties", "schema_version", "const"]
        ),
        PLANNER_RESPONSE_SCHEMA_NAME
    ));
    assert!(is_text(
        at(&format.json_schema.schema, &["$schema"]),
        "https://json-schema.org/draft/2020-12/schema"
    ));
}

#[test]
fn apply_request_wraps_original_and_update_snippet_verbatim() {
    let payload = EditPayload {
        original_code: "fn main() {}".into(),
        update_snippet: "fn main() { println!(\"hi\"); }".into(),
        max_tokens: 1024,
    };
    let request = build_apply_request(&payload);
    let content = &request.messages[0].content;

    assert!(content.contains("<|original_code|>\nfn main() {}\n<|/original_code|>"));
    assert!(content
        .contains("<|update_snippet|>\nfn main() { println!(\"hi\"); }\n<|/update_snippet|>"));
    assert!(!content.contains("// Instruction:"));
}

#[test]
fn next_edit_request_includes_empty_wrappers_and_nested_sections() {
    let payload = NextEditPayload {
        file_content: "fn main() {}".into(),
        code_to_edit: String::new(),
        cursor: String::new(),
        recent_snippets: String::new(),
        edit_history: String::new(),
    };
    let request = build_next_edit_request("src/main.rs", &payload);
    let content = &request.messages[0].content;

    assert!(content
        .contains("<|recently_viewed_code_snippets|>\n\n<|/recently_viewed_code_snippets|>"));
    assert!(content.contains(
        "<|current_file_content|>\ncurrent_file_path: src/main.rs\nfn main() {}\n<|code_to_edit|>\n\n<|cursor|>\n\n<|/cursor|>\n<|/code_to_edit|>\n<|/current_file_content|>"
    ));
    assert!(content.contains("<|edit_diff_history|>\n\n<|/edit_diff_history|>"));
    assert!(!content.contains("<|current_file_path|>"));
}

#[test]
fn next_edit_request_preserves_chronological_unidiff_history() {
    let history = "--- a/src/lib.rs\n+++ b/src/lib.rs\n@@ -1,3 +1,4 @@\n fn a() {}\n--- a/src/main.rs\n+++ b/src/main.rs\n@@ -2,2 +2,3 @@\n fn b() {}";
    let payload = NextEditPayload {
        file_content: "mod api;".into(),
        code_to_edit: "mod api;".into(),
        cursor: "1:1".into(),
        recent_snippets: "src/lib.rs\nfn a() {}".into(),
        edit_history: history.into(),
    };

    let request = build_next_edit_request("src/main.rs", &payload);
    let content = &request.messages[0].content;
    assert!(content.contains(history));
    assert!(content.contains(
        "<|code_to_edit|>\nmod api;\n<|cursor|>\n1:1\n<|/cursor|>\n<|/code_to_edit|>"
    ));
}

#[test]
fn tool_call_request_serializes_tools_and_named_tool_choice() {
    let client = Mercury2Client::new("test-key".into()).with_reasoning_effort(ReasoningEffort::Low);
    let request = client.build_chat_request(
        "",
        "fix failing tests",
        256,
        None,
        Some(vec![ToolDefinition {
            kind: "function".into(),
            function: ToolFunctionDefinition {
                name: "run_tests".into(),
                description: Some("Run targeted tests".into()),
                parameters: Json::Object(Vec::new()),
            },
        }]),
        Some(ToolChoice::Function(ToolChoiceFunction {
            kind: "function".into(),
            function: ToolChoiceFunctionName {
                name: "run_tests".into(),
            },
        })),
    );

    let tools = request.tools.expect("tools should be set");
    assert_eq!(tools[0].kind, "function");
    assert_eq!(tools[0].function.name, "run_tests");
    match request.tool_choice {
        Some(ToolChoice::Function(choice)) => {
            assert_eq!(choice.kind, "function");
            assert_eq!(choice.function.name, "run_tests");
        }
        other => panic!("expected a named tool, got {other:?}"),
    }
}

#[test]
fn parse_chat_response_with_tools_extracts_tool_calls_and_usage() {
    let response = ChatResponse {
        choices: vec![ChatChoice {
            content: Some(String::new()),
            tool_calls: vec![ToolCall {
                id: "call_123".into(),
                kind: "function".into(),
                function: ToolCallFunction {
                    name: "read_file".into(),
                    arguments: "{\"path\":\"src/lib.rs\"}".into(),
                },
            }],
        }],
        usage: Some(UsageBlock {
            prompt_tokens: 10,
            completion_tokens: 4,
            total_tokens: 14,
            reasoning_tokens: 0,
            cached_input_tokens: 0,
        }),
    };

    let (content, tool_calls, usage) = parse_chat_response_with_tools(response);
    assert_eq!(content, "");
    assert_eq!(tool_calls.len(), 1);
    assert_eq!(tool_calls[0].id, "call_123");
    assert_eq!(tool_calls[0].function.name, "read_file");
    assert_eq!(
        tool_calls[0]
            .function
            .parse_arguments()
            .expect("valid json")
            .path
            .as_deref(),
        Some("src/lib.rs")
    );
    assert_eq!(usage.tokens_used, 14);
}

#[test]
fn parse_chat_response_with_tools_tolerates_null_tool_calls() {
    let response = ChatResponse {
        choices: vec![ChatChoice {
            content: Some("OK".into()),
            tool_calls: Vec::new(),
        }],
        usage: Some(UsageBlock {
            prompt_tokens: 6,
            completion_tokens: 1,
            total_tokens: 7,
            reasoning_tokens: 0,
            cached_input_tokens: 0,
        }),
    };

    let (content, tool_calls, usage) = parse_chat_response_with_tools(response);
    assert_eq!(content, "OK");
    assert!(tool_calls.is_empty());
    assert_eq!(usage.tokens_used, 7);
}

#[test]
fn tool_arguments_that_are_no_json_are_refused() {
    let call = ToolCallFunction {
        name: "read_file".into(),
        arguments: "{\"path\":".into(),
    };
    match call.parse_arguments() {
        Err(ApiError::JsonParse(message)) => assert!(message.contains("EOF")),
        other => panic!("expected a parse error, got {other:?}"),
    }
    let numbers = ToolCallFunction {
        name: "read_file".into(),
        arguments: "{\"path\":3,\"query\":\"add\"}".into(),
    };
    let args = numbers.parse_arguments().expect("valid json");
    assert_eq!(args.path, None);
    assert_eq!(args.query.as_deref(), Some("add"));
}

#[test]
fn answers_without_choices_are_empty() {
    let (content, usage) = parse_chat_response(ChatResponse {
        choices: Vec::new(),
        usage: None,
    });
    assert_eq!(content, "");
    assert_eq!(usage.tokens_used, 0);
    let (text, _) = parse_fim_response(FimResponse {
        choices: vec!["a".into(), "b".into()],
        usage: None,
    });
    assert_eq!(text, "a");
}

#[test]
fn planner_schema_requires_versioned_contract() {
    let schema = planner_response_json_schema_v1();
    assert!(is_text(at(&schema, &["type"]), "object"));
    assert!(is_text(
        at(&schema, &["$schema"]),
        "https://json-schema.org/draft/2020-12/schema"
    ));
    assert!(is_text(
        at(&schema, &["title"]),
        "Mercury CLI Planner Response v1"
    ));
    assert!(is_text(
        at(&schema, &["properties", "schema_version", "const"]),
        PLANNER_RESPONSE_SCHEMA_NAME
    ));
    assert!(matches!(
        at(&schema, &["additionalProperties"]),
        Json::Bool(false)
    ));
    assert!(matches!(
        at(
            &schema,
            &["properties", "steps", "items", "additionalProperties"]
        ),
        Json::Bool(false)
    ));
    assert!(
        matches!(at(&schema, &["properties", "steps", "items", "properties", "priority", "minimum"]), Json::Number(n) if n.parse::<f64>() == Ok(0.0))
    );
    assert!(
        matches!(at(&schema, &["properties", "assessments", "items", "properties", "reasoning", "minLength"]), Json::Number(n) if n == "1")
    );
}

#[test]
fn assessment_schema_names_every_score() {
    let schema = thermal_assessment_json_schema();
    for key in [
        "complexity_score",
        "dependency_score",
        "risk_score",
        "churn_score",
        "suggested_action",
        "reasoning",
    ] {
        let _ = at(&schema, &["properties", key]);
    }
}

fn config() -> TransportConfig {
    TransportConfig {
        retry_limit: 2,
        backoff_base_ms: 100,
        budget_limit: None,
        min_request_interval_ms: 0,
    }
}

#[test]
fn delays_double_and_then_the_request_fails() {
    assert_eq!(retry_delay_ms(config(), 1), 100);
    assert_eq!(retry_delay_ms(config(), 2), 200);
    assert_eq!(retry_delay_ms(config(), 3), 400);
    let overloaded = || RequestFailure::Status {
        status: 503,
        body: "busy".into(),
    };
    assert!(matches!(
        after_failure(config(), 1, overloaded()),
        RetryStep::Wait(100)
    ));
    assert!(matches!(
        after_failure(config(), 2, overloaded()),
        RetryStep::Wait(200)
    ));
    assert!(matches!(
        after_failure(config(), 3, overloaded()),
        RetryStep::Fail(_)
    ));
}

#[test]
fn failures_that_last_are_not_tried_again() {
    let step = after_failure(
        config(),
        1,
        RequestFailure::Status {
            status: 401,
            body: "denied".into(),
        },
    );
    match step {
        RetryStep::Fail(ApiError::ApiStatus { status, body }) => {
            assert_eq!(status, 401);
            assert_eq!(body, "denied");
        }
        other => panic!("expected a final failure, got {other:?}"),
    }
}

#[test]
fn requests_keep_their_distance() {
    assert_eq!(next_slot(0, 500, 0), (0, 0));
    let (next, wait) = next_slot(0, 500, 2);
    assert_eq!(wait, 0);
    assert_eq!(next, 500 + 2_000_000);
    let (_, wait) = next_slot(next, 500, 2);
    assert_eq!(wait, 2_000_000);
}

#[test]
fn dollars_have_four_decimals() {
    assert_eq!(format_dollars(1_234_560_000), "1.2346");
    assert_eq!(format_dollars(-50_000_000), "-0.0500");
    assert_eq!(format_dollars(0), "0.0000");
}
