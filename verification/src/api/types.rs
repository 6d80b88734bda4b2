//! What is sent to the services and what comes back.
use crate::api::transport;
use crate::json;
use crate::json::{refuse_json, text_field, Json};
use crate::score::Score;
use crate::text::chars;
use crate::text::chars::{concat2, concat3};
use crate::text::number;
use crate::text::number::format_u64;
use vstd::prelude::*;
use vstd::string::*;

verus! {

/// The environment variable that holds the key of the services.
pub const INCEPTION_API_KEY_ENV: &'static str = "INCEPTION_API_KEY";

/// The environment variable that is read if the first is not set.
pub const MERCURY_API_KEY_ENV: &'static str = "MERCURY_API_KEY";

/// The name of the schema of planner responses.
pub const PLANNER_RESPONSE_SCHEMA_NAME: &'static str = "planner-response-v1";

/// The name of the schema of thermal assessments.
pub const THERMAL_ASSESSMENT_SCHEMA_NAME: &'static str = "thermal_assessment_v1";

/// The address of chat completions.
pub const MERCURY2_BASE_URL: &'static str = "https://api.inceptionlabs.ai/v1/chat/completions";

/// The model of chat completions.
pub const MERCURY2_MODEL: &'static str = "mercury-2";

/// The model of edits.
pub const MERCURY_EDIT_MODEL: &'static str = "mercury-edit";

/// How much the model reasons before it answers.
#[derive(Debug, Clone, Copy, PartialEq, Eq, Structural)]
pub enum ReasoningEffort {
    Instant,
    Low,
    Medium,
    High,
}

/// The name of an effort in requests.
pub open spec fn effort_name(e: ReasoningEffort) -> Seq<char> {
    match e {
        ReasoningEffort::Instant => "instant"@,
        ReasoningEffort::Low => "low"@,
        ReasoningEffort::Medium => "medium"@,
        ReasoningEffort::High => "high"@,
    }
}

impl ReasoningEffort {
    /// The name of the effort in requests.
    pub fn as_str(&self) -> (r: &'static str)
        ensures
            r@ == effort_name(*self),
    {
        match self {
            ReasoningEffort::Instant => "instant",
            ReasoningEffort::Low => "low",
            ReasoningEffort::Medium => "medium",
            ReasoningEffort::High => "high",
        }
    }
}

/// What can go wrong with a request.
#[derive(Debug, Clone, PartialEq, Eq)]
pub enum ApiError {
    /// The request did not go through.
    Http(String),
    /// The service answered with a failure.
    ApiStatus { status: u16, body: String },
    /// The answer is not the JSON that was asked for.
    JsonParse(String),
    /// The answer does not keep to its schema.
    SchemaViolation(String),
    /// More was spent than allowed, in billionths of a dollar.
    BudgetExceeded { spent: i128, limit: i128 },
    /// The request failed as often as it may be tried again.
    MaxRetries(u32),
    /// No environment variable holds a key.
    MissingApiKey(String),
}

/// What an error says.
pub open spec fn api_error_text(e: ApiError) -> Seq<char> {
    match e {
        ApiError::Http(m) => "HTTP error: "@ + m@,
        ApiError::ApiStatus { status, body } => "API returned status "@ + number::decimal(
            status as nat,
        ) + ": "@ + body@,
        ApiError::JsonParse(m) => "JSON parse error: "@ + m@,
        ApiError::SchemaViolation(m) => "schema violation: "@ + m@,
        ApiError::BudgetExceeded { spent, limit } => "budget exceeded: $"@
            + transport::dollars(spent as int) + " of $"@ + transport::dollars(limit as int)
            + " limit"@,
        ApiError::MaxRetries(n) => "max retries ("@ + number::decimal(n as nat) + ") exceeded"@,
        ApiError::MissingApiKey(hint) => "missing API key: set "@ + hint@
            + " environment variable"@,
    }
}

impl ApiError {
    /// What the error says.
    pub fn to_string(&self) -> (r: String)
        ensures
            r@ == api_error_text(*self),
    {
        match self {
            ApiError::Http(m) => concat2("HTTP error: ", m.as_str()),
            ApiError::ApiStatus { status, body } => {
                let mut r = concat3(
                    "API returned status ",
                    format_u64(*status as u64).as_str(),
                    ": ",
                );
                r.append(body.as_str());
                r
            },
            ApiError::JsonParse(m) => concat2("JSON parse error: ", m.as_str()),
            ApiError::SchemaViolation(m) => concat2("schema violation: ", m.as_str()),
            ApiError::BudgetExceeded { spent, limit } => {
                let mut r = concat3(
                    "budget exceeded: $",
                    transport::format_dollars(*spent).as_str(),
                    " of $",
                );
                r.append(transport::format_dollars(*limit).as_str());
                r.append(" limit");
                r
            },
            ApiError::MaxRetries(n) => concat3(
                "max retries (",
                format_u64(*n as u64).as_str(),
                ") exceeded",
            ),
            ApiError::MissingApiKey(hint) => concat3(
                "missing API key: set ",
                hint.as_str(),
                " environment variable",
            ),
        }
    }
}

/// What a request used.
#[derive(Debug, Clone, Copy, PartialEq, Eq, Structural)]
pub struct ApiUsage {
    /// Tokens of the request and of the answer.
    pub tokens_used: i64,
    /// The cost in billionths of a dollar.
    pub cost_nanos: i128,
}

impl Default for ApiUsage {
    fn default() -> (r: ApiUsage)
        ensures
            r.tokens_used == 0,
            r.cost_nanos == 0,
    {
        ApiUsage { tokens_used: 0, cost_nanos: 0 }
    }
}

/// A code region and what to apply to it.
#[derive(Debug, Clone, PartialEq, Eq)]
pub struct EditPayload {
    pub original_code: String,
    pub update_snippet: String,
    pub max_tokens: u32,
}

/// The code around a cursor.
#[derive(Debug, Clone, PartialEq, Eq)]
pub struct CompletePayload {
    pub prompt: String,
    pub suffix: String,
    pub max_tokens: u32,
}

/// A file and the edits that led to it.
#[derive(Debug, Clone, PartialEq, Eq)]
pub struct NextEditPayload {
    pub file_content: String,
    pub code_to_edit: String,
    pub cursor: String,
    pub recent_snippets: String,
    pub edit_history: String,
}

/// How many tokens an edit may use if nothing else is said.
pub fn default_edit_max_tokens() -> (r: u32)
    ensures
        r == 8192,
{
    8192
}

/// How many tokens a completion may use if nothing else is said.
pub fn default_fim_max_tokens() -> (r: u32)
    ensures
        r == 256,
{
    256
}

/// One message of a chat.
#[derive(Debug, Clone, PartialEq, Eq)]
pub struct ChatMessage {
    pub role: String,
    pub content: String,
}

/// What a list of messages stands for: the role and the content of each.
pub open spec fn messages_view(v: Seq<ChatMessage>) -> Seq<(Seq<char>, Seq<char>)> {
    Seq::new(v.len(), |i: int| (v[i].role@, v[i].content@))
}

/// A schema that the answer has to keep to.
#[derive(Debug)]
pub struct ResponseFormat {
    pub kind: String,
    pub json_schema: JsonSchemaFormat,
}

/// A named schema.
#[derive(Debug)]
pub struct JsonSchemaFormat {
    pub name: String,
    pub strict: bool,
    pub schema: Json,
}

/// A tool that the model can call.
#[derive(Debug)]
pub struct ToolDefinition {
    pub kind: String,
    pub function: ToolFunctionDefinition,
}

/// The function of a tool.
#[derive(Debug)]
pub struct ToolFunctionDefinition {
    pub name: String,
    pub description: Option<String>,
    pub parameters: Json,
}

/// Which tool the model has to call.
#[derive(Debug, Clone, PartialEq, Eq)]
pub enum ToolChoice {
    Mode(String),
    Function(ToolChoiceFunction),
}

/// A tool chosen by name.
#[derive(Debug, Clone, PartialEq, Eq)]
pub struct ToolChoiceFunction {
    pub kind: String,
    pub function: ToolChoiceFunctionName,
}

/// The name of a chosen tool.
#[derive(Debug, Clone, PartialEq, Eq)]
pub struct ToolChoiceFunctionName {
    pub name: String,
}

/// The body of a chat request.
#[derive(Debug)]
pub struct ChatRequest {
    pub model: String,
    pub messages: Vec<ChatMessage>,
    pub max_tokens: u32,
    pub response_format: Option<ResponseFormat>,
    pub reasoning_effort: Option<ReasoningEffort>,
    pub tools: Option<Vec<ToolDefinition>>,
    pub tool_choice: Option<ToolChoice>,
}

/// A call of a tool that the model asks for.
#[derive(Debug, Clone, PartialEq, Eq)]
pub struct ToolCall {
    pub id: String,
    pub kind: String,
    pub function: ToolCallFunction,
}

/// The function and the arguments of a call.
#[derive(Debug, Clone, PartialEq, Eq)]
pub struct ToolCallFunction {
    pub name: String,
    /// The arguments as JSON text.
    pub arguments: String,
}

/// The arguments of a tool call, as far as they are texts.
#[derive(Debug, Clone, PartialEq, Eq)]
pub struct ToolArgs {
    pub path: Option<String>,
    pub query: Option<String>,
    pub command: Option<String>,
    pub content: Option<String>,
}

/// What a [`ToolArgs`] stands for.
#[verifier::ext_equal]
pub struct ArgsView {
    pub path: Option<Seq<char>>,
    pub query: Option<Seq<char>>,
    pub command: Option<Seq<char>>,
    pub content: Option<Seq<char>>,
}

impl View for ToolArgs {
    type V = ArgsView;

    open spec fn view(&self) -> ArgsView {
        ArgsView {
            path: chars::opt_text(self.path),
            query: chars::opt_text(self.query),
            command: chars::opt_text(self.command),
            content: chars::opt_text(self.content),
        }
    }
}

/// The arguments that JSON text holds.
pub open spec fn args_of(raw: Seq<char>) -> ArgsView {
    ArgsView {
        path: json::json_text_field(raw, "path"@),
        query: json::json_text_field(raw, "query"@),
        command: json::json_text_field(raw, "command"@),
        content: json::json_text_field(raw, "content"@),
    }
}

/// Reads the arguments of a tool call from JSON text. What is no text, and what cannot be
/// read, counts as not given.
pub fn read_tool_args(raw: &str) -> (r: ToolArgs)
    ensures
        r@ == args_of(raw@),
{
    ToolArgs {
        path: text_field(raw, "path"),
        query: text_field(raw, "query"),
        command: text_field(raw, "command"),
        content: text_field(raw, "content"),
    }
}

impl ToolCallFunction {
    /// Reads the arguments of the call. What is no text counts as not given.
    pub fn parse_arguments(&self) -> (r: Result<ToolArgs, ApiError>)
        ensures
            match r {
                Ok(a) => json::json_refusal(self.arguments@) is None && a@ == args_of(
                    self.arguments@,
                ),
                Err(e) => e matches ApiError::JsonParse(m) && json::json_refusal(self.arguments@)
                    == Some(m@),
            },
    {
        match refuse_json(self.arguments.as_str()) {
            Some(m) => Err(ApiError::JsonParse(m)),
            None => Ok(read_tool_args(self.arguments.as_str())),
        }
    }
}

/// An assessment of a code region.
#[derive(Debug, Clone)]
pub struct ThermalAssessment {
    pub complexity_score: Score,
    pub dependency_score: Score,
    pub risk_score: Score,
    pub churn_score: Score,
    /// What to do: lock, refactor, test, monitor or ignore.
    pub suggested_action: String,
    pub reasoning: String,
}

/// The tokens of an answer.
#[derive(Debug, Clone, Copy, PartialEq, Eq, Structural)]
pub struct UsageBlock {
    pub prompt_tokens: i64,
    pub completion_tokens: i64,
    pub total_tokens: i64,
    pub reasoning_tokens: i64,
    pub cached_input_tokens: i64,
}

/// One answer of a chat.
#[derive(Debug)]
pub struct ChatChoice {
    pub content: Option<String>,
    pub tool_calls: Vec<ToolCall>,
}

/// The answers of a chat.
#[derive(Debug)]
pub struct ChatResponse {
    pub choices: Vec<ChatChoice>,
    pub usage: Option<UsageBlock>,
}

/// The texts of a completion.
#[derive(Debug)]
pub struct FimResponse {
    pub choices: Vec<String>,
    pub usage: Option<UsageBlock>,
}

} // verus!
