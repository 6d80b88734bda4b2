//! Clients: where requests go and what they have used.
use crate::api::transport::{resolve_api_key, TransportConfig, UsageLedger};
use crate::api::transport;
use crate::api::types;
use crate::api::types::{
    ApiError, ApiUsage, ChatMessage, ChatRequest, ReasoningEffort, ResponseFormat, ToolChoice,
    ToolDefinition, MERCURY2_BASE_URL, MERCURY2_MODEL,
};
use crate::text::chars::own;
use crate::verification::secrets;
use crate::verification::secrets::EnvValue;
use vstd::prelude::*;

verus! {

/// A client of the chat service. It cannot be printed, so its key does not get into logs.
pub struct Mercury2Client {
    pub api_key: String,
    pub base_url: String,
    pub model: String,
    pub config: TransportConfig,
    pub reasoning_effort: Option<ReasoningEffort>,
    pub ledger: UsageLedger,
}

/// A client of the edit service. It cannot be printed, so its key does not get into logs.
pub struct MercuryEditClient {
    pub api_key: String,
    pub base_url: String,
    pub config: TransportConfig,
    pub ledger: UsageLedger,
}

/// How requests are sent if nothing else is said: three more tries, half a second before the
/// first of them, no limit on what is spent, and no pause between requests.
pub open spec fn usual_config() -> TransportConfig {
    TransportConfig {
        retry_limit: 3,
        backoff_base_ms: 500,
        budget_limit: None,
        min_request_interval_ms: 0,
    }
}

fn default_config() -> (r: TransportConfig)
    ensures
        r == usual_config(),
{
    TransportConfig {
        retry_limit: 3,
        backoff_base_ms: 500,
        budget_limit: None,
        min_request_interval_ms: 0,
    }
}

impl Mercury2Client {
    /// A client with the given key.
    pub fn new(api_key: String) -> (r: Mercury2Client)
        ensures
            r.api_key == api_key,
            r.base_url@ == "https://api.inceptionlabs.ai/v1/chat/completions"@,
            r.model@ == "mercury-2"@,
            r.config == usual_config(),
            r.reasoning_effort is None,
            r.ledger == (UsageLedger { tokens: 0, cost_nanos: 0 }),
    {
        Mercury2Client {
            api_key,
            base_url: own(MERCURY2_BASE_URL),
            model: own(MERCURY2_MODEL),
            config: default_config(),
            reasoning_effort: None,
            ledger: UsageLedger::new(),
        }
    }

    /// A client with the key that the environment holds.
    pub fn from_env(env: &[EnvValue]) -> (r: Result<Mercury2Client, ApiError>)
        ensures
            match transport::first_key(
                transport::key_variables(Seq::empty()),
                secrets::env_view(env@),
            ) {
                Some(key) => r matches Ok(c) && c.api_key@ == key && c.config == usual_config(),
                None => r matches Err(ApiError::MissingApiKey(hint)) && hint@
                    == transport::key_hint(),
            },
    {
        proof {
            reveal_strlit("");
            assert(""@ =~= Seq::<char>::empty());
        }
        match resolve_api_key("", env) {
            Ok(key) => Ok(Mercury2Client::new(key)),
            Err(e) => Err(e),
        }
    }

    /// Changes the address.
    pub fn with_base_url(self, url: String) -> (r: Mercury2Client)
        ensures
            r == (Mercury2Client { base_url: url, ..self }),
    {
        Mercury2Client { base_url: url, ..self }
    }

    /// Changes the model.
    pub fn with_model(self, model: String) -> (r: Mercury2Client)
        ensures
            r == (Mercury2Client { model, ..self }),
    {
        Mercury2Client { model, ..self }
    }

    /// Changes how often and after what first delay a request is tried again.
    pub fn with_retries(self, limit: u32, backoff_base_ms: u64) -> (r: Mercury2Client)
        ensures
            r == (Mercury2Client {
                config: TransportConfig { retry_limit: limit, backoff_base_ms, ..self.config },
                ..self
            }),
    {
        let config = TransportConfig { retry_limit: limit, backoff_base_ms, ..self.config };
        Mercury2Client { config, ..self }
    }

    /// Limits what may be spent, in billionths of a dollar.
    pub fn with_budget(self, limit_nanos: i128) -> (r: Mercury2Client)
        ensures
            r == (Mercury2Client {
                config: TransportConfig { budget_limit: Some(limit_nanos), ..self.config },
                ..self
            }),
    {
        let config = TransportConfig { budget_limit: Some(limit_nanos), ..self.config };
        Mercury2Client { config, ..self }
    }

    /// Sets the least time between two requests.
    pub fn with_request_spacing(self, min_request_interval_ms: u64) -> (r: Mercury2Client)
        ensures
            r == (Mercury2Client {
                config: TransportConfig { min_request_interval_ms, ..self.config },
                ..self
            }),
    {
        let config = TransportConfig { min_request_interval_ms, ..self.config };
        Mercury2Client { config, ..self }
    }

    /// Sets how much the model reasons.
    pub fn with_reasoning_effort(self, effort: ReasoningEffort) -> (r: Mercury2Client)
        ensures
            r == (Mercury2Client { reasoning_effort: Some(effort), ..self }),
    {
        Mercury2Client { reasoning_effort: Some(effort), ..self }
    }

    /// What was spent so far, in billionths of a dollar.
    pub fn cumulative_cost(&self) -> (r: i128)
        ensures
            r == self.ledger.cost_nanos,
    {
        self.ledger.cost_nanos
    }

    /// How many tokens were used so far.
    pub fn cumulative_tokens(&self) -> (r: i64)
        ensures
            r == self.ledger.tokens,
    {
        self.ledger.tokens
    }

    /// Adds what a request used, and fails if more was spent than allowed.
    pub fn track_usage(&mut self, usage: &ApiUsage) -> (r: Result<(), ApiError>)
        requires
            i64::MIN <= old(self).ledger.tokens + usage.tokens_used <= i64::MAX,
            i128::MIN <= old(self).ledger.cost_nanos + usage.cost_nanos <= i128::MAX,
        ensures
            final(self).ledger.tokens == old(self).ledger.tokens + usage.tokens_used,
            final(self).ledger.cost_nanos == old(self).ledger.cost_nanos + usage.cost_nanos,
            final(self).config == old(self).config,
            final(self).api_key == old(self).api_key,
            final(self).base_url == old(self).base_url,
            final(self).model == old(self).model,
            final(self).reasoning_effort == old(self).reasoning_effort,
            match old(self).config.budget_limit {
                Some(limit) if final(self).ledger.cost_nanos > limit => r == Err::<(), ApiError>(
                    ApiError::BudgetExceeded { spent: final(self).ledger.cost_nanos, limit },
                ),
                _ => r is Ok,
            },
    {
        let limit = self.config.budget_limit;
        self.ledger.record_usage(usage, limit)
    }

    /// The body of a chat request: a system message and a user message.
    pub fn build_chat_request(
        &self,
        system: &str,
        user: &str,
        max_tokens: u32,
        response_format: Option<ResponseFormat>,
        tools: Option<Vec<ToolDefinition>>,
        tool_choice: Option<ToolChoice>,
    ) -> (r: ChatRequest)
        ensures
            r.model@ == self.model@,
            types::messages_view(r.messages@) == seq![("system"@, system@), ("user"@, user@)],
            r.max_tokens == max_tokens,
            r.response_format == response_format,
            r.reasoning_effort == self.reasoning_effort,
            r.tools == tools,
            r.tool_choice == tool_choice,
    {
        let r = ChatRequest {
            model: own(self.model.as_str()),
            messages: vec![
                ChatMessage { role: own("system"), content: own(system) },
                ChatMessage { role: own("user"), content: own(user) },
            ],
            max_tokens,
            response_format,
            reasoning_effort: self.reasoning_effort,
            tools,
            tool_choice,
        };
        proof {
            assert(types::messages_view(r.messages@) =~= seq![
                ("system"@, system@),
                ("user"@, user@),
            ]);
        }
        r
    }
}

impl MercuryEditClient {
    /// A client with the given key and address.
    pub fn new(api_key: String, base_url: String) -> (r: MercuryEditClient)
        ensures
            r.api_key == api_key,
            r.base_url == base_url,
            r.config == usual_config(),
            r.ledger == (UsageLedger { tokens: 0, cost_nanos: 0 }),
    {
        MercuryEditClient {
            api_key,
            base_url,
            config: default_config(),
            ledger: UsageLedger::new(),
        }
    }

    /// A client with the key that the environment holds.
    pub fn from_env(base_url: &str, env: &[EnvValue]) -> (r: Result<MercuryEditClient, ApiError>)
        ensures
            match transport::first_key(
                transport::key_variables(Seq::empty()),
                secrets::env_view(env@),
            ) {
                Some(key) => r matches Ok(c) && c.api_key@ == key && c.base_url@ == base_url@
                    && c.config == usual_config(),
                None => r matches Err(ApiError::MissingApiKey(hint)) && hint@
                    == transport::key_hint(),
            },
    {
        proof {
            reveal_strlit("");
            assert(""@ =~= Seq::<char>::empty());
        }
        match resolve_api_key("", env) {
            Ok(key) => Ok(MercuryEditClient::new(key, own(base_url))),
            Err(e) => Err(e),
        }
    }

    /// Changes how often and after what first delay a request is tried again.
    pub fn with_retries(self, limit: u32, backoff_base_ms: u64) -> (r: MercuryEditClient)
        ensures
            r == (MercuryEditClient {
                config: TransportConfig { retry_limit: limit, backoff_base_ms, ..self.config },
                ..self
            }),
    {
        let config = TransportConfig { retry_limit: limit, backoff_base_ms, ..self.config };
        MercuryEditClient { config, ..self }
    }

    /// Limits what may be spent, in billionths of a dollar.
    pub fn with_budget(self, limit_nanos: i128) -> (r: MercuryEditClient)
        ensures
            r == (MercuryEditClient {
                config: TransportConfig { budget_limit: Some(limit_nanos), ..self.config },
                ..self
            }),
    {
        let config = TransportConfig { budget_limit: Some(limit_nanos), ..self.config };
        MercuryEditClient { config, ..self }
    }

    /// Sets the least time between two requests.
    pub fn with_request_spacing(self, min_request_interval_ms: u64) -> (r: MercuryEditClient)
        ensures
            r == (MercuryEditClient {
                config: TransportConfig { min_request_interval_ms, ..self.config },
                ..self
            }),
    {
        let config = TransportConfig { min_request_interval_ms, ..self.config };
        MercuryEditClient { config, ..self }
    }

    /// What was spent so far, in billionths of a dollar.
    pub fn cumulative_cost(&self) -> (r: i128)
        ensures
            r == self.ledger.cost_nanos,
    {
        self.ledger.cost_nanos
    }

    /// How many tokens were used so far.
    pub fn cumulative_tokens(&self) -> (r: i64)
        ensures
            r == self.ledger.tokens,
    {
        self.ledger.tokens
    }

    /// Adds what a request used, and fails if more was spent than allowed.
    pub fn track_usage(&mut self, usage: &ApiUsage) -> (r: Result<(), ApiError>)
        requires
            i64::MIN <= old(self).ledger.tokens + usage.tokens_used <= i64::MAX,
            i128::MIN <= old(self).ledger.cost_nanos + usage.cost_nanos <= i128::MAX,
        ensures
            final(self).ledger.tokens == old(self).ledger.tokens + usage.tokens_used,
            final(self).ledger.cost_nanos == old(self).ledger.cost_nanos + usage.cost_nanos,
            final(self).config == old(self).config,
            final(self).api_key == old(self).api_key,
            final(self).base_url == old(self).base_url,
            match old(self).config.budget_limit {
                Some(limit) if final(self).ledger.cost_nanos > limit => r == Err::<(), ApiError>(
                    ApiError::BudgetExceeded { spent: final(self).ledger.cost_nanos, limit },
                ),
                _ => r is Ok,
            },
    {
        let limit = self.config.budget_limit;
        self.ledger.record_usage(usage, limit)
    }
}

} // verus!
