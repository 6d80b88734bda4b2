//! The cost of requests and when they are tried again.
use crate::api::types::{
    ApiError, ApiUsage, ChatResponse, FimResponse, ToolCall, UsageBlock, INCEPTION_API_KEY_ENV,
    MERCURY_API_KEY_ENV,
};
use crate::text::chars;
use crate::text::chars::{concat2, concat3, own, same};
use crate::text::find;
use crate::text::find::trim;
use crate::text::number;
use crate::text::pad;
use crate::text::pad::format_padded;
use crate::verification::secrets;
use crate::verification::secrets::EnvValue;
use vstd::prelude::*;
use vstd::string::*;

verus! {

broadcast use chars::lemma_texts_push, chars::lemma_texts_empty;

/// An amount of billionths of a dollar in ten-thousandths, rounded half up.
pub open spec fn ten_thousandths(nanos: nat) -> nat {
    (nanos + 50_000) / 100_000
}

/// An amount of billionths of a dollar in dollars, with four decimals.
pub open spec fn plain_dollars(nanos: nat) -> Seq<char> {
    number::decimal(ten_thousandths(nanos) / 10_000) + "."@ + pad::zero_padded(
        ten_thousandths(nanos) % 10_000,
        4,
    )
}

/// An amount of billionths of a dollar in dollars, with four decimals and a sign if it is
/// negative.
pub open spec fn dollars(nanos: int) -> Seq<char> {
    if nanos < 0 {
        "-"@ + plain_dollars((-nanos) as nat)
    } else {
        plain_dollars(nanos as nat)
    }
}

/// An amount of billionths of a dollar in dollars, with four decimals; half of the last one is
/// rounded up.
pub fn format_dollars(nanos: i128) -> (r: String)
    ensures
        r@ == dollars(nanos as int),
{
    if nanos < 0 {
        let size: u128 = (-(nanos + 1)) as u128 + 1;
        return concat2("-", format_plain_dollars(size).as_str());
    }
    format_plain_dollars(nanos as u128)
}

fn format_plain_dollars(nanos: u128) -> (r: String)
    ensures
        r@ == plain_dollars(nanos as nat),
{
    let part: u128 = nanos % 100_000;
    let whole: u128 = nanos / 100_000;
    let t: u128 = if part >= 50_000 {
        whole + 1
    } else {
        whole
    };
    proof {
        assert(t == ten_thousandths(nanos as nat)) by (nonlinear_arith)
            requires
                part == nanos % 100_000,
                whole == nanos / 100_000,
                t == (if part >= 50_000 {
                    whole + 1
                } else {
                    whole as int
                }),
                ten_thousandths(nanos as nat) == (nanos + 50_000) / 100_000,
        ;
    }
    let mut out = number::format_u128(t / 10_000);
    out.append(".");
    out.append(format_padded((t % 10_000) as usize, 4).as_str());
    out
}

/// What an answer costs, in billionths of a dollar: 25 for each cached token of the request,
/// 250 for each other token of the request, and 750 for each token of the answer.
pub open spec fn cost(u: UsageBlock) -> int {
    25 * u.cached_input_tokens + 250 * (if u.prompt_tokens > u.cached_input_tokens {
        u.prompt_tokens - u.cached_input_tokens
    } else {
        0
    }) + 750 * u.completion_tokens
}

/// Whether the sum of the tokens of an answer fits.
pub open spec fn counts(u: UsageBlock) -> bool {
    i64::MIN <= u.prompt_tokens + u.completion_tokens <= i64::MAX
}

/// What an answer costs, in billionths of a dollar.
pub fn estimate_cost(usage: &UsageBlock) -> (r: i128)
    ensures
        r == cost(*usage),
{
    let cached: i128 = usage.cached_input_tokens as i128;
    let prompt: i128 = usage.prompt_tokens as i128;
    let fresh: i128 = if prompt > cached {
        prompt - cached
    } else {
        0
    };
    25 * cached + 250 * fresh + 750 * (usage.completion_tokens as i128)
}

/// What an answer with the given token counts used.
pub open spec fn usage_of(u: Option<UsageBlock>) -> (int, int) {
    match u {
        Some(b) => (b.prompt_tokens + b.completion_tokens, cost(b)),
        None => (0, 0),
    }
}

fn usage_from(u: &Option<UsageBlock>) -> (r: ApiUsage)
    requires
        u matches Some(b) ==> counts(*b),
    ensures
        (r.tokens_used as int, r.cost_nanos as int) == usage_of(*u),
{
    match u {
        Some(b) => ApiUsage {
            tokens_used: b.prompt_tokens + b.completion_tokens,
            cost_nanos: estimate_cost(b),
        },
        None => ApiUsage { tokens_used: 0, cost_nanos: 0 },
    }
}

/// The first answer of a chat: its text, the tools that it calls, and what it used. Without
/// an answer the text is empty.
pub fn parse_chat_response_with_tools(response: ChatResponse) -> (r: (
    String,
    Vec<ToolCall>,
    ApiUsage,
))
    requires
        response.usage matches Some(b) ==> counts(b),
    ensures
        (r.2.tokens_used as int, r.2.cost_nanos as int) == usage_of(response.usage),
        response.choices@.len() == 0 ==> r.0@ == Seq::<char>::empty() && r.1@.len() == 0,
        response.choices@.len() > 0 ==> r.1 == response.choices@[0].tool_calls && r.0@ == (
        match response.choices@[0].content {
            Some(t) => t@,
            None => Seq::empty(),
        }),
{
    let usage = usage_from(&response.usage);
    let mut choices = response.choices;
    if choices.len() == 0 {
        let empty = String::new();
        proof {
            assert(empty@ =~= Seq::<char>::empty());
        }
        return (empty, Vec::new(), usage);
    }
    let first = choices.remove(0);
    let content = match first.content {
        Some(t) => t,
        None => {
            let empty = String::new();
            proof {
                assert(empty@ =~= Seq::<char>::empty());
            }
            empty
        },
    };
    (content, first.tool_calls, usage)
}

/// The text of the first answer of a chat and what it used.
pub fn parse_chat_response(response: ChatResponse) -> (r: (String, ApiUsage))
    requires
        response.usage matches Some(b) ==> counts(b),
    ensures
        (r.1.tokens_used as int, r.1.cost_nanos as int) == usage_of(response.usage),
        response.choices@.len() == 0 ==> r.0@ == Seq::<char>::empty(),
        response.choices@.len() > 0 ==> r.0@ == (match response.choices@[0].content {
            Some(t) => t@,
            None => Seq::empty(),
        }),
{
    let r = parse_chat_response_with_tools(response);
    (r.0, r.2)
}

/// The first text of a completion and what it used.
pub fn parse_fim_response(response: FimResponse) -> (r: (String, ApiUsage))
    requires
        response.usage matches Some(b) ==> counts(b),
    ensures
        (r.1.tokens_used as int, r.1.cost_nanos as int) == usage_of(response.usage),
        r.0@ == (if response.choices@.len() > 0 {
            response.choices@[0]@
        } else {
            Seq::empty()
        }),
{
    let usage = usage_from(&response.usage);
    let mut choices = response.choices;
    if choices.len() == 0 {
        let empty = String::new();
        proof {
            assert(empty@ =~= Seq::<char>::empty());
        }
        return (empty, usage);
    }
    (choices.remove(0), usage)
}

/// When requests are sent and how often.
#[derive(Debug, Clone, Copy, PartialEq, Eq, Structural)]
pub struct TransportConfig {
    /// How often a request is tried again.
    pub retry_limit: u32,
    /// The first delay in milliseconds.
    pub backoff_base_ms: u64,
    /// What may be spent, in billionths of a dollar.
    pub budget_limit: Option<i128>,
    /// The least time between two requests in milliseconds.
    pub min_request_interval_ms: u64,
}

/// Whether a status tells of a failure that may pass.
pub open spec fn may_pass(status: u16) -> bool {
    status == 429 || 500 <= status < 600
}

/// Whether a request that was answered with the given status may be tried again.
pub fn is_retryable(status: u16) -> (r: bool)
    ensures
        r == may_pass(status),
{
    status == 429 || (500 <= status && status < 600)
}

/// The delay before a request is tried again after the given number of attempts: it doubles
/// with each attempt, up to the largest delay.
pub open spec fn delay_after(base: u64, attempts: nat) -> nat {
    let doublings = if attempts > 0 {
        (attempts - 1) as nat
    } else {
        0
    };
    let factor = vstd::arithmetic::power2::pow2(doublings);
    let exact = base * (if factor > u64::MAX {
        u64::MAX as nat
    } else {
        factor
    });
    if exact > u64::MAX {
        u64::MAX as nat
    } else {
        exact as nat
    }
}

/// Two to the given power, or the largest number if that is larger.
fn saturating_power(n: u32) -> (r: u64)
    ensures
        r == (if vstd::arithmetic::power2::pow2(n as nat) > u64::MAX {
            u64::MAX as nat
        } else {
            vstd::arithmetic::power2::pow2(n as nat)
        }),
{
    proof {
        vstd::arithmetic::power2::lemma2_to64();
        vstd::arithmetic::power2::lemma2_to64_rest();
    }
    if n >= 64 {
        proof {
            if n > 64 {
                vstd::arithmetic::power2::lemma_pow2_strictly_increases(64, n as nat);
            }
        }
        return u64::MAX;
    }
    let mut p: u64 = 1;
    let mut i: u32 = 0;
    while i < n
        invariant
            i <= n < 64,
            p == vstd::arithmetic::power2::pow2(i as nat),
            vstd::arithmetic::power2::pow2(63) == 0x8000_0000_0000_0000,
        decreases n - i,
    {
        proof {
            vstd::arithmetic::power2::lemma_pow2_unfold((i + 1) as nat);
            if i + 1 < 63 {
                vstd::arithmetic::power2::lemma_pow2_strictly_increases((i + 1) as nat, 63);
            }
        }
        p = p * 2;
        i = i + 1;
    }
    proof {
        if n < 63 {
            vstd::arithmetic::power2::lemma_pow2_strictly_increases(n as nat, 63);
        }
    }
    p
}

/// The delay before a request is tried again.
pub fn retry_delay_ms(config: TransportConfig, attempts: u32) -> (r: u64)
    ensures
        r == delay_after(config.backoff_base_ms, attempts as nat),
{
    let doublings: u32 = attempts.saturating_sub(1);
    let factor = saturating_power(doublings);
    proof {
        assert(config.backoff_base_ms * factor <= u64::MAX * u64::MAX) by (nonlinear_arith)
            requires
                config.backoff_base_ms <= u64::MAX,
                factor <= u64::MAX,
        ;
    }
    let exact: u128 = (config.backoff_base_ms as u128) * (factor as u128);
    if exact > u64::MAX as u128 {
        u64::MAX
    } else {
        exact as u64
    }
}

/// How a request failed.
#[derive(Debug, Clone, PartialEq, Eq)]
pub enum RequestFailure {
    /// It was not answered.
    NotSent(String),
    /// The answer was a failure.
    Status { status: u16, body: String },
    /// The answer could not be read.
    NotRead(String),
    /// The answer is not the JSON that was asked for.
    NotParsed(String),
}

/// What to do about a failed request.
#[derive(Debug, Clone, PartialEq, Eq)]
pub enum RetryStep {
    /// Wait for so many milliseconds and try again.
    Wait(u64),
    /// Give up.
    Fail(ApiError),
}

/// Whether a failure may pass.
pub open spec fn transient(f: RequestFailure) -> bool {
    match f {
        RequestFailure::Status { status, .. } => may_pass(status),
        _ => true,
    }
}

/// The error with which a failed request is given up.
pub open spec fn is_final_error(c: TransportConfig, f: RequestFailure, e: ApiError) -> bool {
    match f {
        RequestFailure::NotSent(m) => e matches ApiError::Http(x) && x == m,
        RequestFailure::NotRead(m) => e matches ApiError::Http(x) && x == m,
        RequestFailure::NotParsed(m) => e matches ApiError::JsonParse(x) && x == m,
        RequestFailure::Status { status, body } => if may_pass(status) {
            e == ApiError::MaxRetries(c.retry_limit)
        } else {
            e matches ApiError::ApiStatus { status: s, body: b } && s == status && b == body
        },
    }
}

/// Whether a request is tried again after the given number of attempts of which the last failed.
pub open spec fn tries_again(config: TransportConfig, attempts: int, failure: RequestFailure) -> bool {
    transient(failure) && attempts <= config.retry_limit
}

/// What to do after the given number of attempts of which the last failed: a failure that may
/// pass is tried again as often as allowed, after a growing delay.
pub fn after_failure(config: TransportConfig, attempts: u32, failure: RequestFailure) -> (r:
    RetryStep)
    ensures
        match r {
            RetryStep::Wait(ms) => transient(failure) && attempts <= config.retry_limit && ms
                == delay_after(config.backoff_base_ms, attempts as nat),
            RetryStep::Fail(e) => !(transient(failure) && attempts <= config.retry_limit)
                && is_final_error(config, failure, e),
        },
        (r is Wait) == tries_again(config, attempts as int, failure),
{
    let may_retry = match &failure {
        RequestFailure::Status { status, .. } => is_retryable(*status),
        _ => true,
    };
    if may_retry && attempts <= config.retry_limit {
        return RetryStep::Wait(retry_delay_ms(config, attempts));
    }
    match failure {
        RequestFailure::NotSent(m) => RetryStep::Fail(ApiError::Http(m)),
        RequestFailure::NotRead(m) => RetryStep::Fail(ApiError::Http(m)),
        RequestFailure::NotParsed(m) => RetryStep::Fail(ApiError::JsonParse(m)),
        RequestFailure::Status { status, body } => {
            if may_retry {
                RetryStep::Fail(ApiError::MaxRetries(config.retry_limit))
            } else {
                RetryStep::Fail(ApiError::ApiStatus { status, body })
            }
        },
    }
}

/// A delay is never shorter than the one before it.
pub proof fn law_delays_never_shrink(base: u64, attempts: nat)
    ensures
        delay_after(base, attempts) <= delay_after(base, attempts + 1),
{
    if attempts > 0 {
        vstd::arithmetic::power2::lemma_pow2_strictly_increases((attempts - 1) as nat, attempts);
        let a = vstd::arithmetic::power2::pow2((attempts - 1) as nat);
        let b = vstd::arithmetic::power2::pow2(attempts);
        let x = if a > u64::MAX {
            u64::MAX as nat
        } else {
            a
        };
        let y = if b > u64::MAX {
            u64::MAX as nat
        } else {
            b
        };
        assert(x <= y);
        assert(base * x <= base * y) by (nonlinear_arith)
            requires
                x <= y,
                base >= 0,
        ;
    }
}

/// A delay is twice the one before it, as long as it stays below the largest delay.
pub proof fn law_delays_double(base: u64, attempts: nat)
    requires
        attempts > 0,
        2 * delay_after(base, attempts) < u64::MAX,
        vstd::arithmetic::power2::pow2(attempts) <= u64::MAX,
    ensures
        delay_after(base, attempts + 1) == 2 * delay_after(base, attempts),
{
    vstd::arithmetic::power2::lemma_pow2_unfold(attempts);
    let a = vstd::arithmetic::power2::pow2((attempts - 1) as nat);
    assert(base * (2 * a) == 2 * (base * a)) by (nonlinear_arith);
}

/// When the next request may be sent, and how long this one has to wait.
pub open spec fn slot_after(next_allowed: int, now: int, min_request_interval_ms: int) -> (int, int) {
    if min_request_interval_ms == 0 {
        (next_allowed, 0)
    } else if next_allowed > now {
        (next_allowed + min_request_interval_ms * 1_000_000, next_allowed - now)
    } else {
        (now + min_request_interval_ms * 1_000_000, 0)
    }
}

/// When the next request may be sent, and how long this one has to wait. Times are in
/// billionths of a second.
pub fn next_slot(next_allowed: u128, now: u128, min_request_interval_ms: u64) -> (r: (u128, u128))
    requires
        next_allowed + min_request_interval_ms * 1_000_000 <= u128::MAX,
        now + min_request_interval_ms * 1_000_000 <= u128::MAX,
    ensures
        min_request_interval_ms == 0 ==> r == (next_allowed, 0u128),
        min_request_interval_ms > 0 ==> {
            let at = if next_allowed > now {
                next_allowed
            } else {
                now
            };
            r.0 == at + min_request_interval_ms * 1_000_000 && r.1 == at - now
        },
        (r.0 as int, r.1 as int) == slot_after(
            next_allowed as int,
            now as int,
            min_request_interval_ms as int,
        ),
{
    if min_request_interval_ms == 0 {
        return (next_allowed, 0);
    }
    let at: u128 = if next_allowed > now {
        next_allowed
    } else {
        now
    };
    (at + (min_request_interval_ms as u128) * 1_000_000, at - now)
}

/// Whether more was spent than a limit allows.
pub open spec fn is_over(spent: int, limit: Option<i128>) -> bool {
    limit matches Some(most) && spent > most
}

/// What was used so far.
#[derive(Debug, Clone, Copy, PartialEq, Eq, Structural)]
pub struct UsageLedger {
    pub tokens: i64,
    pub cost_nanos: i128,
}

impl UsageLedger {
    /// Nothing used yet.
    pub fn new() -> (r: UsageLedger)
        ensures
            r.tokens == 0,
            r.cost_nanos == 0,
    {
        UsageLedger { tokens: 0, cost_nanos: 0 }
    }

    /// Adds what a request used. It is added in any case; the budget is exceeded if the sum
    /// is above the limit.
    pub fn record_usage(&mut self, usage: &ApiUsage, budget_limit: Option<i128>) -> (r: Result<
        (),
        ApiError,
    >)
        requires
            i64::MIN <= old(self).tokens + usage.tokens_used <= i64::MAX,
            i128::MIN <= old(self).cost_nanos + usage.cost_nanos <= i128::MAX,
        ensures
            final(self).tokens == old(self).tokens + usage.tokens_used,
            final(self).cost_nanos == old(self).cost_nanos + usage.cost_nanos,
            match budget_limit {
                Some(limit) if final(self).cost_nanos > limit => r == Err::<(), ApiError>(
                    ApiError::BudgetExceeded { spent: final(self).cost_nanos, limit },
                ),
                _ => r is Ok,
            },
            (r is Err) == is_over(final(self).cost_nanos as int, budget_limit),
    {
        self.tokens = self.tokens + usage.tokens_used;
        self.cost_nanos = self.cost_nanos + usage.cost_nanos;
        match budget_limit {
            Some(limit) => {
                if self.cost_nanos > limit {
                    return Err(ApiError::BudgetExceeded { spent: self.cost_nanos, limit });
                }
            },
            None => {},
        }
        Ok(())
    }
}

/// Which variables hold the key.
pub open spec fn key_hint() -> Seq<char> {
    "INCEPTION_API_KEY"@ + " (preferred) or "@ + "MERCURY_API_KEY"@
}

/// Which variables hold the key.
pub fn api_key_env_hint() -> (r: String)
    ensures
        r@ == key_hint(),
{
    concat3(INCEPTION_API_KEY_ENV, " (preferred) or ", MERCURY_API_KEY_ENV)
}

/// The variables that are asked for the key, in order.
pub open spec fn key_variables(configured: Seq<char>) -> Seq<Seq<char>> {
    let own = find::trimmed(configured);
    let a = if own.len() > 0 {
        seq![own]
    } else {
        Seq::empty()
    };
    let b = if own == "INCEPTION_API_KEY"@ && own.len() > 0 {
        a
    } else {
        a.push("INCEPTION_API_KEY"@)
    };
    if own == "MERCURY_API_KEY"@ && own.len() > 0 {
        b
    } else {
        b.push("MERCURY_API_KEY"@)
    }
}

/// The variables that are asked for the key, in order: the configured one if there is one,
/// then the usual ones.
pub fn key_env_names(configured_env: &str) -> (r: Vec<String>)
    ensures
        chars::texts(r@) == key_variables(configured_env@),
{
    let configured = trim(configured_env);
    let filled = !configured.as_str().is_empty();
    let mut out: Vec<String> = Vec::new();
    if filled {
        out.push(own(configured.as_str()));
        proof {
            assert(chars::texts(out@) =~= seq![configured@]);
        }
    }
    if !(filled && same(configured.as_str(), INCEPTION_API_KEY_ENV)) {
        out.push(own(INCEPTION_API_KEY_ENV));
    }
    if !(filled && same(configured.as_str(), MERCURY_API_KEY_ENV)) {
        out.push(own(MERCURY_API_KEY_ENV));
    }
    out
}

/// The value of a variable; of several entries the last counts.
pub open spec fn variable(env: Seq<(Seq<char>, Seq<char>)>, name: Seq<char>) -> Option<Seq<char>>
    decreases env.len(),
{
    if env.len() == 0 {
        None
    } else if env.last().0 == name {
        Some(env.last().1)
    } else {
        variable(env.drop_last(), name)
    }
}

fn find_variable(env: &[EnvValue], name: &str) -> (r: Option<String>)
    ensures
        chars::opt_text(r) == variable(secrets::env_view(env@), name@),
{
    let ghost all = secrets::env_view(env@);
    let mut i: usize = env.len();
    proof {
        assert(all.take(i as int) =~= all);
    }
    while i > 0
        invariant
            all == secrets::env_view(env@),
            i <= env@.len(),
            variable(all, name@) == variable(all.take(i as int), name@),
        decreases i,
    {
        proof {
            assert(all.take(i as int).drop_last() =~= all.take(i - 1));
            assert(all.take(i as int).last() == (env@[i - 1].key@, env@[i - 1].value@));
        }
        if same(env[i - 1].key.as_str(), name) {
            return Some(own(env[i - 1].value.as_str()));
        }
        i = i - 1;
    }
    None
}

/// The first value among the variables that is not blank, trimmed.
pub open spec fn first_key(names: Seq<Seq<char>>, env: Seq<(Seq<char>, Seq<char>)>) -> Option<
    Seq<char>,
>
    decreases names.len(),
{
    if names.len() == 0 {
        None
    } else {
        match variable(env, names.first()) {
            Some(v) if find::trimmed(v).len() > 0 => Some(find::trimmed(v)),
            _ => first_key(names.drop_first(), env),
        }
    }
}

/// The key of the services: the first value that is not blank among the configured variable
/// and the usual ones.
pub fn resolve_api_key(configured_env: &str, env: &[EnvValue]) -> (r: Result<String, ApiError>)
    ensures
        match r {
            Ok(key) => first_key(key_variables(configured_env@), secrets::env_view(env@)) == Some(
                key@,
            ),
            Err(e) => first_key(key_variables(configured_env@), secrets::env_view(env@)) is None
                && (e matches ApiError::MissingApiKey(hint) && hint@ == key_hint()),
        },
{
    let names = key_env_names(configured_env);
    let ghost all = chars::texts(names@);
    let ghost vars = secrets::env_view(env@);
    let mut i: usize = 0;
    proof {
        assert(all.skip(0) =~= all);
    }
    while i < names.len()
        invariant
            all == chars::texts(names@),
            all == key_variables(configured_env@),
            vars == secrets::env_view(env@),
            i <= names@.len(),
            first_key(all, vars) == first_key(all.skip(i as int), vars),
        decreases names@.len() - i,
    {
        proof {
            assert(all.skip(i as int).drop_first() =~= all.skip(i + 1));
            assert(all.skip(i as int).first() == names@[i as int]@);
        }
        match find_variable(env, names[i].as_str()) {
            Some(v) => {
                let t = trim(v.as_str());
                if !t.as_str().is_empty() {
                    return Ok(t);
                }
            },
            None => {},
        }
        i = i + 1;
    }
    proof {
        assert(all.skip(i as int) =~= Seq::<Seq<char>>::empty());
    }
    Err(ApiError::MissingApiKey(api_key_env_hint()))
}

/// Tokens have fixed prices: one more completion token costs three times what one more prompt
/// token costs, and a prompt token that is cached a tenth of that.
pub proof fn law_prices(u: UsageBlock)
    requires
        0 <= u.cached_input_tokens <= u.prompt_tokens < i64::MAX,
        0 <= u.completion_tokens < i64::MAX,
    ensures
        ({
            let completion = UsageBlock {
                completion_tokens: (u.completion_tokens + 1) as i64,
                ..u
            };
            let prompt = UsageBlock { prompt_tokens: (u.prompt_tokens + 1) as i64, ..u };
            let cached = UsageBlock {
                prompt_tokens: (u.prompt_tokens + 1) as i64,
                cached_input_tokens: (u.cached_input_tokens + 1) as i64,
                ..u
            };
            &&& cost(prompt) - cost(u) == 250
            &&& cost(completion) - cost(u) == 3 * (cost(prompt) - cost(u))
            &&& 10 * (cost(cached) - cost(u)) == cost(prompt) - cost(u)
        }),
        u.prompt_tokens == 0 && u.completion_tokens == 0 ==> cost(u) == 0,
{
}

/// Amounts are rounded to the nearest ten-thousandth of a dollar.
pub proof fn law_amounts_are_rounded(nanos: nat)
    ensures
        ten_thousandths(nanos) * 100_000 <= nanos + 50_000,
        nanos + 50_000 < ten_thousandths(nanos) * 100_000 + 100_000,
        nanos % 100_000 == 0 ==> ten_thousandths(nanos) * 100_000 == nanos,
{
}

/// The variable that was configured is asked for the key first, then the two usual ones, each
/// once.
pub proof fn law_key_variables(configured: Seq<char>)
    ensures
        ({
            let names = key_variables(configured);
            let own = find::trimmed(configured);
            &&& own.len() > 0 ==> names.first() == own
            &&& own.len() == 0 ==> names.len() == 2
            &&& names.contains("INCEPTION_API_KEY"@)
            &&& names.contains("MERCURY_API_KEY"@)
            &&& names.no_duplicates()
        }),
{
    reveal_strlit("INCEPTION_API_KEY");
    reveal_strlit("MERCURY_API_KEY");
    let names = key_variables(configured);
    let own = find::trimmed(configured);
    assert("INCEPTION_API_KEY"@.len() == 17 && "MERCURY_API_KEY"@.len() == 15);
    if own == "INCEPTION_API_KEY"@ {
        assert(names[0] == "INCEPTION_API_KEY"@ && names[1] == "MERCURY_API_KEY"@);
    } else if own == "MERCURY_API_KEY"@ {
        assert(names[0] == "MERCURY_API_KEY"@ && names[1] == "INCEPTION_API_KEY"@);
    } else if own.len() > 0 {
        assert(names[1] == "INCEPTION_API_KEY"@ && names[2] == "MERCURY_API_KEY"@);
    } else {
        assert(names[0] == "INCEPTION_API_KEY"@ && names[1] == "MERCURY_API_KEY"@);
    }
}

/// Whether a variable holds a key.
pub open spec fn holds_key(env: Seq<(Seq<char>, Seq<char>)>, name: Seq<char>) -> bool {
    variable(env, name) matches Some(v) && find::trimmed(v).len() > 0
}

/// The key is what the first variable holds that holds anything, without white space around it;
/// there is none exactly if no variable holds one.
pub proof fn law_first_filled_variable_has_the_key(
    names: Seq<Seq<char>>,
    env: Seq<(Seq<char>, Seq<char>)>,
    i: int,
)
    requires
        0 <= i < names.len(),
        holds_key(env, names[i]),
        forall|j: int| 0 <= j < i ==> !holds_key(env, #[trigger] names[j]),
    ensures
        first_key(names, env) == Some(find::trimmed(variable(env, names[i]).unwrap())),
    decreases names.len(),
{
    if i > 0 {
        assert(!holds_key(env, names[0]));
        let rest = names.drop_first();
        assert(rest[i - 1] == names[i]);
        assert forall|j: int| 0 <= j < i - 1 implies !holds_key(env, #[trigger] rest[j]) by {
            assert(rest[j] == names[j + 1]);
        }
        law_first_filled_variable_has_the_key(rest, env, i - 1);
    }
}

/// Without a variable that holds a key there is no key.
pub proof fn law_no_filled_variable_is_no_key(
    names: Seq<Seq<char>>,
    env: Seq<(Seq<char>, Seq<char>)>,
)
    requires
        forall|j: int| 0 <= j < names.len() ==> !holds_key(env, #[trigger] names[j]),
    ensures
        first_key(names, env) is None,
    decreases names.len(),
{
    if names.len() > 0 {
        assert(!holds_key(env, names[0]));
        let rest = names.drop_first();
        assert forall|j: int| 0 <= j < rest.len() implies !holds_key(env, #[trigger] rest[j]) by {
            assert(rest[j] == names[j + 1]);
        }
        law_no_filled_variable_is_no_key(rest, env);
    }
}

/// The value that a variable was given last is its value.
pub proof fn law_last_value_of_a_variable_counts(
    env: Seq<(Seq<char>, Seq<char>)>,
    name: Seq<char>,
    value: Seq<char>,
    other: Seq<char>,
)
    ensures
        variable(env.push((name, value)), name) == Some(value),
        other != name ==> variable(env.push((name, value)), other) == variable(env, other),
        variable(Seq::empty(), name) is None,
{
    assert(env.push((name, value)).drop_last() =~= env);
}

/// Only being asked to slow down, and failures of the server, can pass; any other answer is
/// final.
pub proof fn law_failures_that_can_pass(status: u16)
    ensures
        may_pass(status) <==> status == 429 || status / 100 == 5,
{
}

/// A request that may pass is tried as often as the limit says and not once more; one that is
/// answered for good is never tried again.
pub proof fn law_requests_are_tried_up_to_the_limit(
    config: TransportConfig,
    attempts: int,
    fewer: int,
    failure: RequestFailure,
)
    requires
        fewer <= attempts,
    ensures
        tries_again(config, attempts, failure) ==> tries_again(config, fewer, failure),
        !tries_again(config, config.retry_limit + 1, failure),
        failure !is Status ==> tries_again(config, config.retry_limit as int, failure),
        failure matches RequestFailure::Status { status, .. } ==> (tries_again(
            config,
            config.retry_limit as int,
            failure,
        ) <==> status == 429 || status / 100 == 5),
{
}

/// Two requests are never sent closer to each other than the interval says, whenever they are
/// asked for, and no request waits longer than it has to.
pub proof fn law_requests_keep_their_distance(
    next_allowed: int,
    first: int,
    second: int,
    min_request_interval_ms: int,
)
    requires
        min_request_interval_ms > 0,
    ensures
        ({
            let a = slot_after(next_allowed, first, min_request_interval_ms);
            let b = slot_after(a.0, second, min_request_interval_ms);
            let sent = first + a.1;
            let then = second + b.1;
            &&& a.1 >= 0
            &&& sent >= next_allowed
            &&& next_allowed <= first ==> a.1 == 0
            &&& then - sent >= min_request_interval_ms * 1_000_000
            &&& second - sent >= min_request_interval_ms * 1_000_000 ==> b.1 == 0
            &&& b.1 > 0 ==> then - sent == min_request_interval_ms * 1_000_000
        }),
{
    let d = min_request_interval_ms * 1_000_000;
    assert(slot_after(next_allowed, first, min_request_interval_ms).0 == first + slot_after(
        next_allowed,
        first,
        min_request_interval_ms,
    ).1 + d);
}

/// Without a limit nothing is over it; with one, what was spent is over it as soon as it is more,
/// and stays over it.
pub proof fn law_limits_are_kept(spent: int, more: int, limit: i128)
    requires
        spent <= more,
    ensures
        !is_over(spent, None),
        !is_over(limit as int, Some(limit)),
        is_over(limit + 1, Some(limit)),
        is_over(spent, Some(limit)) ==> is_over(more, Some(limit)),
{
}

} // verus!
