//! Gathering what a repair has to know before it edits.
use crate::api::types;
use crate::api::types::{read_tool_args, ApiError, ApiUsage, ToolArgs, ToolCall};
use crate::engine::settings::VerifyConfig;
use crate::failure_parser::report::{FailureView, ParsedFailureReport, ReportView};
use crate::failure_parser::tools;
use crate::failure_parser::tools::{repo_native_tool_surface, RepoNativeTool};
use crate::json;
use crate::json::{Json, JsonView};
use crate::sorting;
use crate::text::chars;
use crate::text::chars::{concat2, concat3, from_range, own, to_chars};
use crate::text::find;
use crate::text::find::{replace_all, trim};
use crate::text::number;
use crate::text::number::format_usize;
use crate::text::split;
use crate::text::split::join;
use crate::verification::secrets;
use crate::verification::secrets::{redact_sensitive_text, EnvValue, Masking};
use crate::verification::tools::RepoToolResult;
use vstd::prelude::*;
use vstd::string::*;

verus! {

broadcast use chars::lemma_texts_push, chars::lemma_texts_empty;

/// What can go wrong while a repair gathers what it has to know.
#[derive(Debug, Clone, PartialEq, Eq)]
pub enum VerificationError {
    Api(ApiError),
    Io(String),
    Grounding(String),
}

/// What an error says.
pub open spec fn verification_error_text(e: VerificationError) -> Seq<char> {
    match e {
        VerificationError::Api(x) => types::api_error_text(x),
        VerificationError::Io(m) => m@,
        VerificationError::Grounding(m) => "grounding failed: "@ + m@,
    }
}

impl VerificationError {
    /// What the error says.
    pub fn to_string(&self) -> (r: String)
        ensures
            r@ == verification_error_text(*self),
    {
        match self {
            VerificationError::Api(x) => x.to_string(),
            VerificationError::Io(m) => own(m.as_str()),
            VerificationError::Grounding(m) => concat2("grounding failed: ", m.as_str()),
        }
    }
}

/// The name of the schema of what is gathered.
pub const GROUNDED_REPAIR_CONTEXT_SCHEMA_NAME: &'static str = "grounded-repair-context-v1";

/// How often the model is asked.
pub const MAX_GROUNDING_ROUNDS: usize = 2;

/// How many tool calls are made in all.
pub const MAX_GROUNDING_TOOL_CALLS: usize = 6;

/// How long an answer can be while a repair gathers what it has to know, in tokens.
pub const GROUNDING_MAX_TOKENS: u32 = 1536;

/// How long the summary can be.
pub const MAX_SUMMARY_CHARS: usize = 2400;

/// A tool call that was made, with its arguments and its output also as JSON text.
#[derive(Debug)]
pub struct GroundingToolCall {
    pub id: String,
    pub name: String,
    pub arguments: Json,
    pub arguments_text: String,
    pub result: RepoToolResult,
    pub output_text: String,
}

/// What a [`GroundingToolCall`] shows.
#[verifier::ext_equal]
pub struct CallView {
    pub name: Seq<char>,
    pub arguments: Seq<char>,
    pub output: Seq<char>,
}

/// What is shown of a JSON value: a text as it is, anything else as JSON text.
pub open spec fn rendered(value: JsonView, json_text: Seq<char>) -> Seq<char> {
    match value {
        JsonView::Text(t) => t,
        _ => json_text,
    }
}

impl View for GroundingToolCall {
    type V = CallView;

    open spec fn view(&self) -> CallView {
        CallView {
            name: self.name@,
            arguments: rendered(self.arguments@, self.arguments_text@),
            output: rendered(self.result.output@, self.output_text@),
        }
    }
}

/// One answer of the model and the tool calls that it asked for.
#[derive(Debug)]
pub struct GroundingRound {
    pub assistant_text: String,
    pub tool_calls: Vec<GroundingToolCall>,
}

/// What a [`GroundingRound`] shows.
#[verifier::ext_equal]
pub struct RoundView {
    pub said: Seq<char>,
    pub calls: Seq<CallView>,
}

impl View for GroundingRound {
    type V = RoundView;

    open spec fn view(&self) -> RoundView {
        RoundView { said: self.assistant_text@, calls: sorting::views(self.tool_calls@) }
    }
}

/// A text with at most `max` characters, and an ellipsis if it was longer.
pub open spec fn truncated(s: Seq<char>, max: nat) -> Seq<char> {
    if s.len() <= max {
        s
    } else {
        s.take(max as int) + "..."@
    }
}

/// Shortens a text to at most `max_chars` characters and an ellipsis.
pub fn truncate_text(text: &str, max_chars: usize) -> (r: String)
    ensures
        r@ == truncated(text@, max_chars as nat),
{
    let x = to_chars(text);
    if x.len() <= max_chars {
        return own(text);
    }
    let head = from_range(x.as_slice(), 0, max_chars);
    proof {
        assert(head@ =~= text@.take(max_chars as int));
    }
    concat2(head.as_str(), "...")
}

/// A text on one line, with at most `max` characters.
pub open spec fn summarized(s: Seq<char>, max: nat) -> Seq<char> {
    truncated(find::replaced_from(s, "\n"@, " "@, 0), max)
}

/// A JSON value on one line, with at most `max_chars` characters. `json_text` is the value as
/// JSON text.
pub fn summarize_value(value: &Json, json_text: &str, max_chars: usize) -> (r: String)
    ensures
        r@ == summarized(rendered(value@, json_text@), max_chars as nat),
{
    let shown = match value {
        Json::Text(t) => own(t.as_str()),
        _ => own(json_text),
    };
    truncate_text(replace_all(shown.as_str(), "\n", " ").as_str(), max_chars)
}

/// The commands that verify a candidate.
pub open spec fn commands(
    test_after_write: bool,
    test: Seq<char>,
    lint_after_write: bool,
    lint: Seq<char>,
) -> Seq<Seq<char>> {
    let a = if test_after_write && find::trimmed(test).len() > 0 {
        seq![find::trimmed(test)]
    } else {
        Seq::empty()
    };
    if lint_after_write && find::trimmed(lint).len() > 0 {
        a.push(find::trimmed(lint))
    } else {
        a
    }
}

/// The commands that verify a candidate.
pub fn verifier_commands(config: &VerifyConfig) -> (r: Vec<String>)
    ensures
        chars::texts(r@) == commands(
            config.test_after_write,
            config.test_command@,
            config.lint_after_write,
            config.lint_command@,
        ),
{
    let mut out: Vec<String> = Vec::new();
    let test = trim(config.test_command.as_str());
    let lint = trim(config.lint_command.as_str());
    if config.test_after_write && !test.as_str().is_empty() {
        out.push(test);
        proof {
            assert(chars::texts(out@) =~= seq![test@]);
        }
    }
    if config.lint_after_write && !lint.as_str().is_empty() {
        out.push(lint);
    }
    out
}

/// The commands that verify a candidate, with secrets masked.
pub open spec fn masked_commands(cmds: Seq<Seq<char>>, env: Seq<(Seq<char>, Seq<char>)>) -> Seq<
    Seq<char>,
> {
    cmds.map_values(|c: Seq<char>| secrets::masked(Masking::Words, c, env))
}

/// The commands that verify a candidate, with secrets masked.
pub fn redacted_verifier_commands(config: &VerifyConfig, env: &[EnvValue]) -> (r: Vec<String>)
    ensures
        chars::texts(r@) == masked_commands(
            commands(
                config.test_after_write,
                config.test_command@,
                config.lint_after_write,
                config.lint_command@,
            ),
            secrets::env_view(env@),
        ),
{
    let all = verifier_commands(config);
    let ghost masked = masked_commands(chars::texts(all@), secrets::env_view(env@));
    let mut out: Vec<String> = Vec::new();
    let mut i: usize = 0;
    while i < all.len()
        invariant
            i <= all@.len(),
            masked == masked_commands(chars::texts(all@), secrets::env_view(env@)),
            chars::texts(out@) == masked.take(i as int),
        decreases all@.len() - i,
    {
        out.push(redact_sensitive_text(all[i].as_str(), env));
        i = i + 1;
        proof {
            assert(chars::texts(out@) =~= masked.take(i as int));
        }
    }
    proof {
        assert(masked.take(masked.len() as int) =~= masked);
    }
    out
}

/// Each text with a dash before it.
pub open spec fn dashed(s: Seq<Seq<char>>) -> Seq<Seq<char>> {
    Seq::new(s.len(), |i: int| "- "@ + s[i])
}

fn dash_all(v: &[String]) -> (r: Vec<String>)
    ensures
        chars::texts(r@) == dashed(chars::texts(v@)),
{
    let mut out: Vec<String> = Vec::new();
    let mut i: usize = 0;
    while i < v.len()
        invariant
            i <= v@.len(),
            out@.len() == i,
            forall|j: int| 0 <= j < i ==> (#[trigger] out@[j])@ == "- "@ + v@[j]@,
        decreases v@.len() - i,
    {
        out.push(concat2("- ", v[i].as_str()));
        i = i + 1;
    }
    proof {
        assert(chars::texts(out@) =~= dashed(chars::texts(v@)));
    }
    out
}

/// What the model is told about its task.
pub open spec fn system_prompt() -> Seq<char> {
    "You are grounding a code repair plan before edits begin. Inspect only what is needed to localize the failure and return concise findings. Use the repo-native tools instead of asking for more pasted context. You may make at most "@
        + number::decimal(6) + " tool calls total across the session."@
}

/// What the model is told about its task.
pub fn grounding_system_prompt() -> (r: String)
    ensures
        r@ == system_prompt(),
{
    concat3(
        "You are grounding a code repair plan before edits begin. Inspect only what is needed to localize the failure and return concise findings. Use the repo-native tools instead of asking for more pasted context. You may make at most ",
        format_usize(MAX_GROUNDING_TOOL_CALLS).as_str(),
        " tool calls total across the session.",
    )
}

/// What is told of one tool call.
pub open spec fn call_line(c: CallView) -> Seq<char> {
    "- Tool "@ + c.name + " "@ + summarized(c.arguments, 120) + " => "@ + summarized(c.output, 240)
        + "\n"@
}

/// What is told of the first `n` tool calls.
pub open spec fn call_lines(cs: Seq<CallView>) -> Seq<char>
    decreases cs.len(),
{
    if cs.len() == 0 {
        Seq::empty()
    } else {
        call_lines(cs.drop_last()) + call_line(cs.last())
    }
}

/// What is told of the given rounds.
pub open spec fn evidence(rs: Seq<RoundView>) -> Seq<char>
    decreases rs.len(),
{
    if rs.len() == 0 {
        Seq::empty()
    } else {
        let r = rs.last();
        let said = find::trimmed(r.said);
        evidence(rs.drop_last()) + (if said.len() > 0 {
            "Round "@ + number::decimal(rs.len()) + " assistant:\n"@ + truncated(said, 600)
                + "\n"@
        } else {
            Seq::empty()
        }) + call_lines(r.calls)
    }
}

/// What the model is asked.
pub open spec fn user_prompt(
    description: Seq<char>,
    cmds: Seq<Seq<char>>,
    failure: Option<Seq<char>>,
    rounds: Seq<RoundView>,
    used: nat,
) -> Seq<char> {
    "Repair objective:\n"@ + find::trimmed(description) + "\n\nVerifier commands:\n"@
        + split::joined(dashed(cmds), "\n"@) + "\n\nTool call budget already used: "@
        + number::decimal(used) + " of "@ + number::decimal(6) + ".\n"@ + (match failure {
        Some(f) => "\nParsed failure report:\n"@ + f + "\n"@,
        None => Seq::empty(),
    }) + (if rounds.len() > 0 {
        "\nPreviously observed grounding evidence:\n"@ + evidence(rounds)
    } else {
        Seq::empty()
    })
        + "\nInspect the minimal code needed, then either call tools or reply with a concise grounded summary that names the likely failing region and next verification focus."@
}

fn push_calls(out: &mut String, calls: &[GroundingToolCall])
    ensures
        final(out)@ == old(out)@ + call_lines(sorting::views(calls@)),
{
    let ghost all = sorting::views(calls@);
    let ghost start = out@;
    let mut i: usize = 0;
    proof {
        assert(all.take(0) =~= Seq::<CallView>::empty());
        assert(out@ =~= start + Seq::<char>::empty());
    }
    while i < calls.len()
        invariant
            all == sorting::views(calls@),
            i <= calls@.len(),
            out@ == start + call_lines(all.take(i as int)),
        decreases calls@.len() - i,
    {
        let c = &calls[i];
        proof {
            assert(all.take(i + 1).drop_last() =~= all.take(i as int));
            assert(all.take(i + 1).last() == c@);
        }
        let ghost before = out@;
        let mut line = concat3("- Tool ", c.name.as_str(), " ");
        line.append(summarize_value(&c.arguments, c.arguments_text.as_str(), 120).as_str());
        line.append(" => ");
        line.append(summarize_value(&c.result.output, c.output_text.as_str(), 240).as_str());
        line.append("\n");
        out.append(line.as_str());
        proof {
            assert(out@ =~= start + call_lines(all.take(i + 1)));
        }
        i = i + 1;
    }
    proof {
        assert(all.take(all.len() as int) =~= all);
    }
}

fn push_evidence(out: &mut String, rounds: &[GroundingRound])
    ensures
        final(out)@ == old(out)@ + evidence(sorting::views(rounds@)),
{
    let ghost all = sorting::views(rounds@);
    let ghost start = out@;
    let mut i: usize = 0;
    proof {
        assert(all.take(0) =~= Seq::<RoundView>::empty());
        assert(out@ =~= start + Seq::<char>::empty());
    }
    while i < rounds.len()
        invariant
            all == sorting::views(rounds@),
            i <= rounds@.len(),
            out@ == start + evidence(all.take(i as int)),
        decreases rounds@.len() - i,
    {
        let r = &rounds[i];
        proof {
            assert(all.take(i + 1).drop_last() =~= all.take(i as int));
            assert(all.take(i + 1).last() == r@);
        }
        let said = trim(r.assistant_text.as_str());
        if !said.as_str().is_empty() {
            let mut line = concat3("Round ", format_usize(i + 1).as_str(), " assistant:\n");
            line.append(truncate_text(said.as_str(), 600).as_str());
            line.append("\n");
            out.append(line.as_str());
        }
        push_calls(out, r.tool_calls.as_slice());
        proof {
            assert(out@ =~= start + evidence(all.take(i + 1)));
        }
        i = i + 1;
    }
    proof {
        assert(all.take(all.len() as int) =~= all);
    }
}

/// What the model is asked. `failure_json` is the failure report as JSON text.
pub fn grounding_user_prompt(
    description: &str,
    cmds: &[String],
    failure_json: &Option<String>,
    rounds: &[GroundingRound],
    total_tool_calls: usize,
) -> (r: String)
    ensures
        r@ == user_prompt(
            description@,
            chars::texts(cmds@),
            chars::opt_text(*failure_json),
            sorting::views(rounds@),
            total_tool_calls as nat,
        ),
{
    let objective = trim(description);
    let mut out = concat3("Repair objective:\n", objective.as_str(), "\n\nVerifier commands:\n");
    out.append(join(dash_all(cmds).as_slice(), "\n").as_str());
    out.append("\n\nTool call budget already used: ");
    out.append(format_usize(total_tool_calls).as_str());
    out.append(" of ");
    out.append(format_usize(MAX_GROUNDING_TOOL_CALLS).as_str());
    out.append(".\n");
    let ghost a = out@;
    match failure_json {
        Some(f) => {
            out.append("\nParsed failure report:\n");
            out.append(f.as_str());
            out.append("\n");
        },
        None => {},
    }
    let ghost told = match chars::opt_text(*failure_json) {
        Some(f) => "\nParsed failure report:\n"@ + f + "\n"@,
        None => Seq::<char>::empty(),
    };
    proof {
        assert(out@ =~= a + told);
        assert(sorting::views(rounds@).len() == rounds@.len());
    }
    let ghost b = out@;
    let ghost seen = if rounds@.len() > 0 {
        "\nPreviously observed grounding evidence:\n"@ + evidence(sorting::views(rounds@))
    } else {
        Seq::<char>::empty()
    };
    if rounds.len() > 0 {
        out.append("\nPreviously observed grounding evidence:\n");
        push_evidence(&mut out, rounds);
    }
    proof {
        assert(out@ =~= b + seen);
    }
    out.append(
        "\nInspect the minimal code needed, then either call tools or reply with a concise grounded summary that names the likely failing region and next verification focus.",
    );
    out
}

/// Where a failure points to: its file, else its symbol.
pub open spec fn pointed_at(f: FailureView) -> Seq<char> {
    match f.target.file_path {
        Some(p) => p,
        None => match f.target.symbol {
            Some(s) => s,
            None => "unknown target"@,
        },
    }
}

/// The class and target of each of the first three failures.
pub open spec fn classes(fs: Seq<FailureView>) -> Seq<Seq<char>> {
    let n = if fs.len() > 3 {
        3
    } else {
        fs.len()
    };
    Seq::new(n, |i: int| fs[i].error_class + " @ "@ + pointed_at(fs[i]))
}

fn failure_classes(r: &ParsedFailureReport) -> (out: Vec<String>)
    ensures
        chars::texts(out@) == classes(r@.failures),
{
    let mut out: Vec<String> = Vec::new();
    let n: usize = if r.failures.len() > 3 {
        3
    } else {
        r.failures.len()
    };
    let mut i: usize = 0;
    while i < n
        invariant
            i <= n <= r.failures@.len(),
            out@.len() == i,
            forall|j: int|
                0 <= j < i ==> (#[trigger] out@[j])@ == r.failures@[j]@.error_class + " @ "@
                    + pointed_at(r.failures@[j]@),
        decreases n - i,
    {
        let f = &r.failures[i];
        let target = match &f.target.file_path {
            Some(p) => own(p.as_str()),
            None => match &f.target.symbol {
                Some(s) => own(s.as_str()),
                None => own("unknown target"),
            },
        };
        out.push(concat3(f.error_class.as_str(), " @ ", target.as_str()));
        i = i + 1;
    }
    proof {
        assert(chars::texts(out@) =~= classes(r@.failures));
    }
    out
}

/// What the summary says of the first three of the given calls.
pub open spec fn call_notes(cs: Seq<CallView>) -> Seq<Seq<char>> {
    let n = if cs.len() > 3 {
        3
    } else {
        cs.len()
    };
    Seq::new(n, |i: int| "Tool "@ + cs[i].name + ": "@ + summarized(cs[i].output, 280))
}

/// What the summary says of the given rounds.
pub open spec fn round_notes(rs: Seq<RoundView>) -> Seq<Seq<char>>
    decreases rs.len(),
{
    if rs.len() == 0 {
        Seq::empty()
    } else {
        let said = find::trimmed(rs.last().said);
        round_notes(rs.drop_last()) + (if said.len() > 0 {
            seq!["Assistant grounding: "@ + truncated(said, 480)]
        } else {
            Seq::empty()
        }) + call_notes(rs.last().calls)
    }
}

/// The lines of the summary.
pub open spec fn summary_lines(
    description: Seq<char>,
    cmds: Seq<Seq<char>>,
    failure: Option<ReportView>,
    rounds: Seq<RoundView>,
) -> Seq<Seq<char>> {
    let a = seq!["Objective: "@ + find::trimmed(description)];
    let b = if cmds.len() > 0 {
        a.push("Verifiers: "@ + split::joined(cmds, " | "@))
    } else {
        a
    };
    let c = match failure {
        Some(f) => b.push(
            "Failure class summary: "@ + split::joined(classes(f.failures), ", "@),
        ),
        None => b,
    };
    c + round_notes(rounds)
}

/// What an optional report stands for.
pub open spec fn opt_report(r: Option<ParsedFailureReport>) -> Option<ReportView> {
    match r {
        Some(x) => Some(x@),
        None => None,
    }
}

fn push_call_notes(out: &mut Vec<String>, calls: &[GroundingToolCall])
    ensures
        chars::texts(final(out)@) == chars::texts(old(out)@) + call_notes(sorting::views(calls@)),
{
    let ghost all = sorting::views(calls@);
    let ghost start = chars::texts(out@);
    let n: usize = if calls.len() > 3 {
        3
    } else {
        calls.len()
    };
    let mut i: usize = 0;
    proof {
        assert(call_notes(all).take(0) =~= Seq::<Seq<char>>::empty());
        assert(chars::texts(out@) =~= start + Seq::<Seq<char>>::empty());
    }
    while i < n
        invariant
            all == sorting::views(calls@),
            i <= n <= calls@.len(),
            n == call_notes(all).len(),
            chars::texts(out@) == start + call_notes(all).take(i as int),
        decreases n - i,
    {
        let c = &calls[i];
        proof {
            assert(all[i as int] == c@);
            assert(start + call_notes(all).take(i + 1) =~= (start + call_notes(all).take(
                i as int,
            )).push(call_notes(all)[i as int]));
        }
        let mut line = concat3("Tool ", c.name.as_str(), ": ");
        line.append(summarize_value(&c.result.output, c.output_text.as_str(), 280).as_str());
        out.push(line);
        i = i + 1;
    }
    proof {
        assert(call_notes(all).take(n as int) =~= call_notes(all));
    }
}

fn push_round_notes(out: &mut Vec<String>, rounds: &[GroundingRound])
    ensures
        chars::texts(final(out)@) == chars::texts(old(out)@) + round_notes(
            sorting::views(rounds@),
        ),
{
    let ghost all = sorting::views(rounds@);
    let ghost start = chars::texts(out@);
    let mut i: usize = 0;
    proof {
        assert(all.take(0) =~= Seq::<RoundView>::empty());
        assert(chars::texts(out@) =~= start + Seq::<Seq<char>>::empty());
    }
    while i < rounds.len()
        invariant
            all == sorting::views(rounds@),
            i <= rounds@.len(),
            chars::texts(out@) == start + round_notes(all.take(i as int)),
        decreases rounds@.len() - i,
    {
        let r = &rounds[i];
        proof {
            assert(all.take(i + 1).drop_last() =~= all.take(i as int));
            assert(all.take(i + 1).last() == r@);
        }
        let said = trim(r.assistant_text.as_str());
        if !said.as_str().is_empty() {
            out.push(
                concat2("Assistant grounding: ", truncate_text(said.as_str(), 480).as_str()),
            );
        }
        push_call_notes(out, r.tool_calls.as_slice());
        proof {
            assert(chars::texts(out@) =~= start + round_notes(all.take(i + 1)));
        }
        i = i + 1;
    }
    proof {
        assert(all.take(all.len() as int) =~= all);
    }
}

/// What was gathered, in short.
pub fn build_grounding_summary(
    description: &str,
    cmds: &[String],
    parsed_failure: &Option<ParsedFailureReport>,
    rounds: &[GroundingRound],
) -> (r: String)
    ensures
        r@ == truncated(
            split::joined(
                summary_lines(
                    description@,
                    chars::texts(cmds@),
                    opt_report(*parsed_failure),
                    sorting::views(rounds@),
                ),
                "\n"@,
            ),
            2400,
        ),
{
    let mut out: Vec<String> = Vec::new();
    let objective = trim(description);
    out.push(concat2("Objective: ", objective.as_str()));
    proof {
        assert(chars::texts(out@) =~= seq!["Objective: "@ + find::trimmed(description@)]);
        assert(chars::texts(cmds@).len() == cmds@.len());
    }
    if cmds.len() > 0 {
        out.push(concat2("Verifiers: ", join(cmds, " | ").as_str()));
    }
    match parsed_failure {
        Some(f) => {
            out.push(
                concat2(
                    "Failure class summary: ",
                    join(failure_classes(f).as_slice(), ", ").as_str(),
                ),
            );
        },
        None => {},
    }
    push_round_notes(&mut out, rounds);
    truncate_text(join(out.as_slice(), "\n").as_str(), MAX_SUMMARY_CHARS)
}

/// All that was gathered.
#[derive(Debug)]
pub struct GroundedRepairContext {
    pub schema_version: String,
    pub summary: String,
    pub verifier_commands: Vec<String>,
    pub parsed_failure: Option<ParsedFailureReport>,
    pub tool_surface: Vec<RepoNativeTool>,
    pub rounds: Vec<GroundingRound>,
    pub total_usage: ApiUsage,
}

/// The calls of all rounds.
pub open spec fn all_calls(rs: Seq<RoundView>) -> Seq<CallView>
    decreases rs.len(),
{
    if rs.len() == 0 {
        Seq::empty()
    } else {
        all_calls(rs.drop_last()) + rs.last().calls
    }
}

/// What is said of the first six calls.
pub open spec fn observations(cs: Seq<CallView>) -> Seq<Seq<char>> {
    let n = if cs.len() > 6 {
        6
    } else {
        cs.len()
    };
    Seq::new(n, |i: int| "- "@ + cs[i].name + " => "@ + summarized(cs[i].output, 240))
}

/// What the planner is told.
pub open spec fn brief_parts(
    schema: Seq<char>,
    summary: Seq<char>,
    cmds: Seq<Seq<char>>,
    failure: Option<Seq<char>>,
    rounds: Seq<RoundView>,
) -> Seq<Seq<char>> {
    let a = seq!["Grounded repair context (schema: "@ + schema + ")."@];
    let b = if find::trimmed(summary).len() > 0 {
        a.push("Grounded summary:\n"@ + find::trimmed(summary))
    } else {
        a
    };
    let c = if cmds.len() > 0 {
        b.push("Verifier commands:\n"@ + split::joined(dashed(cmds), "\n"@))
    } else {
        b
    };
    let d = match failure {
        Some(f) => c.push("Parsed failure report:\n"@ + f),
        None => c,
    };
    let seen = observations(all_calls(rounds));
    if seen.len() > 0 {
        d.push("Grounded tool observations:\n"@ + split::joined(seen, "\n"@))
    } else {
        d
    }
}

fn observe(rounds: &[GroundingRound]) -> (out: Vec<String>)
    ensures
        chars::texts(out@) == observations(all_calls(sorting::views(rounds@))),
{
    let ghost all = sorting::views(rounds@);
    let ghost every = all_calls(all);
    let ghost mut seen: Seq<CallView> = Seq::empty();
    let mut out: Vec<String> = Vec::new();
    let mut i: usize = 0;
    proof {
        assert(all.take(0) =~= Seq::<RoundView>::empty());
        assert(chars::texts(out@) =~= observations(seen));
    }
    while i < rounds.len()
        invariant
            all == sorting::views(rounds@),
            i <= rounds@.len(),
            seen == all_calls(all.take(i as int)),
            chars::texts(out@) == observations(seen),
        decreases rounds@.len() - i,
    {
        let r = &rounds[i];
        proof {
            assert(all.take(i + 1).drop_last() =~= all.take(i as int));
            assert(all.take(i + 1).last() == r@);
        }
        let ghost before = seen;
        let ghost calls = r@.calls;
        let mut k: usize = 0;
        proof {
            assert(before + calls.take(0) =~= before);
        }
        while k < r.tool_calls.len()
            invariant
                calls == sorting::views(r.tool_calls@),
                k <= r.tool_calls@.len(),
                seen == before + calls.take(k as int),
                chars::texts(out@) == observations(seen),
            decreases r.tool_calls@.len() - k,
        {
            let c = &r.tool_calls[k];
            proof {
                assert(calls[k as int] == c@);
                assert(chars::texts(out@).len() == out@.len());
                assert(before + calls.take(k + 1) =~= seen.push(c@));
            }
            let ghost earlier = chars::texts(out@);
            if out.len() < 6 {
                let mut line = concat3("- ", c.name.as_str(), " => ");
                line.append(
                    summarize_value(&c.result.output, c.output_text.as_str(), 240).as_str(),
                );
                out.push(line);
            }
            proof {
                seen = seen.push(c@);
                assert(chars::texts(out@) =~= observations(seen));
            }
            k = k + 1;
        }
        proof {
            assert(calls.take(calls.len() as int) =~= calls);
        }
        i = i + 1;
    }
    proof {
        assert(all.take(all.len() as int) =~= all);
    }
    out
}

impl GroundedRepairContext {
    /// What the planner is told. `failure_json` is the failure report as JSON text.
    pub fn planner_brief(&self, failure_json: &Option<String>) -> (r: String)
        ensures
            r@ == split::joined(
                brief_parts(
                    self.schema_version@,
                    self.summary@,
                    chars::texts(self.verifier_commands@),
                    chars::opt_text(*failure_json),
                    sorting::views(self.rounds@),
                ),
                "\n\n"@,
            ),
    {
        let mut parts: Vec<String> = Vec::new();
        parts.push(
            concat3("Grounded repair context (schema: ", self.schema_version.as_str(), ")."),
        );
        proof {
            assert(chars::texts(parts@) =~= seq![
                "Grounded repair context (schema: "@ + self.schema_version@ + ")."@,
            ]);
            assert(chars::texts(self.verifier_commands@).len() == self.verifier_commands@.len());
        }
        let summary = trim(self.summary.as_str());
        if !summary.as_str().is_empty() {
            parts.push(concat2("Grounded summary:\n", summary.as_str()));
        }
        if self.verifier_commands.len() > 0 {
            parts.push(
                concat2(
                    "Verifier commands:\n",
                    join(dash_all(self.verifier_commands.as_slice()).as_slice(), "\n").as_str(),
                ),
            );
        }
        match failure_json {
            Some(f) => {
                parts.push(concat2("Parsed failure report:\n", f.as_str()));
            },
            None => {},
        }
        let seen = observe(self.rounds.as_slice());
        proof {
            assert(chars::texts(seen@).len() == seen@.len());
        }
        if seen.len() > 0 {
            parts.push(
                concat2(
                    "Grounded tool observations:\n",
                    join(seen.as_slice(), "\n").as_str(),
                ),
            );
        }
        join(parts.as_slice(), "\n\n")
    }
}

/// The JSON text of the arguments with which a tool call of a model is made: those that it
/// gives, or none where they are no JSON.
pub open spec fn usable_text(raw: Seq<char>) -> Seq<char> {
    if json::json_refusal(raw) is Some {
        "{}"@
    } else {
        raw
    }
}

/// The JSON text of the arguments with which a tool call of a model is made.
pub fn usable_arguments(call: &ToolCall) -> (r: String)
    ensures
        r@ == usable_text(call.function.arguments@),
{
    match call.function.parse_arguments() {
        Ok(_) => own(call.function.arguments.as_str()),
        Err(_) => own("{}"),
    }
}

/// The arguments with which a tool call of a model is made.
pub fn grounding_args(call: &ToolCall) -> (r: ToolArgs)
    ensures
        r@ == types::args_of(usable_text(call.function.arguments@)),
{
    read_tool_args(usable_arguments(call).as_str())
}

/// The state of gathering: how often the model was asked, how many tool calls were made, and
/// whether it is over.
#[derive(Debug)]
pub struct GroundingRun {
    pub asked: usize,
    pub used: usize,
    pub finished: bool,
    pub rounds: Vec<GroundingRound>,
    /// What all answers used.
    pub total_usage: ApiUsage,
}

/// What a [`GroundingRun`] stands for.
#[verifier::ext_equal]
pub struct RunView {
    pub asked: nat,
    pub used: nat,
    pub finished: bool,
    pub rounds: Seq<RoundView>,
    pub usage: ApiUsage,
}

impl View for GroundingRun {
    type V = RunView;

    open spec fn view(&self) -> RunView {
        RunView {
            asked: self.asked as nat,
            used: self.used as nat,
            finished: self.finished,
            rounds: sorting::views(self.rounds@),
            usage: self.total_usage,
        }
    }
}

/// Whether a state keeps the limits: at most two rounds and six tool calls.
pub open spec fn keeps_limits(s: RunView) -> bool {
    &&& s.asked <= 2
    &&& s.used <= 6
    &&& s.rounds.len() <= s.asked
    &&& s.asked == 2 ==> s.finished
    &&& s.used == 6 ==> s.finished
}

/// How many of the requested tool calls are made.
pub open spec fn granted(s: RunView, requested: nat) -> nat {
    if requested + s.used > 6 {
        (6 - s.used) as nat
    } else {
        requested
    }
}

/// Whether what two requests used can be added.
pub open spec fn usage_fits(a: ApiUsage, b: ApiUsage) -> bool {
    &&& i64::MIN <= a.tokens_used + b.tokens_used <= i64::MAX
    &&& i128::MIN <= a.cost_nanos + b.cost_nanos <= i128::MAX
}

/// What two requests used together.
pub open spec fn usage_sum(a: ApiUsage, b: ApiUsage) -> ApiUsage {
    ApiUsage {
        tokens_used: (a.tokens_used + b.tokens_used) as i64,
        cost_nanos: (a.cost_nanos + b.cost_nanos) as i128,
    }
}

/// The state after an answer that asked for the given number of tool calls, of which `calls`
/// were made. An answer without tool calls ends the gathering.
pub open spec fn answered(
    s: RunView,
    said: Seq<char>,
    requested: nat,
    calls: Seq<CallView>,
    usage: ApiUsage,
) -> RunView {
    let used = s.used + calls.len();
    RunView {
        asked: s.asked + 1,
        used,
        finished: requested == 0 || used >= 6 || s.asked + 1 >= 2,
        rounds: s.rounds.push(RoundView { said, calls }),
        usage: usage_sum(s.usage, usage),
    }
}

impl GroundingRun {
    /// Nothing asked yet.
    pub fn new() -> (r: GroundingRun)
        ensures
            r@ == (RunView {
                asked: 0,
                used: 0,
                finished: false,
                rounds: Seq::empty(),
                usage: ApiUsage { tokens_used: 0, cost_nanos: 0 },
            }),
            keeps_limits(r@),
    {
        let r = GroundingRun {
            asked: 0,
            used: 0,
            finished: false,
            rounds: Vec::new(),
            total_usage: ApiUsage { tokens_used: 0, cost_nanos: 0 },
        };
        proof {
            assert(r@.rounds =~= Seq::<RoundView>::empty());
        }
        r
    }

    /// How many of the requested tool calls are to be made.
    pub fn grant(&self, requested: usize) -> (r: usize)
        requires
            keeps_limits(self@),
        ensures
            r == granted(self@, requested as nat),
    {
        let left: usize = MAX_GROUNDING_TOOL_CALLS - self.used;
        if requested > left {
            left
        } else {
            requested
        }
    }

    /// Records an answer and the tool calls that were made for it.
    pub fn record(
        &mut self,
        assistant_text: &str,
        requested: usize,
        calls: Vec<GroundingToolCall>,
        usage: &ApiUsage,
        env: &[EnvValue],
    )
        requires
            keeps_limits(old(self)@),
            !old(self)@.finished,
            calls@.len() == granted(old(self)@, requested as nat),
            usage_fits(old(self)@.usage, *usage),
        ensures
            final(self)@ == answered(
                old(self)@,
                secrets::masked(Masking::Words, assistant_text@, secrets::env_view(env@)),
                requested as nat,
                sorting::views(calls@),
                *usage,
            ),
            final(self).rounds@.len() == old(self).rounds@.len() + 1,
            final(self).rounds@.drop_last() == old(self).rounds@,
            final(self).rounds@.last().tool_calls == calls,
            keeps_limits(final(self)@),
    {
        let ghost cs = sorting::views(calls@);
        let ghost before = self.rounds@;
        let n: usize = calls.len();
        let said = redact_sensitive_text(assistant_text, env);
        self.asked = self.asked + 1;
        self.used = self.used + n;
        self.finished = requested == 0 || self.used >= MAX_GROUNDING_TOOL_CALLS || self.asked
            >= MAX_GROUNDING_ROUNDS;
        self.rounds.push(GroundingRound { assistant_text: said, tool_calls: calls });
        self.total_usage = ApiUsage {
            tokens_used: self.total_usage.tokens_used + usage.tokens_used,
            cost_nanos: self.total_usage.cost_nanos + usage.cost_nanos,
        };
        proof {
            assert(self.rounds@.drop_last() =~= before);
            assert(sorting::views(self.rounds@) =~= sorting::views(before).push(
                RoundView { said: said@, calls: cs },
            ));
        }
    }

    /// All that was gathered for the given goal, commands and failure.
    pub fn finish(
        self,
        description: &str,
        cmds: Vec<String>,
        parsed_failure: Option<ParsedFailureReport>,
    ) -> (r: GroundedRepairContext)
        ensures
            r.schema_version@ == "grounded-repair-context-v1"@,
            r.summary@ == truncated(
                split::joined(
                    summary_lines(
                        description@,
                        chars::texts(cmds@),
                        opt_report(parsed_failure),
                        self@.rounds,
                    ),
                    "\n"@,
                ),
                2400,
            ),
            r.verifier_commands == cmds,
            r.parsed_failure == parsed_failure,
            tools::tools_view(r.tool_surface@) == tools::tool_surface(),
            r.rounds == self.rounds,
            r.total_usage == self.total_usage,
    {
        let summary = build_grounding_summary(
            description,
            cmds.as_slice(),
            &parsed_failure,
            self.rounds.as_slice(),
        );
        GroundedRepairContext {
            schema_version: own(GROUNDED_REPAIR_CONTEXT_SCHEMA_NAME),
            summary,
            verifier_commands: cmds,
            parsed_failure,
            tool_surface: repo_native_tool_surface(),
            rounds: self.rounds,
            total_usage: self.total_usage,
        }
    }
}

/// Gathering ends after at most two answers: every answer is counted, and the second is the
/// last.
pub proof fn law_gathering_ends(
    s: RunView,
    said: Seq<char>,
    requested: nat,
    calls: Seq<CallView>,
    usage: ApiUsage,
)
    requires
        keeps_limits(s),
        !s.finished,
        calls.len() == granted(s, requested),
    ensures
        keeps_limits(answered(s, said, requested, calls, usage)),
        answered(s, said, requested, calls, usage).asked == s.asked + 1,
        s.asked == 1 ==> answered(s, said, requested, calls, usage).finished,
{
}

} // verus!
