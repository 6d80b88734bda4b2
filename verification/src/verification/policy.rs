//! What is recorded of verifier commands.
use crate::failure_parser::command;
use crate::failure_parser::command::{
    classify_verifier_command, parse_command_parts, VerifierCommandKind,
};
use crate::api::types::{ArgsView, ToolArgs};
use crate::json;
use crate::json::{
    field, integer_or_null, object, text, text_list, text_or_null, Json, JsonView,
};
use crate::text::chars;
use crate::text::chars::{own, same};
use crate::text::find;
use crate::text::find::trim;
use crate::verification::invocation;
use crate::verification::invocation::{
    injected_verifier_env, name_of_kind, parse_allowlisted_verifier_invocation,
    verifier_rejection_reason, EnvChange, InvocationView, VerifierInvocation, VerifierRuntimeMode,
};
use crate::verification::secrets;
use crate::verification::secrets::{is_sensitive_key, redact_sensitive_text, EnvValue, Masking};
use crate::verification::workspace;
use crate::verification::workspace::normalize_path;
use vstd::prelude::*;

verus! {

broadcast use chars::lemma_texts_push, chars::lemma_texts_empty;

/// Where commands run and what must not be shown.
#[derive(Debug)]
pub struct ToolContext {
    pub project_root: String,
    pub workspace_root: String,
    /// The directory in which relative paths begin.
    pub cwd: String,
    pub mode: VerifierRuntimeMode,
    /// The secret variables that are set.
    pub secrets: Vec<EnvValue>,
}

/// What a [`ToolContext`] stands for.
#[verifier::ext_equal]
pub struct ContextView {
    pub project: Seq<char>,
    pub workspace: Seq<char>,
    pub cwd: Seq<char>,
    pub mode: VerifierRuntimeMode,
    pub secrets: Seq<(Seq<char>, Seq<char>)>,
}

impl View for ToolContext {
    type V = ContextView;

    open spec fn view(&self) -> ContextView {
        ContextView {
            project: self.project_root@,
            workspace: self.workspace_root@,
            cwd: self.cwd@,
            mode: self.mode,
            secrets: secrets::env_view(self.secrets@),
        }
    }
}

/// A text without secrets.
pub open spec fn shown(c: ContextView, s: Seq<char>) -> Seq<char> {
    secrets::masked(Masking::Words, s, c.secrets)
}

/// The texts without secrets.
pub open spec fn all_shown(c: ContextView, s: Seq<Seq<char>>) -> Seq<Seq<char>> {
    Seq::new(s.len(), |i: int| shown(c, s[i]))
}

/// Whether the workspace is the project itself.
pub open spec fn is_project_root(c: ContextView) -> bool {
    match (
        workspace::normal_parts(c.project, c.cwd),
        workspace::normal_parts(c.workspace, c.cwd),
    ) {
        (Some(a), Some(b)) => a == b,
        _ => false,
    }
}

/// How commands are kept from the project.
pub open spec fn isolation(c: ContextView) -> Seq<char> {
    if is_project_root(c) {
        "project_root"@
    } else {
        "repo_copy"@
    }
}

fn same_texts(a: &[String], b: &[String]) -> (r: bool)
    ensures
        r == (chars::texts(a@) == chars::texts(b@)),
{
    let ghost x = chars::texts(a@);
    let ghost y = chars::texts(b@);
    proof {
        assert(x.len() == a@.len() && y.len() == b@.len());
    }
    if a.len() != b.len() {
        return false;
    }
    let mut i: usize = 0;
    while i < a.len()
        invariant
            x == chars::texts(a@),
            y == chars::texts(b@),
            i <= a@.len() == b@.len(),
            forall|j: int| 0 <= j < i ==> #[trigger] x[j] == y[j],
        decreases a@.len() - i,
    {
        proof {
            assert(x[i as int] == a@[i as int]@);
            assert(y[i as int] == b@[i as int]@);
        }
        if !same(a[i].as_str(), b[i].as_str()) {
            return false;
        }
        i = i + 1;
    }
    proof {
        assert(x =~= y);
    }
    true
}

/// How commands are kept from the project.
pub fn verifier_isolation_mode(c: &ToolContext) -> (r: &'static str)
    ensures
        r@ == isolation(c@),
{
    let a = normalize_path(c.project_root.as_str(), c.cwd.as_str());
    let b = normalize_path(c.workspace_root.as_str(), c.cwd.as_str());
    match (a, b) {
        (Ok(x), Ok(y)) => {
            if same_texts(x.as_slice(), y.as_slice()) {
                "project_root"
            } else {
                "repo_copy"
            }
        },
        _ => "repo_copy",
    }
}

/// The texts without secrets.
pub fn redact_all(c: &ToolContext, v: &[String]) -> (r: Vec<String>)
    ensures
        chars::texts(r@) == all_shown(c@, chars::texts(v@)),
{
    let mut out: Vec<String> = Vec::new();
    let mut i: usize = 0;
    while i < v.len()
        invariant
            i <= v@.len(),
            out@.len() == i,
            forall|j: int| 0 <= j < i ==> (#[trigger] out@[j])@ == shown(c@, v@[j]@),
        decreases v@.len() - i,
    {
        out.push(redact_sensitive_text(v[i].as_str(), c.secrets.as_slice()));
        i = i + 1;
    }
    proof {
        assert(chars::texts(out@) =~= all_shown(c@, chars::texts(v@)));
    }
    out
}

/// Whether a variable is set once more after position `i`.
pub open spec fn is_set_again(set: Seq<(Seq<char>, Seq<char>)>, i: int) -> bool {
    exists|j: int| i < j < set.len() && (#[trigger] set[j]).0 == set[i].0
}

/// The first `n` variables that a command sets, each once and with the value that it has at
/// the end.
pub open spec fn last_settings(set: Seq<(Seq<char>, Seq<char>)>, n: int) -> Seq<
    (Seq<char>, Seq<char>),
>
    decreases n,
{
    if n <= 0 || n > set.len() {
        Seq::empty()
    } else if is_set_again(set, n - 1) {
        last_settings(set, n - 1)
    } else {
        last_settings(set, n - 1).push(set[n - 1])
    }
}

/// What is shown of the value of a variable.
pub open spec fn shown_setting(c: ContextView, s: (Seq<char>, Seq<char>)) -> (
    Seq<char>,
    JsonView,
) {
    (
        s.0,
        JsonView::Text(
            if secrets::is_secret_key(s.0) {
                "[REDACTED]"@
            } else {
                shown(c, s.1)
            },
        ),
    )
}

/// The variables that a command sets, each once and with its value masked.
pub open spec fn overrides(c: ContextView, set: Seq<(Seq<char>, Seq<char>)>) -> JsonView {
    JsonView::Object(
        last_settings(set, set.len() as int).map_values(
            |s: (Seq<char>, Seq<char>)| shown_setting(c, s),
        ),
    )
}

fn sets_again(set: &[(String, String)], i: usize) -> (r: bool)
    requires
        i < set@.len(),
    ensures
        r == is_set_again(invocation::pairs(set@), i as int),
{
    let ghost all = invocation::pairs(set@);
    let n: usize = set.len();
    let mut j: usize = i + 1;
    while j < n
        invariant
            n == set@.len(),
            all == invocation::pairs(set@),
            i < j <= set@.len(),
            forall|k: int| i < k < j ==> (#[trigger] all[k]).0 != all[i as int].0,
        decreases set@.len() - j,
    {
        proof {
            assert(all[j as int].0 == set@[j as int].0@);
            assert(all[i as int].0 == set@[i as int].0@);
        }
        if same(set[j].0.as_str(), set[i].0.as_str()) {
            return true;
        }
        j = j + 1;
    }
    false
}

fn override_fields(c: &ToolContext, set: &[(String, String)]) -> (r: Json)
    ensures
        r@ == overrides(c@, invocation::pairs(set@)),
{
    let ghost all = invocation::pairs(set@);
    let ghost show = |s: (Seq<char>, Seq<char>)| shown_setting(c@, s);
    let mut out: Vec<(String, Json)> = Vec::new();
    let mut i: usize = 0;
    proof {
        assert(json::fields_view(out@) =~= last_settings(all, 0).map_values(show));
    }
    while i < set.len()
        invariant
            i <= set@.len(),
            all == invocation::pairs(set@),
            show == (|s: (Seq<char>, Seq<char>)| shown_setting(c@, s)),
            json::fields_view(out@) == last_settings(all, i as int).map_values(show),
        decreases set@.len() - i,
    {
        let ghost before = out@;
        proof {
            assert(all[i as int] == (set@[i as int].0@, set@[i as int].1@));
        }
        if !sets_again(set, i) {
            let value = if is_sensitive_key(set[i].0.as_str()) {
                own("[REDACTED]")
            } else {
                redact_sensitive_text(set[i].1.as_str(), c.secrets.as_slice())
            };
            out.push((own(set[i].0.as_str()), Json::Text(value)));
            proof {
                assert(json::fields_view(out@) =~= json::fields_view(before).push(
                    shown_setting(c@, all[i as int]),
                ));
                assert(last_settings(all, i + 1).map_values(show) =~= last_settings(
                    all,
                    i as int,
                ).map_values(show).push(shown_setting(c@, all[i as int])));
            }
        }
        i = i + 1;
    }
    object(out)
}

/// The environment change of a command, or none.
pub open spec fn change_of(i: Option<InvocationView>) -> EnvChange {
    match i {
        Some(x) => x.env,
        None => invocation::no_change(),
    }
}

/// The program of a command, or none.
pub open spec fn program_of(i: Option<InvocationView>) -> Seq<char> {
    match i {
        Some(x) => x.program,
        None => Seq::empty(),
    }
}

/// The rules under which a command ran.
pub open spec fn policy(
    c: ContextView,
    i: Option<InvocationView>,
    kind: VerifierCommandKind,
    injected: Seq<Seq<char>>,
) -> JsonView {
    JsonView::Object(
        seq![
            ("allowlist_enforced"@, JsonView::Bool(true)),
            ("secret_redaction_enabled"@, JsonView::Bool(true)),
            ("ci"@, JsonView::Bool(c.mode.ci)),
            ("noninteractive"@, JsonView::Bool(c.mode.noninteractive)),
            ("isolation_mode"@, JsonView::Text(isolation(c))),
            ("workspace_isolated"@, JsonView::Bool(!is_project_root(c))),
            ("command_kind"@, JsonView::Text(invocation::kind_name(kind))),
            (
                "program"@,
                JsonView::Text(
                    if i is Some {
                        shown(c, program_of(i))
                    } else {
                        Seq::empty()
                    },
                ),
            ),
            ("env_clear"@, JsonView::Bool(change_of(i).clear)),
            ("env_removed"@, json::text_items(change_of(i).remove)),
            ("env_overrides"@, overrides(c, change_of(i).set)),
            ("injected_env"@, json::text_items(injected)),
        ],
    )
}

/// What an optional invocation stands for.
pub open spec fn opt_invocation(i: Option<VerifierInvocation>) -> Option<InvocationView> {
    match i {
        Some(x) => Some(x@),
        None => None,
    }
}

fn workspace_is_isolated(c: &ToolContext) -> (r: bool)
    ensures
        r == !is_project_root(c@),
{
    proof {
        reveal_strlit("project_root");
        reveal_strlit("repo_copy");
        assert("project_root"@.len() != "repo_copy"@.len());
    }
    same(verifier_isolation_mode(c), "repo_copy")
}

/// The rules under which a command ran.
pub fn verifier_policy_json(
    c: &ToolContext,
    i: &Option<VerifierInvocation>,
    kind: VerifierCommandKind,
    injected_env: &[String],
) -> (r: Json)
    ensures
        r@ == policy(c@, opt_invocation(*i), kind, chars::texts(injected_env@)),
{
    let (env_clear, removed, set, program) = match i {
        Some(x) => (
            x.env_clear,
            text_list(x.env_remove.as_slice()),
            override_fields(c, x.env_set.as_slice()),
            redact_sensitive_text(x.program.as_str(), c.secrets.as_slice()),
        ),
        None => {
            let none: Vec<String> = Vec::new();
            let no_pairs: Vec<(String, String)> = Vec::new();
            let empty = String::new();
            proof {
                assert(empty@ =~= Seq::<char>::empty());
                assert(invocation::pairs(no_pairs@) =~= Seq::<(Seq<char>, Seq<char>)>::empty());
            }
            (
                false,
                text_list(none.as_slice()),
                override_fields(c, no_pairs.as_slice()),
                empty,
            )
        },
    };
    let fields = vec![
        field("allowlist_enforced", Json::Bool(true)),
        field("secret_redaction_enabled", Json::Bool(true)),
        field("ci", Json::Bool(c.mode.ci)),
        field("noninteractive", Json::Bool(c.mode.noninteractive)),
        field("isolation_mode", text(verifier_isolation_mode(c))),
        field("workspace_isolated", Json::Bool(workspace_is_isolated(c))),
        field("command_kind", text(name_of_kind(kind))),
        field("program", Json::Text(program)),
        field("env_clear", Json::Bool(env_clear)),
        field("env_removed", removed),
        field("env_overrides", set),
        field("injected_env", text_list(injected_env)),
    ];
    proof {
        assert(json::fields_view(fields@) =~= policy(
            c@,
            opt_invocation(*i),
            kind,
            chars::texts(injected_env@),
        )->Object_0);
    }
    object(fields)
}

/// One decision on a command.
#[derive(Debug)]
pub struct VerifierAuditEntry {
    pub event: String,
    pub tool: String,
    pub command: String,
    pub command_kind: VerifierCommandKind,
    pub decision: String,
    pub exit_code: Option<i32>,
    pub rejection_reason: Option<String>,
}

/// What is recorded of a decision on a command.
pub open spec fn audit(c: ContextView, e: VerifierAuditEntry) -> JsonView {
    JsonView::Object(
        seq![
            ("event"@, JsonView::Text(e.event@)),
            ("tool"@, JsonView::Text(e.tool@)),
            ("decision"@, JsonView::Text(e.decision@)),
            ("command"@, JsonView::Text(shown(c, e.command@))),
            ("command_kind"@, JsonView::Text(invocation::kind_name(e.command_kind))),
            ("exit_code"@, json::opt_integer(e.exit_code)),
            ("rejection_reason"@, json::opt_text(chars::opt_text(e.rejection_reason))),
            ("ci"@, JsonView::Bool(c.mode.ci)),
            ("noninteractive"@, JsonView::Bool(c.mode.noninteractive)),
            ("isolation_mode"@, JsonView::Text(isolation(c))),
            ("workspace_isolated"@, JsonView::Bool(!is_project_root(c))),
        ],
    )
}

/// What is recorded of a decision on a command.
pub fn verifier_audit_json(c: &ToolContext, e: &VerifierAuditEntry) -> (r: Json)
    ensures
        r@ == audit(c@, *e),
{
    let fields = vec![
        field("event", text(e.event.as_str())),
        field("tool", text(e.tool.as_str())),
        field("decision", text(e.decision.as_str())),
        field(
            "command",
            Json::Text(redact_sensitive_text(e.command.as_str(), c.secrets.as_slice())),
        ),
        field("command_kind", text(name_of_kind(e.command_kind))),
        field("exit_code", integer_or_null(e.exit_code)),
        field("rejection_reason", text_or_null(&e.rejection_reason)),
        field("ci", Json::Bool(c.mode.ci)),
        field("noninteractive", Json::Bool(c.mode.noninteractive)),
        field("isolation_mode", text(verifier_isolation_mode(c))),
        field("workspace_isolated", Json::Bool(workspace_is_isolated(c))),
    ];
    proof {
        assert(json::fields_view(fields@) =~= audit(c@, *e)->Object_0);
    }
    object(fields)
}

/// The names of the variables that are set for a command.
pub open spec fn injected_names(c: ContextView, i: Option<InvocationView>) -> Seq<Seq<char>> {
    match i {
        Some(x) => {
            let vars = invocation::untouched(invocation::mode_variables(c.mode), x.env);
            Seq::new(vars.len(), |k: int| vars[k].0)
        },
        None => Seq::empty(),
    }
}

/// The names of the variables that are set for a command.
pub fn injected_keys(c: &ToolContext, i: &Option<VerifierInvocation>) -> (r: Vec<String>)
    ensures
        chars::texts(r@) == injected_names(c@, opt_invocation(*i)),
{
    let mut out: Vec<String> = Vec::new();
    match i {
        Some(x) => {
            let vars = injected_verifier_env(x, c.mode);
            let mut k: usize = 0;
            while k < vars.len()
                invariant
                    k <= vars@.len(),
                    out@.len() == k,
                    forall|j: int| 0 <= j < k ==> (#[trigger] out@[j])@ == vars@[j].0@,
                decreases vars@.len() - k,
            {
                out.push(own(vars[k].0.as_str()));
                k = k + 1;
            }
            proof {
                let all = invocation::untouched(invocation::mode_variables(c.mode), x@.env);
                assert(invocation::pairs(vars@).len() == vars@.len());
                assert forall|j: int| 0 <= j < vars@.len() implies #[trigger] all[j].0
                    == vars@[j].0@ by {
                    assert(invocation::pairs(vars@)[j] == (vars@[j].0@, vars@[j].1@));
                }
                assert(chars::texts(out@) =~= injected_names(c@, opt_invocation(*i)));
            }
        },
        None => {},
    }
    out
}

/// The words of a command, none if the command is blank.
pub open spec fn words_of(s: Seq<char>) -> Seq<Seq<char>> {
    if s.len() == 0 {
        Seq::empty()
    } else {
        command::command_words(s)
    }
}

/// The verifier of a command, none if the command is blank.
pub open spec fn kind_of(words: Seq<Seq<char>>) -> VerifierCommandKind {
    if words.len() == 0 {
        VerifierCommandKind::Unknown
    } else {
        command::verifier_kind(words)
    }
}

/// The command taken apart, if it may run.
pub open spec fn allowed(words: Seq<Seq<char>>) -> Option<InvocationView> {
    match invocation::invocation(words) {
        Ok(i) => Some(i),
        Err(_) => None,
    }
}

/// What is shown of a failed tool call. For commands it tells the command, the rules and the
/// decision as well.
pub open spec fn error_output(c: ContextView, tool: Seq<char>, args: ArgsView, error: Seq<char>) ->
    JsonView {
    let said = ("error"@, JsonView::Text(shown(c, error)));
    if tool != "run_tests"@ {
        JsonView::Object(seq![said])
    } else {
        let given = match args.command {
            Some(t) => find::trimmed(t),
            None => Seq::empty(),
        };
        let words = words_of(given);
        let kind = kind_of(words);
        let inv = allowed(words);
        JsonView::Object(
            seq![
                said,
                ("command"@, JsonView::Text(shown(c, given))),
                ("command_parts"@, json::text_items(all_shown(c, words))),
                ("kind"@, JsonView::Text(invocation::kind_name(kind))),
                ("policy"@, policy(c, inv, kind, injected_names(c, inv))),
                (
                    "audit"@,
                    JsonView::Object(
                        seq![
                            ("event"@, JsonView::Text("verifier_command_rejected"@)),
                            ("tool"@, JsonView::Text(tool)),
                            ("decision"@, JsonView::Text("rejected"@)),
                            ("command"@, JsonView::Text(shown(c, given))),
                            ("command_kind"@, JsonView::Text(invocation::kind_name(kind))),
                            ("exit_code"@, JsonView::Null),
                            (
                                "rejection_reason"@,
                                JsonView::Text(invocation::rejection_reason(error)),
                            ),
                            ("ci"@, JsonView::Bool(c.mode.ci)),
                            ("noninteractive"@, JsonView::Bool(c.mode.noninteractive)),
                            ("isolation_mode"@, JsonView::Text(isolation(c))),
                            ("workspace_isolated"@, JsonView::Bool(!is_project_root(c))),
                        ],
                    ),
                ),
            ],
        )
    }
}

/// What is shown of a failed tool call.
pub fn build_tool_error_output(c: &ToolContext, tool: &str, args: &ToolArgs, error: &str) -> (r: Json)
    ensures
        r@ == error_output(c@, tool@, args@, error@),
{
    let said = redact_sensitive_text(error, c.secrets.as_slice());
    if !same(tool, "run_tests") {
        let fields = vec![field("error", Json::Text(said))];
        proof {
            assert(json::fields_view(fields@) =~= error_output(
                c@,
                tool@,
                args@,
                error@,
            )->Object_0);
        }
        return object(fields);
    }
    let command_line = match &args.command {
        Some(t) => trim(t.as_str()),
        None => {
            let empty = String::new();
            proof {
                assert(empty@ =~= Seq::<char>::empty());
            }
            empty
        },
    };
    let parts: Vec<String> = if command_line.as_str().is_empty() {
        Vec::new()
    } else {
        parse_command_parts(command_line.as_str())
    };
    proof {
        assert(chars::texts(parts@).len() == parts@.len());
    }
    let kind = if parts.len() == 0 {
        VerifierCommandKind::Unknown
    } else {
        classify_verifier_command(parts.as_slice())
    };
    let inv = match parse_allowlisted_verifier_invocation(parts.as_slice()) {
        Ok(i) => Some(i),
        Err(_) => None,
    };
    let keys = injected_keys(c, &inv);
    let entry = VerifierAuditEntry {
        event: own("verifier_command_rejected"),
        tool: own(tool),
        command: own(command_line.as_str()),
        command_kind: kind,
        decision: own("rejected"),
        exit_code: None,
        rejection_reason: Some(own(verifier_rejection_reason(error))),
    };
    let fields = vec![
        field("error", Json::Text(said)),
        field(
            "command",
            Json::Text(redact_sensitive_text(command_line.as_str(), c.secrets.as_slice())),
        ),
        field("command_parts", text_list(redact_all(c, parts.as_slice()).as_slice())),
        field("kind", text(name_of_kind(kind))),
        field("policy", verifier_policy_json(c, &inv, kind, keys.as_slice())),
        field("audit", verifier_audit_json(c, &entry)),
    ];
    proof {
        assert(audit(c@, entry)->Object_0 =~= error_output(
            c@,
            tool@,
            args@,
            error@,
        )->Object_0[5].1->Object_0);
        assert(json::fields_view(fields@) =~= error_output(c@, tool@, args@, error@)->Object_0);
    }
    object(fields)
}

} // verus!
