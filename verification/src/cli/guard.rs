//! What is allowed to run, and what is told of it.
use crate::engine::settings::VerifyConfig;
use crate::json;
use crate::json::{field, object, text, text_or_null, Json, JsonView};
use crate::text::chars;
use crate::text::chars::{concat3, own, own_opt, same, same_ignoring_case};
use crate::text::find;
use crate::text::find::trim;
use crate::text::split;
use crate::text::split::join;
use crate::verification::invocation;
use crate::verification::invocation::verifier_command_allowlisted;
use crate::verification::secrets;
use crate::verification::secrets::{redact_json_value, EnvValue, Masking};
use vstd::prelude::*;

verus! {

broadcast use chars::lemma_texts_push, chars::lemma_texts_empty;

/// The variable that switches the list of allowed verifiers off.
pub const VERIFIER_ALLOWLIST_OVERRIDE_ENV: &'static str = "MERCURY_ALLOW_UNSAFE_VERIFIER_COMMANDS";

/// How candidates are kept apart from the project.
pub const SANDBOX_POLICY: &'static str = "repo_isolated_worktree_copy";

/// Whether the value of a variable says yes: it is `1`, or `true` in any case.
pub open spec fn says_yes(value: Option<Seq<char>>) -> bool {
    match value {
        Some(v) => v == "1"@ || chars::lowercase(v) == chars::lowercase("true"@),
        None => false,
    }
}

/// Whether the value of a variable says yes: it is `1`, or `true` in any case.
pub fn switched_on(value: &Option<String>) -> (r: bool)
    ensures
        r == says_yes(chars::opt_text(*value)),
{
    match value {
        Some(v) => same(v.as_str(), "1") || same_ignoring_case(v.as_str(), "true"),
        None => false,
    }
}

/// Whether this is an automated build, by the values of `CI` and `GITHUB_ACTIONS`.
pub fn running_in_ci(ci: &Option<String>, github_actions: &Option<String>) -> (r: bool)
    ensures
        r == (says_yes(chars::opt_text(*ci)) || says_yes(chars::opt_text(*github_actions))),
{
    switched_on(ci) || switched_on(github_actions)
}

/// Whether nobody watches: it was said so, this is an automated build, or the output goes to no
/// terminal.
pub fn is_noninteractive_mode(explicit: bool, ci: bool, terminal: bool) -> (r: bool)
    ensures
        r == (explicit || ci || !terminal),
{
    explicit || ci || !terminal
}

/// The commands that are to run and are not allowed.
pub open spec fn violations(c: VerifyConfig) -> Seq<Seq<char>> {
    (if c.test_after_write && invocation::allowed_words(c.test_command@) is Err {
        seq!["test_command=`"@ + find::trimmed(c.test_command@) + "`"@]
    } else {
        Seq::<Seq<char>>::empty()
    }) + (if c.lint_after_write && invocation::allowed_words(c.lint_command@) is Err {
        seq!["lint_command=`"@ + find::trimmed(c.lint_command@) + "`"@]
    } else {
        Seq::<Seq<char>>::empty()
    })
}

/// Why the commands may not run.
pub open spec fn violation_text(found: Seq<Seq<char>>) -> Seq<char> {
    "verifier allowlist violation: "@ + split::joined(found, ", "@)
        + ". Supported verifier commands are direct allowlisted Rust/TypeScript verifier invocations (including env-prefix variants) without shell composition. Set "@
        + VERIFIER_ALLOWLIST_OVERRIDE_ENV@ + "=1 to bypass."@
}

/// Whether the commands may run; `Ok(true)` means only because the list is switched off.
pub open spec fn admission(c: VerifyConfig, override_on: bool, ci: bool) -> Result<bool, Seq<char>> {
    if override_on && ci {
        Err(
            "verifier allowlist override via "@ + VERIFIER_ALLOWLIST_OVERRIDE_ENV@
                + " is disabled in CI"@,
        )
    } else if override_on {
        Ok(true)
    } else if violations(c).len() == 0 {
        Ok(false)
    } else {
        Err(violation_text(violations(c)))
    }
}

/// What the outcome stands for.
pub open spec fn admission_view(r: Result<bool, String>) -> Result<bool, Seq<char>> {
    match r {
        Ok(b) => Ok(b),
        Err(e) => Err(e@),
    }
}

/// Says whether the commands of a configuration may run. The list of allowed verifiers can be
/// switched off, but not in automated builds; `Ok(true)` says that it is.
pub fn enforce_verifier_allowlist(c: &VerifyConfig, override_on: bool, ci: bool) -> (r: Result<
    bool,
    String,
>)
    ensures
        admission_view(r) == admission(*c, override_on, ci),
{
    if override_on {
        if ci {
            return Err(
                concat3(
                    "verifier allowlist override via ",
                    VERIFIER_ALLOWLIST_OVERRIDE_ENV,
                    " is disabled in CI",
                ),
            );
        }
        return Ok(true);
    }
    let mut found: Vec<String> = Vec::new();
    if c.test_after_write && !verifier_command_allowlisted(c.test_command.as_str()) {
        found.push(concat3("test_command=`", trim(c.test_command.as_str()).as_str(), "`"));
    }
    if c.lint_after_write && !verifier_command_allowlisted(c.lint_command.as_str()) {
        found.push(concat3("lint_command=`", trim(c.lint_command.as_str()).as_str(), "`"));
    }
    proof {
        assert(chars::texts(found@) =~= violations(*c));
    }
    if found.len() == 0 {
        return Ok(false);
    }
    let head = concat3(
        "verifier allowlist violation: ",
        join(found.as_slice(), ", ").as_str(),
        ". Supported verifier commands are direct allowlisted Rust/TypeScript verifier invocations (including env-prefix variants) without shell composition. Set ",
    );
    Err(concat3(head.as_str(), VERIFIER_ALLOWLIST_OVERRIDE_ENV, "=1 to bypass."))
}

/// What protects a run.
#[derive(Debug, Clone, PartialEq, Eq)]
pub struct SecurityRuntimeContext {
    pub ci: bool,
    pub noninteractive: bool,
    pub verifier_allowlist_override_requested: bool,
    pub verifier_allowlist_override_applied: bool,
    pub verifier_allowlist_enforced: bool,
    pub secret_redaction_enabled: bool,
    pub sandbox_policy: String,
    pub execution_sandbox_enforced: bool,
    pub sandbox_run_root: Option<String>,
}

/// What a [`SecurityRuntimeContext`] stands for.
#[verifier::ext_equal]
pub struct SecurityView {
    pub ci: bool,
    pub noninteractive: bool,
    pub requested: bool,
    pub applied: bool,
    pub enforced: bool,
    pub redaction: bool,
    pub policy: Seq<char>,
    pub sandboxed: bool,
    pub root: Option<Seq<char>>,
}

impl View for SecurityRuntimeContext {
    type V = SecurityView;

    open spec fn view(&self) -> SecurityView {
        SecurityView {
            ci: self.ci,
            noninteractive: self.noninteractive,
            requested: self.verifier_allowlist_override_requested,
            applied: self.verifier_allowlist_override_applied,
            enforced: self.verifier_allowlist_enforced,
            redaction: self.secret_redaction_enabled,
            policy: self.sandbox_policy@,
            sandboxed: self.execution_sandbox_enforced,
            root: chars::opt_text(self.sandbox_run_root),
        }
    }
}

/// What protects a run.
pub open spec fn security(
    noninteractive: bool,
    override_on: bool,
    ci: bool,
    root: Option<Seq<char>>,
) -> SecurityView {
    SecurityView {
        ci,
        noninteractive,
        requested: override_on,
        applied: override_on && !ci,
        enforced: !override_on || ci,
        redaction: true,
        policy: SANDBOX_POLICY@,
        sandboxed: false,
        root,
    }
}

/// What protects a run, given whether the list of allowed verifiers is switched off, whether
/// this is an automated build, and where candidates are kept.
pub fn security_runtime_context(
    noninteractive: bool,
    override_on: bool,
    ci: bool,
    sandbox_run_root: &Option<String>,
) -> (r: SecurityRuntimeContext)
    ensures
        r@ == security(noninteractive, override_on, ci, chars::opt_text(*sandbox_run_root)),
{
    SecurityRuntimeContext {
        ci,
        noninteractive,
        verifier_allowlist_override_requested: override_on,
        verifier_allowlist_override_applied: override_on && !ci,
        verifier_allowlist_enforced: !override_on || ci,
        secret_redaction_enabled: true,
        sandbox_policy: own(SANDBOX_POLICY),
        execution_sandbox_enforced: false,
        sandbox_run_root: own_opt(sandbox_run_root),
    }
}

/// What protects a run, in JSON.
pub open spec fn security_json(s: SecurityView) -> JsonView {
    JsonView::Object(
        seq![
            ("ci"@, JsonView::Bool(s.ci)),
            ("noninteractive"@, JsonView::Bool(s.noninteractive)),
            ("verifier_allowlist_override_requested"@, JsonView::Bool(s.requested)),
            ("verifier_allowlist_override_applied"@, JsonView::Bool(s.applied)),
            ("verifier_allowlist_enforced"@, JsonView::Bool(s.enforced)),
            ("secret_redaction_enabled"@, JsonView::Bool(s.redaction)),
            ("sandbox_policy"@, JsonView::Text(s.policy)),
            ("execution_sandbox_enforced"@, JsonView::Bool(s.sandboxed)),
            ("sandbox_run_root"@, json::opt_text(s.root)),
        ],
    )
}

impl SecurityRuntimeContext {
    /// What protects the run, in JSON.
    pub fn to_json(&self) -> (r: Json)
        ensures
            r@ == security_json(self@),
    {
        let fields = vec![
            field("ci", Json::Bool(self.ci)),
            field("noninteractive", Json::Bool(self.noninteractive)),
            field(
                "verifier_allowlist_override_requested",
                Json::Bool(self.verifier_allowlist_override_requested),
            ),
            field(
                "verifier_allowlist_override_applied",
                Json::Bool(self.verifier_allowlist_override_applied),
            ),
            field("verifier_allowlist_enforced", Json::Bool(self.verifier_allowlist_enforced)),
            field("secret_redaction_enabled", Json::Bool(self.secret_redaction_enabled)),
            field("sandbox_policy", text(self.sandbox_policy.as_str())),
            field("execution_sandbox_enforced", Json::Bool(self.execution_sandbox_enforced)),
            field("sandbox_run_root", text_or_null(&self.sandbox_run_root)),
        ];
        proof {
            assert(json::fields_view(fields@) =~= security_json(self@)->Object_0);
        }
        object(fields)
    }

    /// A copy of what protects the run.
    pub fn copy(&self) -> (r: SecurityRuntimeContext)
        ensures
            r@ == self@,
    {
        SecurityRuntimeContext {
            ci: self.ci,
            noninteractive: self.noninteractive,
            verifier_allowlist_override_requested: self.verifier_allowlist_override_requested,
            verifier_allowlist_override_applied: self.verifier_allowlist_override_applied,
            verifier_allowlist_enforced: self.verifier_allowlist_enforced,
            secret_redaction_enabled: self.secret_redaction_enabled,
            sandbox_policy: own(self.sandbox_policy.as_str()),
            execution_sandbox_enforced: self.execution_sandbox_enforced,
            sandbox_run_root: own_opt(&self.sandbox_run_root),
        }
    }
}

/// An event as it is written: with its time, and without secrets.
pub open spec fn payload(
    timestamp: Seq<char>,
    event: Seq<char>,
    details: JsonView,
    env: Seq<(Seq<char>, Seq<char>)>,
) -> JsonView {
    JsonView::Object(
        seq![
            ("timestamp"@, JsonView::Text(timestamp)),
            ("event"@, JsonView::Text(event)),
            ("details"@, secrets::masked_json(Masking::Lines, details, env)),
        ],
    )
}

/// An event as it is written: with its time, and without secrets.
pub fn event_payload(timestamp: &str, event: &str, details: &Json, env: &[EnvValue]) -> (r: Json)
    ensures
        r@ == payload(timestamp@, event@, details@, secrets::env_view(env@)),
{
    let fields = vec![
        field("timestamp", text(timestamp)),
        field("event", text(event)),
        field("details", redact_json_value(details, env)),
    ];
    proof {
        assert(json::fields_view(fields@) =~= payload(
            timestamp@,
            event@,
            details@,
            secrets::env_view(env@),
        )->Object_0);
    }
    object(fields)
}

/// In an automated build no command runs that is not allowed, whatever is switched off.
pub proof fn law_automated_builds_run_only_allowed_commands(c: VerifyConfig, override_on: bool)
    ensures
        admission(c, override_on, true) is Ok ==> {
            &&& c.test_after_write ==> invocation::allowed_words(c.test_command@) is Ok
            &&& c.lint_after_write ==> invocation::allowed_words(c.lint_command@) is Ok
        },
        security(true, override_on, true, None).enforced,
{
}

/// The list of allowed verifiers is in force exactly if it is not switched off.
pub proof fn law_list_is_enforced_or_overridden(
    noninteractive: bool,
    override_on: bool,
    ci: bool,
    root: Option<Seq<char>>,
)
    ensures
        security(noninteractive, override_on, ci, root).enforced != security(
            noninteractive,
            override_on,
            ci,
            root,
        ).applied,
{
}

/// A switch says yes for a one, and for the word in letters of any case; nothing else does.
pub proof fn law_switches(value: Seq<char>)
    ensures
        says_yes(Some(chars::lowercase(value))) == says_yes(Some(value)),
        says_yes(Some("1"@)),
        says_yes(Some("true"@)),
        !says_yes(Some("0"@)),
        !says_yes(None),
{
    reveal_strlit("1");
    reveal_strlit("0");
    reveal_strlit("true");
    let l = chars::lowercase(value);
    assert(chars::lowercase(l) =~= l) by {
        assert forall|c: char| #[trigger] chars::lower(chars::lower(c)) == chars::lower(c) by {}
    }
    assert("0"@[0] == '0' && "1"@[0] == '1');
    assert("0"@.len() == 1 && "true"@.len() == 4);
    assert(chars::lowercase("0"@).len() == 1 && chars::lowercase("true"@).len() == 4);
    if value == "1"@ {
        assert(l =~= "1"@);
    }
    if l == "1"@ {
        assert(l[0] == chars::lower(value[0]));
        assert(value =~= "1"@);
    }
}

/// A refusal names every command that is not allowed.
pub proof fn law_refusals_say_which_commands(c: VerifyConfig)
    requires
        violations(c).len() > 0,
    ensures
        admission(c, false, false) matches Err(e) && find::has_text(
            e,
            split::joined(violations(c), ", "@),
        ),
{
    let e = violation_text(violations(c));
    let a = "verifier allowlist violation: "@;
    let j = split::joined(violations(c), ", "@);
    assert(e.subrange(a.len() as int, a.len() as int + j.len()) =~= j);
    assert(find::occurs_at(e, j, a.len() as int));
}

/// What is recorded of a run's protection: the override is applied exactly if it was asked for
/// outside automated builds, the list is enforced exactly if it is not, and secrets are always
/// masked.
pub proof fn law_protection_is_recorded(
    noninteractive: bool,
    override_on: bool,
    ci: bool,
    root: Option<Seq<char>>,
)
    ensures
        ({
            let s = security(noninteractive, override_on, ci, root);
            &&& s.requested == override_on
            &&& s.applied <==> override_on && !ci
            &&& s.enforced <==> !s.applied
            &&& s.redaction
            &&& s.ci == ci
            &&& s.noninteractive == noninteractive
            &&& s.root == root
        }),
{
}

/// The list is passed over in what is recorded exactly if it was passed over in what was
/// admitted.
pub proof fn law_admission_is_recorded(
    c: VerifyConfig,
    noninteractive: bool,
    override_on: bool,
    ci: bool,
    root: Option<Seq<char>>,
)
    requires
        admission(c, override_on, ci) is Ok,
    ensures
        admission(c, override_on, ci) == Ok::<bool, Seq<char>>(
            security(noninteractive, override_on, ci, root).applied,
        ),
{
}

} // verus!
