//! Verifier commands that may run.
use crate::failure_parser::command;
use crate::failure_parser::command::{
    classify_verifier_command, command_start_index, contains_shell_composition, env_option_arity,
    is_env_assignment, parse_command_parts, VerifierCommandKind,
};
use crate::text::chars;
use crate::text::chars::{concat2, own, same, to_lowercase_ascii};
use crate::text::find;
use crate::text::find::{contains, contains_char, starts_with, starts_with_char, trim};
use crate::text::split;
use crate::text::split::{join, split_once};
use vstd::prelude::*;

verus! {

broadcast use chars::lemma_texts_push, chars::lemma_texts_empty;

/// A verifier command taken apart.
#[derive(Debug, Clone, PartialEq, Eq)]
pub struct VerifierInvocation {
    pub command_kind: VerifierCommandKind,
    /// Whether the command runs without the surrounding environment.
    pub env_clear: bool,
    pub env_remove: Vec<String>,
    pub env_set: Vec<(String, String)>,
    pub program: String,
    pub args: Vec<String>,
}

/// What a [`VerifierInvocation`] stands for.
#[verifier::ext_equal]
pub struct InvocationView {
    pub kind: VerifierCommandKind,
    pub env: EnvChange,
    pub program: Seq<char>,
    pub args: Seq<Seq<char>>,
}

/// What a command changes in its environment.
#[verifier::ext_equal]
pub struct EnvChange {
    pub clear: bool,
    pub remove: Seq<Seq<char>>,
    pub set: Seq<(Seq<char>, Seq<char>)>,
}

/// What a list of pairs stands for.
pub open spec fn pairs(v: Seq<(String, String)>) -> Seq<(Seq<char>, Seq<char>)> {
    Seq::new(v.len(), |i: int| (v[i].0@, v[i].1@))
}

impl View for VerifierInvocation {
    type V = InvocationView;

    open spec fn view(&self) -> InvocationView {
        InvocationView {
            kind: self.command_kind,
            env: EnvChange {
                clear: self.env_clear,
                remove: chars::texts(self.env_remove@),
                set: pairs(self.env_set@),
            },
            program: self.program@,
            args: chars::texts(self.args@),
        }
    }
}

/// The change that nothing makes.
pub open spec fn no_change() -> EnvChange {
    EnvChange { clear: false, remove: Seq::empty(), set: Seq::empty() }
}

/// The change with one more assignment.
pub open spec fn assigning(e: EnvChange, word: Seq<char>) -> EnvChange {
    EnvChange { set: e.set.push(split::cut_at(word, '=')->Some_0), ..e }
}

/// The change with one more variable removed.
pub open spec fn removing(e: EnvChange, name: Seq<char>) -> EnvChange {
    EnvChange { remove: e.remove.push(name), ..e }
}

/// A change and the position that follows the words that make it.
pub type Scanned = (EnvChange, int);

/// The assignments from position `i` on.
pub open spec fn assignments(parts: Seq<Seq<char>>, i: int, e: EnvChange) -> Scanned
    decreases parts.len() - i,
{
    if 0 <= i < parts.len() && command::assigns_env(parts[i]) {
        assignments(parts, i + 1, assigning(e, parts[i]))
    } else {
        (e, i)
    }
}

/// The options and assignments of an `env` wrapper from position `i` on, or why they cannot
/// be taken.
pub open spec fn wrapper(parts: Seq<Seq<char>>, i: int, e: EnvChange) -> Result<Scanned, Seq<char>>
    decreases parts.len() - i,
{
    if i < 0 || i >= parts.len() {
        Ok((e, i))
    } else {
        let part = parts[i];
        if part == "--"@ {
            Ok((e, i + 1))
        } else if part == "-i"@ {
            wrapper(parts, i + 1, EnvChange { clear: true, ..e })
        } else if command::assigns_env(part) {
            wrapper(parts, i + 1, assigning(e, part))
        } else {
            match command::env_arity(part) {
                Some(takes_value) => if find::has_prefix(part, "--unset="@) {
                    wrapper(parts, i + 1, removing(e, split::cut_at(part, '=')->Some_0.1))
                } else if takes_value && !part.contains('=') {
                    if i + 1 >= parts.len() {
                        Err("env wrapper option requires a value: "@ + part)
                    } else if part == "-u"@ || part == "--unset"@ {
                        wrapper(parts, i + 2, removing(e, parts[i + 1]))
                    } else {
                        wrapper(parts, i + 2, e)
                    }
                } else {
                    wrapper(parts, i + 1, e)
                },
                None => if find::begins(part, '-') {
                    Err("unsupported env wrapper option: "@ + part)
                } else {
                    Ok((e, i))
                },
            }
        }
    }
}

/// All environment changes of a command.
pub open spec fn env_changes(parts: Seq<Seq<char>>) -> Result<Scanned, Seq<char>> {
    let head = assignments(parts, 0, no_change());
    if head.1 < parts.len() && parts[head.1] == "env"@ {
        match wrapper(parts, head.1 + 1, head.0) {
            Ok(w) => Ok(assignments(parts, w.1, w.0)),
            Err(e) => Err(e),
        }
    } else {
        Ok(assignments(parts, head.1, head.0))
    }
}

/// Why a command is not allowed.
pub open spec fn not_allowed(parts: Seq<Seq<char>>) -> Seq<char> {
    "command not allowlisted: "@ + split::joined(parts, " "@)
}

/// A verifier command taken apart, or why it may not run.
pub open spec fn invocation(parts: Seq<Seq<char>>) -> Result<InvocationView, Seq<char>> {
    let kind = command::verifier_kind(parts);
    let at = command::program_index(parts);
    if parts.len() == 0 {
        Err("command is empty"@)
    } else if kind == VerifierCommandKind::Unknown {
        Err(not_allowed(parts))
    } else {
        match env_changes(parts) {
            Err(e) => Err(e),
            Ok(env) => if at < env.1 || at >= parts.len() {
                Err(not_allowed(parts))
            } else {
                Ok(
                    InvocationView {
                        kind,
                        env: env.0,
                        program: parts[at],
                        args: parts.subrange(at + 1, parts.len() as int),
                    },
                )
            },
        }
    }
}

/// What a result with an invocation stands for.
pub open spec fn invocation_view(r: Result<VerifierInvocation, String>) -> Result<
    InvocationView,
    Seq<char>,
> {
    match r {
        Ok(i) => Ok(i@),
        Err(e) => Err(e@),
    }
}

/// The changes gathered so far.
struct Gathered {
    clear: bool,
    remove: Vec<String>,
    set: Vec<(String, String)>,
}

impl View for Gathered {
    type V = EnvChange;

    closed spec fn view(&self) -> EnvChange {
        EnvChange {
            clear: self.clear,
            remove: chars::texts(self.remove@),
            set: pairs(self.set@),
        }
    }
}

fn push_assignment(g: &mut Gathered, part: &str)
    requires
        command::assigns_env(part@),
    ensures
        final(g)@ == assigning(old(g)@, part@),
{
    match split_once(part, '=') {
        Some(p) => {
            let ghost before = g.set@;
            let ghost q = (p.0@, p.1@);
            g.set.push(p);
            proof {
                assert(pairs(g.set@) =~= pairs(before).push(q));
            }
        },
        None => {},
    }
}

fn take_assignments(parts: &[String], from: usize, g: &mut Gathered) -> (r: usize)
    requires
        from <= parts@.len(),
    ensures
        (final(g)@, r as int) == assignments(chars::texts(parts@), from as int, old(g)@),
        from <= r <= parts@.len(),
{
    let ghost all = chars::texts(parts@);
    let ghost start = g@;
    let mut i: usize = from;
    while i < parts.len() && is_env_assignment(parts[i].as_str())
        invariant
            all == chars::texts(parts@),
            from <= i <= parts@.len(),
            assignments(all, i as int, g@) == assignments(all, from as int, start),
        decreases parts@.len() - i,
    {
        proof {
            assert(all[i as int] == parts@[i as int]@);
        }
        push_assignment(g, parts[i].as_str());
        i = i + 1;
    }
    proof {
        if i < parts@.len() {
            assert(all[i as int] == parts@[i as int]@);
        }
    }
    i
}

proof fn lemma_unset_has_value(part: Seq<char>)
    requires
        find::has_prefix(part, "--unset="@),
    ensures
        split::cut_at(part, '=') is Some,
{
    reveal_strlit("--unset=");
    find::lemma_index_from(part, '=', 0);
    assert(part[7] == "--unset="@[7]);
}

fn take_wrapper(parts: &[String], from: usize, g: &mut Gathered) -> (r: Result<usize, String>)
    requires
        from <= parts@.len(),
    ensures
        match r {
            Ok(i) => i <= parts@.len() && wrapper(chars::texts(parts@), from as int, old(g)@) == Ok::<
                Scanned,
                Seq<char>,
            >((final(g)@, i as int)),
            Err(e) => wrapper(chars::texts(parts@), from as int, old(g)@) == Err::<
                Scanned,
                Seq<char>,
            >(e@),
        },
{
    let ghost all = chars::texts(parts@);
    let ghost start = g@;
    let n: usize = parts.len();
    let mut i: usize = from;
    while i < n
        invariant
            all == chars::texts(parts@),
            start == old(g)@,
            n == parts@.len(),
            i <= n,
            wrapper(all, i as int, g@) == wrapper(all, from as int, start),
        decreases n - i,
    {
        let part = parts[i].as_str();
        proof {
            assert(all[i as int] == part@);
        }
        if same(part, "--") {
            return Ok(i + 1);
        }
        if same(part, "-i") {
            g.clear = true;
            i = i + 1;
            continue ;
        }
        if is_env_assignment(part) {
            push_assignment(g, part);
            i = i + 1;
            continue ;
        }
        match env_option_arity(part) {
            Some(takes_value) => {
                if starts_with(part, "--unset=") {
                    proof {
                        lemma_unset_has_value(part@);
                    }
                    match split_once(part, '=') {
                        Some(p) => {
                            g.remove.push(p.1);
                        },
                        None => {},
                    }
                    i = i + 1;
                } else if takes_value && !contains_char(part, '=') {
                    if i + 1 >= n {
                        return Err(concat2("env wrapper option requires a value: ", part));
                    }
                    proof {
                        assert(all[i + 1] == parts@[i + 1]@);
                    }
                    if same(part, "-u") || same(part, "--unset") {
                        g.remove.push(own(parts[i + 1].as_str()));
                    }
                    i = i + 2;
                } else {
                    i = i + 1;
                }
            },
            None => {
                if starts_with_char(part, '-') {
                    return Err(concat2("unsupported env wrapper option: ", part));
                }
                return Ok(i);
            },
        }
    }
    Ok(i)
}

fn refuse(parts: &[String]) -> (r: String)
    ensures
        r@ == not_allowed(chars::texts(parts@)),
{
    concat2("command not allowlisted: ", join(parts, " ").as_str())
}

fn copy_from(parts: &[String], from: usize) -> (r: Vec<String>)
    requires
        from <= parts@.len(),
    ensures
        chars::texts(r@) == chars::texts(parts@).subrange(from as int, parts@.len() as int),
{
    let mut out: Vec<String> = Vec::new();
    let mut i: usize = from;
    while i < parts.len()
        invariant
            from <= i <= parts@.len(),
            out@.len() == i - from,
            forall|j: int| 0 <= j < i - from ==> (#[trigger] out@[j])@ == parts@[from + j]@,
        decreases parts@.len() - i,
    {
        out.push(own(parts[i].as_str()));
        i = i + 1;
    }
    proof {
        assert(chars::texts(out@) =~= chars::texts(parts@).subrange(
            from as int,
            parts@.len() as int,
        ));
    }
    out
}

/// Takes a verifier command apart, or says why it may not run.
pub fn parse_allowlisted_verifier_invocation(parts: &[String]) -> (r: Result<
    VerifierInvocation,
    String,
>)
    ensures
        invocation_view(r) == invocation(chars::texts(parts@)),
{
    let ghost all = chars::texts(parts@);
    proof {
        assert(all.len() == parts@.len());
    }
    if parts.len() == 0 {
        return Err(own("command is empty"));
    }
    let command_kind = classify_verifier_command(parts);
    if command_kind == VerifierCommandKind::Unknown {
        return Err(refuse(parts));
    }
    let mut g = Gathered { clear: false, remove: Vec::new(), set: Vec::new() };
    proof {
        assert(g@ =~= no_change());
    }
    let mut i = take_assignments(parts, 0, &mut g);
    proof {
        if i < parts@.len() {
            assert(all[i as int] == parts@[i as int]@);
        }
    }
    if i < parts.len() && same(parts[i].as_str(), "env") {
        match take_wrapper(parts, i + 1, &mut g) {
            Ok(k) => {
                i = k;
            },
            Err(e) => {
                return Err(e);
            },
        }
    }
    i = take_assignments(parts, i, &mut g);
    let at = command_start_index(parts);
    if at < i || at >= parts.len() {
        return Err(refuse(parts));
    }
    proof {
        assert(all[at as int] == parts@[at as int]@);
    }
    Ok(
        VerifierInvocation {
            command_kind,
            env_clear: g.clear,
            env_remove: g.remove,
            env_set: g.set,
            program: own(parts[at].as_str()),
            args: copy_from(parts, at + 1),
        },
    )
}

/// The words of a command that may run, or why it may not.
pub open spec fn allowed_words(line: Seq<char>) -> Result<Seq<Seq<char>>, Seq<char>> {
    let s = find::trimmed(line);
    if s.len() == 0 {
        Err("command is empty"@)
    } else if command::composes(s) {
        Err("shell composition is not allowed: "@ + s)
    } else if command::command_words(s).len() == 0 {
        Err("command is empty"@)
    } else if command::verifier_kind(command::command_words(s)) == VerifierCommandKind::Unknown {
        Err("command not allowlisted: "@ + s)
    } else {
        Ok(command::command_words(s))
    }
}

/// What a result with words stands for.
pub open spec fn words_view(r: Result<Vec<String>, String>) -> Result<Seq<Seq<char>>, Seq<char>> {
    match r {
        Ok(v) => Ok(chars::texts(v@)),
        Err(e) => Err(e@),
    }
}

/// Splits a command that may run into words, or says why it may not.
pub fn parse_allowlisted_verifier_parts(command_line: &str) -> (r: Result<Vec<String>, String>)
    ensures
        words_view(r) == allowed_words(command_line@),
{
    let trimmed = trim(command_line);
    if trimmed.as_str().is_empty() {
        return Err(own("command is empty"));
    }
    if contains_shell_composition(trimmed.as_str()) {
        return Err(concat2("shell composition is not allowed: ", trimmed.as_str()));
    }
    let parts = parse_command_parts(trimmed.as_str());
    proof {
        assert(chars::texts(parts@).len() == parts@.len());
    }
    if parts.len() == 0 {
        return Err(own("command is empty"));
    }
    if classify_verifier_command(parts.as_slice()) == VerifierCommandKind::Unknown {
        return Err(concat2("command not allowlisted: ", trimmed.as_str()));
    }
    Ok(parts)
}

/// Whether a command may run.
pub fn verifier_command_allowlisted(command_line: &str) -> (r: bool)
    ensures
        r == (allowed_words(command_line@) is Ok),
{
    match parse_allowlisted_verifier_parts(command_line) {
        Ok(_) => true,
        Err(_) => false,
    }
}

/// Whether the value of a flag variable switches the flag on.
pub open spec fn flag_on(value: Option<Seq<char>>) -> bool {
    match value {
        Some(v) => {
            let s = chars::lowercase(find::trimmed(v));
            s == "1"@ || s == "true"@ || s == "yes"@ || s == "on"@
        },
        None => false,
    }
}

/// Whether the value of a flag variable switches the flag on.
pub fn env_flag_enabled(value: &Option<String>) -> (r: bool)
    ensures
        r == flag_on(chars::opt_text(*value)),
{
    match value {
        Some(v) => {
            let t = trim(v.as_str());
            let s = to_lowercase_ascii(t.as_str());
            same(s.as_str(), "1") || same(s.as_str(), "true") || same(s.as_str(), "yes") || same(
                s.as_str(),
                "on",
            )
        },
        None => false,
    }
}

/// How verifier commands are run.
#[derive(Debug, Clone, Copy, PartialEq, Eq, Structural)]
pub struct VerifierRuntimeMode {
    pub ci: bool,
    pub noninteractive: bool,
}

/// How verifier commands are run, by the values of the variables `CI`, `GITHUB_ACTIONS` and
/// `MERCURY_NONINTERACTIVE`.
pub fn verifier_runtime_mode(
    ci: &Option<String>,
    github_actions: &Option<String>,
    noninteractive: &Option<String>,
) -> (r: VerifierRuntimeMode)
    ensures
        r.ci == (flag_on(chars::opt_text(*ci)) || flag_on(chars::opt_text(*github_actions))),
        r.noninteractive == (r.ci || flag_on(chars::opt_text(*noninteractive))),
{
    let in_ci = env_flag_enabled(ci) || env_flag_enabled(github_actions);
    VerifierRuntimeMode { ci: in_ci, noninteractive: in_ci || env_flag_enabled(noninteractive) }
}

/// The variables that are set for a mode.
pub open spec fn mode_variables(mode: VerifierRuntimeMode) -> Seq<(Seq<char>, Seq<char>)> {
    let ci = if mode.ci {
        seq![("CI"@, "1"@)]
    } else {
        Seq::empty()
    };
    let quiet = if mode.noninteractive {
        seq![
            ("MERCURY_NONINTERACTIVE"@, "1"@),
            ("NO_COLOR"@, "1"@),
            ("CLICOLOR"@, "0"@),
            ("CLICOLOR_FORCE"@, "0"@),
            ("FORCE_COLOR"@, "0"@),
            ("CARGO_TERM_COLOR"@, "never"@),
            ("GIT_TERMINAL_PROMPT"@, "0"@),
            ("TERM"@, "dumb"@),
        ]
    } else {
        Seq::empty()
    };
    ci + quiet
}

/// Whether a command sets or removes a variable itself.
pub open spec fn touches(e: EnvChange, key: Seq<char>) -> bool {
    ||| exists|i: int| 0 <= i < e.set.len() && (#[trigger] e.set[i]).0 == key
    ||| exists|i: int| 0 <= i < e.remove.len() && #[trigger] e.remove[i] == key
}

/// Those of the variables that the command neither sets nor removes itself.
pub open spec fn untouched(vars: Seq<(Seq<char>, Seq<char>)>, e: EnvChange) -> Seq<
    (Seq<char>, Seq<char>),
>
    decreases vars.len(),
{
    if vars.len() == 0 {
        Seq::empty()
    } else {
        let front = untouched(vars.drop_last(), e);
        if touches(e, vars.last().0) {
            front
        } else {
            front.push(vars.last())
        }
    }
}

fn variables_of(mode: VerifierRuntimeMode) -> (r: Vec<(&'static str, &'static str)>)
    ensures
        r@.len() == mode_variables(mode).len(),
        forall|i: int|
            0 <= i < r@.len() ==> (#[trigger] r@[i]).0@ == mode_variables(mode)[i].0 && r@[i].1@
                == mode_variables(mode)[i].1,
{
    let mut out: Vec<(&'static str, &'static str)> = Vec::new();
    if mode.ci {
        out.push(("CI", "1"));
    }
    if mode.noninteractive {
        out.push(("MERCURY_NONINTERACTIVE", "1"));
        out.push(("NO_COLOR", "1"));
        out.push(("CLICOLOR", "0"));
        out.push(("CLICOLOR_FORCE", "0"));
        out.push(("FORCE_COLOR", "0"));
        out.push(("CARGO_TERM_COLOR", "never"));
        out.push(("GIT_TERMINAL_PROMPT", "0"));
        out.push(("TERM", "dumb"));
    }
    out
}

fn is_touched(i: &VerifierInvocation, key: &str) -> (r: bool)
    ensures
        r == touches(i@.env, key@),
{
    let mut k: usize = 0;
    while k < i.env_set.len()
        invariant
            k <= i.env_set@.len(),
            forall|j: int| 0 <= j < k ==> (#[trigger] pairs(i.env_set@)[j]).0 != key@,
        decreases i.env_set@.len() - k,
    {
        proof {
            assert(pairs(i.env_set@)[k as int].0 == i.env_set@[k as int].0@);
        }
        if same(i.env_set[k].0.as_str(), key) {
            proof {
                assert(i@.env.set[k as int].0 == key@);
            }
            return true;
        }
        k = k + 1;
    }
    let mut m: usize = 0;
    while m < i.env_remove.len()
        invariant
            m <= i.env_remove@.len(),
            forall|j: int| 0 <= j < m ==> #[trigger] chars::texts(i.env_remove@)[j] != key@,
        decreases i.env_remove@.len() - m,
    {
        proof {
            assert(chars::texts(i.env_remove@)[m as int] == i.env_remove@[m as int]@);
        }
        if same(i.env_remove[m].as_str(), key) {
            proof {
                assert(i@.env.remove[m as int] == key@);
            }
            return true;
        }
        m = m + 1;
    }
    false
}

/// The variables that are set for a command in the given mode: those of the mode that the
/// command neither sets nor removes itself.
pub fn injected_verifier_env(inv: &VerifierInvocation, mode: VerifierRuntimeMode) -> (r: Vec<
    (String, String),
>)
    ensures
        pairs(r@) == untouched(mode_variables(mode), inv@.env),
{
    let vars = variables_of(mode);
    let ghost all = mode_variables(mode);
    let mut out: Vec<(String, String)> = Vec::new();
    let mut i: usize = 0;
    proof {
        assert(pairs(out@) =~= Seq::<(Seq<char>, Seq<char>)>::empty());
        assert(all.take(0) =~= Seq::<(Seq<char>, Seq<char>)>::empty());
    }
    while i < vars.len()
        invariant
            all.len() == vars@.len(),
            forall|i: int|
                0 <= i < vars@.len() ==> (#[trigger] vars@[i]).0@ == all[i].0 && vars@[i].1@
                    == all[i].1,
            i <= vars@.len(),
            pairs(out@) == untouched(all.take(i as int), inv@.env),
        decreases vars@.len() - i,
    {
        proof {
            assert(all.take(i + 1).drop_last() =~= all.take(i as int));
            assert(vars@[i as int].0@ == all[i as int].0);
        }
        if !is_touched(inv, vars[i].0) {
            let ghost before = out@;
            out.push((own(vars[i].0), own(vars[i].1)));
            proof {
                assert(pairs(out@) =~= pairs(before).push(all[i as int]));
            }
        }
        i = i + 1;
    }
    proof {
        assert(all.take(all.len() as int) =~= all);
    }
    out
}

/// The reason under which a refusal is recorded.
pub open spec fn rejection_reason(error: Seq<char>) -> Seq<char> {
    if find::has_text(error, "shell composition is not allowed"@) {
        "shell_composition"@
    } else if find::has_text(error, "command not allowlisted"@) {
        "command_not_allowlisted"@
    } else if find::has_text(error, "unsupported env wrapper option"@) {
        "unsupported_env_option"@
    } else if find::has_text(error, "env wrapper option requires a value"@) {
        "env_option_missing_value"@
    } else if find::has_text(error, "missing command"@) || find::has_text(
        error,
        "command is empty"@,
    ) {
        "missing_command"@
    } else {
        "execution_error"@
    }
}

/// The reason under which a refusal is recorded.
pub fn verifier_rejection_reason(error: &str) -> (r: &'static str)
    ensures
        r@ == rejection_reason(error@),
{
    if contains(error, "shell composition is not allowed") {
        "shell_composition"
    } else if contains(error, "command not allowlisted") {
        "command_not_allowlisted"
    } else if contains(error, "unsupported env wrapper option") {
        "unsupported_env_option"
    } else if contains(error, "env wrapper option requires a value") {
        "env_option_missing_value"
    } else if contains(error, "missing command") || contains(error, "command is empty") {
        "missing_command"
    } else {
        "execution_error"
    }
}

/// The name of a kind of verifier.
pub open spec fn kind_name(k: VerifierCommandKind) -> Seq<char> {
    match k {
        VerifierCommandKind::CargoTest => "CargoTest"@,
        VerifierCommandKind::CargoClippy => "CargoClippy"@,
        VerifierCommandKind::CargoCheck => "CargoCheck"@,
        VerifierCommandKind::TypeScriptCheck => "TypeScriptCheck"@,
        VerifierCommandKind::TypeScriptTest => "TypeScriptTest"@,
        VerifierCommandKind::TypeScriptLint => "TypeScriptLint"@,
        VerifierCommandKind::Unknown => "Unknown"@,
    }
}

/// The name of a kind of verifier.
pub fn name_of_kind(k: VerifierCommandKind) -> (r: &'static str)
    ensures
        r@ == kind_name(k),
{
    match k {
        VerifierCommandKind::CargoTest => "CargoTest",
        VerifierCommandKind::CargoClippy => "CargoClippy",
        VerifierCommandKind::CargoCheck => "CargoCheck",
        VerifierCommandKind::TypeScriptCheck => "TypeScriptCheck",
        VerifierCommandKind::TypeScriptTest => "TypeScriptTest",
        VerifierCommandKind::TypeScriptLint => "TypeScriptLint",
        VerifierCommandKind::Unknown => "Unknown",
    }
}

/// A command that may run holds no shell composition and runs a known verifier.
pub proof fn law_allowed_commands_are_plain(line: Seq<char>)
    requires
        allowed_words(line) is Ok,
    ensures
        !command::composes(find::trimmed(line)),
        command::verifier_kind(allowed_words(line)->Ok_0) != VerifierCommandKind::Unknown,
        allowed_words(line)->Ok_0.len() > 0,
{
}

proof fn lemma_after_assignments(parts: Seq<Seq<char>>, i: int)
    requires
        0 <= i,
    ensures
        command::after_assignments(parts, i) >= i,
    decreases parts.len() - i,
{
    if i < parts.len() && command::assigns_env(parts[i]) {
        lemma_after_assignments(parts, i + 1);
    }
}

proof fn lemma_after_env_options(parts: Seq<Seq<char>>, i: int)
    requires
        0 <= i,
    ensures
        command::after_env_options(parts, i) >= 0,
    decreases parts.len() - i,
{
    if i < parts.len() {
        lemma_after_env_options(parts, i + 1);
        if i + 1 < parts.len() {
            lemma_after_env_options(parts, i + 2);
        }
    }
}

/// A command that is taken apart runs a known verifier, and its program and arguments are
/// the last words of the command.
pub proof fn law_invocations_run_known_verifiers(parts: Seq<Seq<char>>)
    requires
        invocation(parts) is Ok,
    ensures
        invocation(parts)->Ok_0.kind == command::verifier_kind(parts),
        invocation(parts)->Ok_0.kind != VerifierCommandKind::Unknown,
        seq![invocation(parts)->Ok_0.program]
            + invocation(parts)->Ok_0.args == parts.subrange(
            command::program_index(parts),
            parts.len() as int,
        ),
{
    let at = command::program_index(parts);
    lemma_after_assignments(parts, 0);
    lemma_after_env_options(parts, command::after_assignments(parts, 0) + 1);
    assert(seq![parts[at]] + parts.subrange(at + 1, parts.len() as int) =~= parts.subrange(
        at,
        parts.len() as int,
    ));
}

/// What is set for a command never overrides what the command sets or removes itself.
pub proof fn law_commands_keep_their_environment(
    vars: Seq<(Seq<char>, Seq<char>)>,
    e: EnvChange,
    k: int,
)
    requires
        0 <= k < untouched(vars, e).len(),
    ensures
        !touches(e, untouched(vars, e)[k].0),
    decreases vars.len(),
{
    let front = untouched(vars.drop_last(), e);
    if k < front.len() {
        law_commands_keep_their_environment(vars.drop_last(), e, k);
    }
}

} // verus!
