//! Splitting command lines into words and classifying verifier commands.
use crate::text::chars;
use crate::text::chars::{is_ascii_alnum_char, is_ascii_letter_char, is_space_char, same, to_chars};
use crate::text::find;
use crate::text::find::{contains_char, starts_with};
use crate::text::split;
use crate::text::split::split_once;
use vstd::prelude::*;

verus! {

broadcast use chars::lemma_texts_push, chars::lemma_texts_empty;

/// Which cargo verifier a command runs.
#[derive(Debug, Clone, Copy, PartialEq, Eq, Structural)]
pub enum CargoCommandKind {
    Test,
    Clippy,
    Check,
    Unknown,
}

/// Which verifier a command runs.
#[derive(Debug, Clone, Copy, PartialEq, Eq, Structural)]
pub enum VerifierCommandKind {
    CargoTest,
    CargoClippy,
    CargoCheck,
    TypeScriptCheck,
    TypeScriptTest,
    TypeScriptLint,
    Unknown,
}

/// The quoting in force at a position of a command line.
#[derive(Clone, Copy, PartialEq, Eq, Structural)]
pub struct Quoting {
    pub single: bool,
    pub double: bool,
    pub escaped: bool,
}

/// What a character of a command line does under the quoting in force.
#[derive(Clone, Copy, PartialEq, Eq, Structural)]
pub enum Role {
    /// Stands for itself.
    Literal,
    /// Makes the next character stand for itself.
    Escape,
    /// Opens or closes single quotes.
    SingleQuote,
    /// Opens or closes double quotes.
    DoubleQuote,
    /// Ends a word.
    Gap,
    /// Joins this command to another one or redirects it.
    Composition,
}

/// The quoting at the start of a command line.
pub open spec fn unquoted() -> Quoting {
    Quoting { single: false, double: false, escaped: false }
}

/// What `c` does under quoting `q`; `doubled` says that the next character is `c` again.
pub open spec fn role(q: Quoting, c: char, doubled: bool) -> Role {
    let open = !q.single && !q.double;
    if q.escaped {
        Role::Literal
    } else if c == '\\' && !q.single {
        Role::Escape
    } else if c == '\'' && !q.double {
        Role::SingleQuote
    } else if c == '"' && !q.single {
        Role::DoubleQuote
    } else if open && (c == '|' || c == ';' || c == '<' || c == '>' || (c == '&' && doubled)) {
        Role::Composition
    } else if open && chars::is_space(c) {
        Role::Gap
    } else {
        Role::Literal
    }
}

/// The quoting after a character with the given role.
pub open spec fn quoting_after(q: Quoting, r: Role) -> Quoting {
    match r {
        Role::Escape => Quoting { single: q.single, double: q.double, escaped: true },
        Role::SingleQuote => Quoting { single: !q.single, double: q.double, escaped: false },
        Role::DoubleQuote => Quoting { single: q.single, double: !q.double, escaped: false },
        _ => Quoting { single: q.single, double: q.double, escaped: false },
    }
}

/// Whether the character at `i` is followed by the same character.
pub open spec fn doubled_at(s: Seq<char>, i: int) -> bool {
    0 <= i && i + 1 < s.len() && s[i + 1] == s[i]
}

/// The quoting in force at position `i` of `s`.
pub open spec fn quoting_at(s: Seq<char>, i: int) -> Quoting
    decreases i, 0nat,
{
    if i <= 0 {
        unquoted()
    } else {
        quoting_after(quoting_at(s, i - 1), role_at(s, i - 1))
    }
}

/// The role of the character at position `i` of `s`.
pub open spec fn role_at(s: Seq<char>, i: int) -> Role
    decreases i, 1nat,
{
    role(quoting_at(s, i), s[i], doubled_at(s, i))
}

/// Whether a command line composes commands or redirects one: somewhere outside quotes, and
/// not escaped, it holds `&&`, `|`, `;`, `<` or `>`.
pub open spec fn composes(s: Seq<char>) -> bool {
    exists|i: int| 0 <= i < s.len() && #[trigger] role_at(s, i) == Role::Composition
}

fn role_of(q: Quoting, c: char, doubled: bool) -> (r: Role)
    ensures
        r == role(q, c, doubled),
{
    let open = !q.single && !q.double;
    if q.escaped {
        Role::Literal
    } else if c == '\\' && !q.single {
        Role::Escape
    } else if c == '\'' && !q.double {
        Role::SingleQuote
    } else if c == '"' && !q.single {
        Role::DoubleQuote
    } else if open && (c == '|' || c == ';' || c == '<' || c == '>' || (c == '&' && doubled)) {
        Role::Composition
    } else if open && is_space_char(c) {
        Role::Gap
    } else {
        Role::Literal
    }
}

fn next_quoting(q: Quoting, r: Role) -> (n: Quoting)
    ensures
        n == quoting_after(q, r),
{
    match r {
        Role::Escape => Quoting { single: q.single, double: q.double, escaped: true },
        Role::SingleQuote => Quoting { single: !q.single, double: q.double, escaped: false },
        Role::DoubleQuote => Quoting { single: q.single, double: !q.double, escaped: false },
        _ => Quoting { single: q.single, double: q.double, escaped: false },
    }
}

/// Whether a command line composes commands or redirects one outside quotes.
pub fn contains_shell_composition(command: &str) -> (r: bool)
    ensures
        r == composes(command@),
{
    let x = to_chars(command);
    let n: usize = x.len();
    let mut q = Quoting { single: false, double: false, escaped: false };
    let mut i: usize = 0;
    while i < n
        invariant
            x@ == command@,
            n == x@.len(),
            i <= n,
            q == quoting_at(command@, i as int),
            forall|j: int| 0 <= j < i ==> #[trigger] role_at(command@, j) != Role::Composition,
        decreases n - i,
    {
        let doubled = i + 1 < n && x[i + 1] == x[i];
        let what = role_of(q, x[i], doubled);
        proof {
            assert(what == role_at(command@, i as int));
        }
        if what == Role::Composition {
            return true;
        }
        q = next_quoting(q, what);
        i = i + 1;
    }
    false
}

/// A finished word, if it holds any character.
pub open spec fn finished(word: Seq<char>) -> Seq<Seq<char>> {
    if word.len() > 0 {
        seq![word]
    } else {
        Seq::<Seq<char>>::empty()
    }
}

/// The words of a command line from position `i` on, with `word` begun before it. Quotes and
/// escapes are removed, white space outside quotes ends a word, and the words end where the
/// command line first composes commands.
pub open spec fn command_words_from(s: Seq<char>, i: int, word: Seq<char>) -> Seq<Seq<char>>
    decreases s.len() - i,
{
    if i < 0 || i >= s.len() {
        finished(word)
    } else {
        match role_at(s, i) {
            Role::Composition => finished(word),
            Role::Gap => finished(word) + command_words_from(s, i + 1, Seq::<char>::empty()),
            Role::Literal => command_words_from(s, i + 1, word.push(s[i])),
            _ => command_words_from(s, i + 1, word),
        }
    }
}

/// The words of a command line.
pub open spec fn command_words(s: Seq<char>) -> Seq<Seq<char>> {
    command_words_from(s, 0, Seq::<char>::empty())
}

fn finish_word(parts: &mut Vec<String>, word: String)
    ensures
        chars::texts(final(parts)@) == chars::texts(old(parts)@) + finished(word@),
{
    let ghost before = parts@;
    if word.as_str().is_empty() {
        proof {
            assert(chars::texts(before) + finished(word@) =~= chars::texts(before));
        }
    } else {
        parts.push(word);
        proof {
            assert(chars::texts(before) + finished(word@) =~= chars::texts(before).push(word@));
        }
    }
}

/// Splits a command line into words.
pub fn parse_command_parts(command: &str) -> (r: Vec<String>)
    ensures
        chars::texts(r@) == command_words(command@),
{
    let x = to_chars(command);
    let n: usize = x.len();
    let mut parts: Vec<String> = Vec::new();
    let mut word: String = String::new();
    let mut q = Quoting { single: false, double: false, escaped: false };
    let mut i: usize = 0;
    proof {
        assert(chars::texts(parts@) + command_words(command@) =~= command_words(command@));
        assert(word@ =~= Seq::<char>::empty());
    }
    while i < n
        invariant
            x@ == command@,
            n == x@.len(),
            i <= n,
            q == quoting_at(command@, i as int),
            chars::texts(parts@) + command_words_from(command@, i as int, word@) == command_words(
                command@,
            ),
        decreases n - i,
    {
        let doubled = i + 1 < n && x[i + 1] == x[i];
        let what = role_of(q, x[i], doubled);
        proof {
            assert(what == role_at(command@, i as int));
        }
        if what == Role::Composition {
            finish_word(&mut parts, word);
            return parts;
        }
        if what == Role::Gap {
            let ghost head = chars::texts(parts@);
            let ghost tail = command_words_from(command@, i + 1, Seq::<char>::empty());
            let ghost done = finished(word@);
            finish_word(&mut parts, word);
            word = String::new();
            proof {
                assert(head + (done + tail) =~= (head + done) + tail);
            }
        } else if what == Role::Literal {
            word.push(x[i]);
        }
        q = next_quoting(q, what);
        i = i + 1;
    }
    finish_word(&mut parts, word);
    parts
}

/// Whether a word assigns an environment variable: a name of letters, digits and
/// underscores that does not begin with a digit, followed by `=`.
pub open spec fn assigns_env(part: Seq<char>) -> bool {
    match split::cut_at(part, '=') {
        Some(p) => {
            &&& p.0.len() > 0
            &&& p.0[0] == '_' || chars::is_ascii_letter(p.0[0])
            &&& forall|i: int|
                0 <= i < p.0.len() ==> #[trigger] p.0[i] == '_' || chars::is_ascii_alnum(p.0[i])
        },
        None => false,
    }
}

/// Whether an option of `env` takes the next word as its value; `None` for any other word.
pub open spec fn env_arity(p: Seq<char>) -> Option<bool> {
    if p == "-i"@ || p == "--ignore-environment"@ {
        Some(false)
    } else if p == "-u"@ || p == "--unset"@ || p == "-C"@ || p == "--chdir"@ || p == "-S"@ || p == "--split-string"@ {
        Some(true)
    } else if find::has_prefix(p, "--unset="@) || find::has_prefix(p, "--chdir="@) || find::has_prefix(p, "--split-string="@) || find::has_prefix(p, "--default-signal="@) || find::has_prefix(p, "--ignore-signal="@) || find::has_prefix(p, "--block-signal="@) {
        Some(false)
    } else if p == "--default-signal"@ || p == "--ignore-signal"@ || p == "--block-signal"@ {
        Some(true)
    } else if p == "--list-signal-handling"@ {
        Some(false)
    } else {
        None
    }
}

/// The first position at or after `i` whose word assigns no environment variable.
pub open spec fn after_assignments(parts: Seq<Seq<char>>, i: int) -> int
    decreases parts.len() - i,
{
    if 0 <= i < parts.len() && assigns_env(parts[i]) {
        after_assignments(parts, i + 1)
    } else {
        i
    }
}

/// The position after the assignments and options of `env` that begin at `i`.
pub open spec fn after_env_options(parts: Seq<Seq<char>>, i: int) -> int
    decreases parts.len() - i,
{
    if i < 0 || i >= parts.len() {
        i
    } else if parts[i] == "--"@ {
        i + 1
    } else if assigns_env(parts[i]) {
        after_env_options(parts, i + 1)
    } else {
        match env_arity(parts[i]) {
            Some(takes_value) => if takes_value && !parts[i].contains('=') && i + 1 < parts.len() {
                after_env_options(parts, i + 2)
            } else {
                after_env_options(parts, i + 1)
            },
            None => i,
        }
    }
}

/// The position of the program in a command: after leading assignments and, where they are
/// followed by `env`, after its assignments and options.
pub open spec fn program_index(parts: Seq<Seq<char>>) -> int {
    let i = after_assignments(parts, 0);
    if 0 <= i < parts.len() && parts[i] == "env"@ {
        after_env_options(parts, i + 1)
    } else {
        i
    }
}

/// The verifier that the first word at or after `i` that is no option names.
pub open spec fn cargo_subcommand(parts: Seq<Seq<char>>, i: int) -> CargoCommandKind
    decreases parts.len() - i,
{
    if i < 0 || i >= parts.len() {
        CargoCommandKind::Unknown
    } else if parts[i] == "test"@ {
        CargoCommandKind::Test
    } else if parts[i] == "clippy"@ {
        CargoCommandKind::Clippy
    } else if parts[i] == "check"@ {
        CargoCommandKind::Check
    } else if find::begins(parts[i], '-') {
        cargo_subcommand(parts, i + 1)
    } else {
        CargoCommandKind::Unknown
    }
}

/// The verifier that the words from position `i` on run through cargo.
pub open spec fn cargo_kind_at(parts: Seq<Seq<char>>, i: int) -> CargoCommandKind {
    if 0 <= i < parts.len() && parts[i] == "cargo"@ {
        if i + 1 < parts.len() && find::begins(parts[i + 1], '+') {
            cargo_subcommand(parts, i + 2)
        } else {
            cargo_subcommand(parts, i + 1)
        }
    } else {
        CargoCommandKind::Unknown
    }
}

/// The verifier that a command runs through cargo.
pub open spec fn cargo_kind(parts: Seq<Seq<char>>) -> CargoCommandKind {
    cargo_kind_at(parts, program_index(parts))
}

/// Whether a word assigns an environment variable.
pub fn is_env_assignment(part: &str) -> (r: bool)
    ensures
        r == assigns_env(part@),
{
    let name = match split_once(part, '=') {
        Some(p) => p.0,
        None => {
            return false;
        },
    };
    let x = to_chars(name.as_str());
    if x.len() == 0 {
        return false;
    }
    let mut i: usize = 0;
    while i < x.len()
        invariant
            split::cut_at(part@, '=') is Some,
            split::cut_at(part@, '=')->Some_0.0 == x@,
            i <= x@.len(),
            forall|j: int|
                0 <= j < i ==> #[trigger] x@[j] == '_' || chars::is_ascii_alnum(x@[j]),
        decreases x@.len() - i,
    {
        if !(x[i] == '_' || is_ascii_alnum_char(x[i])) {
            proof {
                assert(!(x@[i as int] == '_' || chars::is_ascii_alnum(x@[i as int])));
            }
            return false;
        }
        i = i + 1;
    }
    x[0] == '_' || is_ascii_letter_char(x[0])
}

/// Whether an option of `env` takes the next word as its value.
pub fn env_option_arity(part: &str) -> (r: Option<bool>)
    ensures
        r == env_arity(part@),
{
    if same(part, "-i") || same(part, "--ignore-environment") {
        Some(false)
    } else if same(part, "-u") || same(part, "--unset") || same(part, "-C") || same(part, "--chdir") || same(part, "-S") || same(part, "--split-string") {
        Some(true)
    } else if starts_with(part, "--unset=") || starts_with(part, "--chdir=") || starts_with(part, "--split-string=") || starts_with(part, "--default-signal=") || starts_with(part, "--ignore-signal=") || starts_with(part, "--block-signal=") {
        Some(false)
    } else if same(part, "--default-signal") || same(part, "--ignore-signal") || same(part, "--block-signal") {
        Some(true)
    } else if same(part, "--list-signal-handling") {
        Some(false)
    } else {
        None
    }
}

/// The position of the program in a command.
pub fn command_start_index(verifier_command: &[String]) -> (r: usize)
    ensures
        r == program_index(chars::texts(verifier_command@)),
        r <= verifier_command@.len(),
{
    let ghost parts = chars::texts(verifier_command@);
    let n: usize = verifier_command.len();
    let mut idx: usize = 0;
    while idx < n && is_env_assignment(verifier_command[idx].as_str())
        invariant
            parts == chars::texts(verifier_command@),
            n == parts.len(),
            idx <= n,
            after_assignments(parts, 0) == after_assignments(parts, idx as int),
        decreases n - idx,
    {
        idx = idx + 1;
    }
    if !(idx < n && same(verifier_command[idx].as_str(), "env")) {
        return idx;
    }
    idx = idx + 1;
    let ghost from = idx as int;
    while idx < n
        invariant
            parts == chars::texts(verifier_command@),
            n == parts.len(),
            idx <= n,
            program_index(parts) == after_env_options(parts, idx as int),
        decreases n - idx,
    {
        let part = verifier_command[idx].as_str();
        proof {
            assert(parts[idx as int] == part@);
        }
        if same(part, "--") {
            return idx + 1;
        }
        if is_env_assignment(part) {
            idx = idx + 1;
        } else {
            match env_option_arity(part) {
                Some(takes_value) => {
                    if takes_value && !contains_char(part, '=') && idx + 1 < n {
                        idx = idx + 2;
                    } else {
                        idx = idx + 1;
                    }
                },
                None => {
                    return idx;
                },
            }
        }
    }
    idx
}

/// The verifier that a command runs through cargo.
pub fn classify_cargo_command(verifier_command: &[String]) -> (r: CargoCommandKind)
    ensures
        r == cargo_kind(chars::texts(verifier_command@)),
{
    let ghost parts = chars::texts(verifier_command@);
    let n: usize = verifier_command.len();
    let start = command_start_index(verifier_command);
    if !(start < n && same(verifier_command[start].as_str(), "cargo")) {
        return CargoCommandKind::Unknown;
    }
    let mut idx: usize = start + 1;
    if idx < n && find::starts_with_char(verifier_command[idx].as_str(), '+') {
        idx = idx + 1;
    }
    while idx < n
        invariant
            parts == chars::texts(verifier_command@),
            n == parts.len(),
            idx <= n,
            cargo_kind(parts) == cargo_subcommand(parts, idx as int),
        decreases n - idx,
    {
        let part = verifier_command[idx].as_str();
        proof {
            assert(parts[idx as int] == part@);
        }
        if same(part, "test") {
            return CargoCommandKind::Test;
        }
        if same(part, "clippy") {
            return CargoCommandKind::Clippy;
        }
        if same(part, "check") {
            return CargoCommandKind::Check;
        }
        if !find::starts_with_char(part, '-') {
            return CargoCommandKind::Unknown;
        }
        idx = idx + 1;
    }
    CargoCommandKind::Unknown
}

/// Whether an option of a node runner takes the next word as its value; `None` for any
/// other word.
pub open spec fn node_arity(p: Seq<char>) -> Option<bool> {
    if p == "-p"@ || p == "--package"@ || p == "-c"@ || p == "--call"@ || p == "--shell"@ {
        Some(true)
    } else if find::has_prefix(p, "--package="@) || find::has_prefix(p, "--call="@) || find::has_prefix(p, "--shell="@) {
        Some(false)
    } else {
        None
    }
}

/// The first position at or after `i` that is no option of a node runner.
pub open spec fn positional_from(parts: Seq<Seq<char>>, i: int) -> Option<int>
    decreases parts.len() - i,
{
    if i < 0 || i >= parts.len() {
        None
    } else if parts[i] == "--"@ {
        if i + 1 < parts.len() {
            Some(i + 1)
        } else {
            None
        }
    } else {
        match node_arity(parts[i]) {
            Some(takes_value) => if takes_value && !parts[i].contains('=') && i + 1 < parts.len() {
                positional_from(parts, i + 2)
            } else {
                positional_from(parts, i + 1)
            },
            None => if find::begins(parts[i], '-') {
                positional_from(parts, i + 1)
            } else {
                Some(i)
            },
        }
    }
}

/// The verifier behind a node tool's name.
pub open spec fn node_tool_kind(tool: Seq<char>) -> VerifierCommandKind {
    if tool == "tsc"@ {
        VerifierCommandKind::TypeScriptCheck
    } else if tool == "vitest"@ || tool == "jest"@ {
        VerifierCommandKind::TypeScriptTest
    } else if tool == "eslint"@ {
        VerifierCommandKind::TypeScriptLint
    } else {
        VerifierCommandKind::Unknown
    }
}

/// The verifier behind a package script's name.
pub open spec fn script_kind(script: Seq<char>) -> VerifierCommandKind {
    if script == "test"@ || script == "unit"@ || script == "integration"@ || script == "jest"@ || script == "vitest"@ {
        VerifierCommandKind::TypeScriptTest
    } else if script == "lint"@ || script == "eslint"@ {
        VerifierCommandKind::TypeScriptLint
    } else if script == "check"@ || script == "typecheck"@ || script == "tsc"@ {
        VerifierCommandKind::TypeScriptCheck
    } else {
        VerifierCommandKind::Unknown
    }
}

/// The verifier behind the first word at or after `i` that is no option.
pub open spec fn positional_tool_kind(parts: Seq<Seq<char>>, i: int) -> VerifierCommandKind {
    match positional_from(parts, i) {
        Some(k) => node_tool_kind(parts[k]),
        None => VerifierCommandKind::Unknown,
    }
}

/// The verifier that a package manager at position `i` runs.
pub open spec fn package_manager_kind(parts: Seq<Seq<char>>, i: int) -> VerifierCommandKind {
    if i + 1 >= parts.len() {
        VerifierCommandKind::Unknown
    } else {
        let sub = parts[i + 1];
        if sub == "test"@ || sub == "t"@ {
            VerifierCommandKind::TypeScriptTest
        } else if sub == "lint"@ {
            VerifierCommandKind::TypeScriptLint
        } else if sub == "tsc"@ {
            VerifierCommandKind::TypeScriptCheck
        } else if sub == "run"@ {
            if i + 2 < parts.len() {
                script_kind(parts[i + 2])
            } else {
                VerifierCommandKind::Unknown
            }
        } else if sub == "jest"@ || sub == "vitest"@ {
            VerifierCommandKind::TypeScriptTest
        } else if sub == "eslint"@ {
            VerifierCommandKind::TypeScriptLint
        } else if sub == "typecheck"@ {
            VerifierCommandKind::TypeScriptCheck
        } else if sub == "exec"@ || sub == "dlx"@ {
            positional_tool_kind(parts, i + 2)
        } else {
            VerifierCommandKind::Unknown
        }
    }
}

/// The verifier that the program at position `i` runs without cargo.
pub open spec fn node_kind_at(parts: Seq<Seq<char>>, i: int) -> VerifierCommandKind {
    if i < 0 || i >= parts.len() {
        VerifierCommandKind::Unknown
    } else if parts[i] == "tsc"@ {
        VerifierCommandKind::TypeScriptCheck
    } else if parts[i] == "npx"@ {
        positional_tool_kind(parts, i + 1)
    } else if parts[i] == "npm"@ || parts[i] == "pnpm"@ || parts[i] == "yarn"@ {
        package_manager_kind(parts, i)
    } else {
        VerifierCommandKind::Unknown
    }
}

/// The verifier that a command runs.
pub open spec fn verifier_kind(parts: Seq<Seq<char>>) -> VerifierCommandKind {
    match cargo_kind(parts) {
        CargoCommandKind::Test => VerifierCommandKind::CargoTest,
        CargoCommandKind::Clippy => VerifierCommandKind::CargoClippy,
        CargoCommandKind::Check => VerifierCommandKind::CargoCheck,
        CargoCommandKind::Unknown => node_kind_at(parts, program_index(parts)),
    }
}

fn node_option_arity(part: &str) -> (r: Option<bool>)
    ensures
        r == node_arity(part@),
{
    if same(part, "-p") || same(part, "--package") || same(part, "-c") || same(part, "--call") || same(part, "--shell") {
        Some(true)
    } else if starts_with(part, "--package=") || starts_with(part, "--call=") || starts_with(part, "--shell=") {
        Some(false)
    } else {
        None
    }
}

fn first_positional_after_options(parts: &[String], from: usize) -> (r: Option<usize>)
    ensures
        match r {
            Some(k) => k < parts@.len() && positional_from(chars::texts(parts@), from as int)
                == Some(k as int),
            None => positional_from(chars::texts(parts@), from as int) is None,
        },
{
    let ghost all = chars::texts(parts@);
    let n: usize = parts.len();
    let mut idx: usize = from;
    while idx < n
        invariant
            all == chars::texts(parts@),
            n == all.len(),
            positional_from(all, from as int) == positional_from(all, idx as int),
        decreases n - idx,
    {
        let part = parts[idx].as_str();
        proof {
            assert(all[idx as int] == part@);
        }
        if same(part, "--") {
            if idx + 1 < n {
                return Some(idx + 1);
            }
            return None;
        }
        match node_option_arity(part) {
            Some(takes_value) => {
                if takes_value && !contains_char(part, '=') && idx + 1 < n {
                    idx = idx + 2;
                } else {
                    idx = idx + 1;
                }
            },
            None => {
                if !find::starts_with_char(part, '-') {
                    return Some(idx);
                }
                idx = idx + 1;
            },
        }
    }
    None
}

fn classify_script_name(script: &str) -> (r: VerifierCommandKind)
    ensures
        r == script_kind(script@),
{
    if same(script, "test") || same(script, "unit") || same(script, "integration") || same(script, "jest") || same(script, "vitest") {
        VerifierCommandKind::TypeScriptTest
    } else if same(script, "lint") || same(script, "eslint") {
        VerifierCommandKind::TypeScriptLint
    } else if same(script, "check") || same(script, "typecheck") || same(script, "tsc") {
        VerifierCommandKind::TypeScriptCheck
    } else {
        VerifierCommandKind::Unknown
    }
}

fn classify_node_tool_name(tool: &str) -> (r: VerifierCommandKind)
    ensures
        r == node_tool_kind(tool@),
{
    if same(tool, "tsc") {
        VerifierCommandKind::TypeScriptCheck
    } else if same(tool, "vitest") || same(tool, "jest") {
        VerifierCommandKind::TypeScriptTest
    } else if same(tool, "eslint") {
        VerifierCommandKind::TypeScriptLint
    } else {
        VerifierCommandKind::Unknown
    }
}

fn classify_positional_tool(parts: &[String], from: usize) -> (r: VerifierCommandKind)
    ensures
        r == positional_tool_kind(chars::texts(parts@), from as int),
{
    match first_positional_after_options(parts, from) {
        Some(k) => classify_node_tool_name(parts[k].as_str()),
        None => VerifierCommandKind::Unknown,
    }
}

fn classify_package_manager_command(parts: &[String], idx: usize) -> (r: VerifierCommandKind)
    requires
        idx < parts@.len(),
    ensures
        r == package_manager_kind(chars::texts(parts@), idx as int),
{
    let n: usize = parts.len();
    if idx + 1 >= n {
        return VerifierCommandKind::Unknown;
    }
    let sub = parts[idx + 1].as_str();
    if same(sub, "test") || same(sub, "t") {
        VerifierCommandKind::TypeScriptTest
    } else if same(sub, "lint") {
        VerifierCommandKind::TypeScriptLint
    } else if same(sub, "tsc") {
        VerifierCommandKind::TypeScriptCheck
    } else if same(sub, "run") {
        if idx + 1 < n - 1 {
            classify_script_name(parts[idx + 2].as_str())
        } else {
            VerifierCommandKind::Unknown
        }
    } else if same(sub, "jest") || same(sub, "vitest") {
        // Yarn can omit the explicit `run`.
        VerifierCommandKind::TypeScriptTest
    } else if same(sub, "eslint") {
        VerifierCommandKind::TypeScriptLint
    } else if same(sub, "typecheck") {
        VerifierCommandKind::TypeScriptCheck
    } else if same(sub, "exec") || same(sub, "dlx") {
        if idx + 1 < n - 1 {
            classify_positional_tool(parts, idx + 2)
        } else {
            VerifierCommandKind::Unknown
        }
    } else {
        VerifierCommandKind::Unknown
    }
}

/// The verifier that a command runs.
pub fn classify_verifier_command(verifier_command: &[String]) -> (r: VerifierCommandKind)
    ensures
        r == verifier_kind(chars::texts(verifier_command@)),
{
    match classify_cargo_command(verifier_command) {
        CargoCommandKind::Test => {
            return VerifierCommandKind::CargoTest;
        },
        CargoCommandKind::Clippy => {
            return VerifierCommandKind::CargoClippy;
        },
        CargoCommandKind::Check => {
            return VerifierCommandKind::CargoCheck;
        },
        CargoCommandKind::Unknown => {},
    }
    let idx = command_start_index(verifier_command);
    if idx >= verifier_command.len() {
        return VerifierCommandKind::Unknown;
    }
    let program = verifier_command[idx].as_str();
    if same(program, "tsc") {
        VerifierCommandKind::TypeScriptCheck
    } else if same(program, "npx") {
        classify_positional_tool(verifier_command, idx + 1)
    } else if same(program, "npm") || same(program, "pnpm") || same(program, "yarn") {
        classify_package_manager_command(verifier_command, idx)
    } else {
        VerifierCommandKind::Unknown
    }
}

} // verus!
