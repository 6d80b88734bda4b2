//! Laws of which verifier a command runs, and of quoting in command lines.
use crate::failure_parser::command;
use crate::failure_parser::command::{Quoting, Role};
use crate::failure_parser::laws;
use crate::text::chars;
use crate::text::find;
use vstd::prelude::*;

verus! {

proof fn lemma_no_assignment(word: Seq<char>)
    requires
        !word.contains('='),
    ensures
        !command::assigns_env(word),
{
    find::lemma_index_from(word, '=', 0);
    match find::index_from(word, '=', 0) {
        Some(i) => {
            assert(word.contains(word[i]));
        },
        None => {},
    }
}

/// A word that assigns nothing and is not `env` is the program that a command runs.
pub proof fn law_first_plain_word_is_the_program(parts: Seq<Seq<char>>)
    requires
        parts.len() > 0,
        !command::assigns_env(parts[0]),
        parts[0] != "env"@,
    ensures
        command::program_index(parts) == 0,
{
    assert(command::after_assignments(parts, 0) == 0);
}

proof fn lemma_cargo_is_plain()
    ensures
        "cargo"@ != "env"@,
        !command::assigns_env("cargo"@),
{
    reveal_strlit("cargo");
    reveal_strlit("env");
    assert("cargo"@.len() == 5 && "env"@.len() == 3);
    lemma_no_assignment("cargo"@);
}

proof fn lemma_flags_are_skipped(parts: Seq<Seq<char>>, i: int, k: int)
    requires
        0 <= i <= k < parts.len(),
        forall|j: int| i <= j < k ==> find::begins(#[trigger] parts[j], '-'),
    ensures
        command::cargo_subcommand(parts, i) == command::cargo_subcommand(parts, k),
    decreases k - i,
{
    if i < k {
        reveal_strlit("test");
        reveal_strlit("clippy");
        reveal_strlit("check");
        assert(find::begins(parts[i], '-'));
        assert("test"@[0] == 't' && "clippy"@[0] == 'c' && "check"@[0] == 'c');
        lemma_flags_are_skipped(parts, i + 1, k);
    }
}

/// The first word behind `cargo` that is no option says which verifier runs, whatever follows
/// it; a word for the toolchain in front does not matter.
pub proof fn law_cargo_commands(parts: Seq<Seq<char>>, k: int)
    requires
        1 <= k < parts.len(),
        parts[0] == "cargo"@,
        forall|j: int| 1 < j < k ==> find::begins(#[trigger] parts[j], '-'),
        k > 1 ==> find::begins(parts[1], '-') || find::begins(parts[1], '+'),
        !find::begins(parts[k], '-'),
        k == 1 ==> !find::begins(parts[k], '+'),
    ensures
        command::cargo_kind(parts) is Test <==> parts[k] == "test"@,
        command::cargo_kind(parts) is Clippy <==> parts[k] == "clippy"@,
        command::cargo_kind(parts) is Check <==> parts[k] == "check"@,
        parts[k] == "test"@ ==> command::verifier_kind(parts) is CargoTest,
        parts[k] == "clippy"@ ==> command::verifier_kind(parts) is CargoClippy,
        parts[k] == "check"@ ==> command::verifier_kind(parts) is CargoCheck,
{
    lemma_cargo_is_plain();
    law_first_plain_word_is_the_program(parts);
    reveal_strlit("test");
    reveal_strlit("clippy");
    reveal_strlit("check");
    assert("test"@.len() == 4 && "clippy"@.len() == 6 && "check"@.len() == 5);
    if find::begins(parts[1], '+') {
        lemma_flags_are_skipped(parts, 2, k);
    } else {
        lemma_flags_are_skipped(parts, 1, k);
    }
}

/// What follows the subcommand of cargo does not change which verifier runs.
pub proof fn law_arguments_do_not_matter(a: Seq<Seq<char>>, b: Seq<Seq<char>>)
    requires
        command::cargo_subcommand(a, 0) !is Unknown,
    ensures
        command::cargo_subcommand(a + b, 0) == command::cargo_subcommand(a, 0),
{
    lemma_arguments(a, b, 0);
}

proof fn lemma_arguments(a: Seq<Seq<char>>, b: Seq<Seq<char>>, i: int)
    requires
        0 <= i,
        command::cargo_subcommand(a, i) !is Unknown,
    ensures
        command::cargo_subcommand(a + b, i) == command::cargo_subcommand(a, i),
    decreases a.len() - i,
{
    assert(i < a.len());
    assert((a + b)[i] == a[i]);
    if a[i] != "test"@ && a[i] != "clippy"@ && a[i] != "check"@ {
        lemma_arguments(a, b, i + 1);
    }
}

/// What runs behind `env` is what follows its options and assignments.
pub proof fn law_env_runs_what_follows(parts: Seq<Seq<char>>)
    requires
        parts.len() > 0,
        !command::assigns_env(parts[0]),
        parts[0] != "env"@,
        parts[0] != "--"@,
        command::env_arity(parts[0]) is None,
    ensures
        command::program_index(seq!["env"@] + parts) == 1,
        command::cargo_kind(seq!["env"@] + parts) == command::cargo_kind_at(
            seq!["env"@] + parts,
            1,
        ),
{
    let more = seq!["env"@] + parts;
    reveal_strlit("env");
    lemma_no_assignment("env"@);
    assert(more[0] == "env"@ && more[1] == parts[0]);
    assert(command::after_assignments(more, 0) == 0);
}

proof fn lemma_node_is_plain(word: Seq<char>)
    requires
        word == "npx"@ || word == "npm"@ || word == "pnpm"@ || word == "yarn"@ || word == "tsc"@,
    ensures
        word != "env"@,
        word != "cargo"@,
        !command::assigns_env(word),
{
    reveal_strlit("npx");
    reveal_strlit("npm");
    reveal_strlit("pnpm");
    reveal_strlit("yarn");
    reveal_strlit("tsc");
    reveal_strlit("env");
    reveal_strlit("cargo");
    assert("npx"@[0] == 'n' && "npm"@[0] == 'n' && "tsc"@[0] == 't' && "env"@[0] == 'e');
    assert("pnpm"@.len() == 4 && "yarn"@.len() == 4 && "cargo"@.len() == 5 && "env"@.len() == 3);
    assert("npx"@.len() == 3 && "npm"@.len() == 3 && "tsc"@.len() == 3);
    lemma_no_assignment(word);
}

proof fn lemma_names_of_tools()
    ensures
        "npx"@ != "tsc"@ && "npm"@ != "tsc"@ && "pnpm"@ != "tsc"@ && "yarn"@ != "tsc"@,
        "npm"@ != "npx"@ && "pnpm"@ != "npx"@ && "yarn"@ != "npx"@,
{
    reveal_strlit("npx");
    reveal_strlit("npm");
    reveal_strlit("pnpm");
    reveal_strlit("yarn");
    reveal_strlit("tsc");
    assert("npx"@[2] == 'x' && "npm"@[2] == 'm' && "tsc"@[2] == 'c');
    assert("pnpm"@.len() == 4 && "yarn"@.len() == 4 && "npx"@.len() == 3 && "tsc"@.len() == 3);
}

/// A package manager that runs a script runs the verifier that the script is named after.
pub proof fn law_scripts_are_named_after_verifiers(parts: Seq<Seq<char>>)
    requires
        parts.len() >= 3,
        parts[0] == "npm"@ || parts[0] == "pnpm"@ || parts[0] == "yarn"@,
        parts[1] == "run"@,
    ensures
        command::verifier_kind(parts) == command::script_kind(parts[2]),
{
    lemma_node_is_plain(parts[0]);
    lemma_names_of_tools();
    law_first_plain_word_is_the_program(parts);
    reveal_strlit("run");
    reveal_strlit("test");
    reveal_strlit("t");
    reveal_strlit("lint");
    reveal_strlit("tsc");
    assert("run"@[0] == 'r' && "tsc"@[0] == 't');
    assert("run"@.len() == 3 && "test"@.len() == 4 && "t"@.len() == 1 && "lint"@.len() == 4);
}

/// The tests, the lint and the check of a package manager, and the tools that it or `npx` runs,
/// are the verifiers of those names.
pub proof fn law_node_commands(parts: Seq<Seq<char>>)
    requires
        parts.len() >= 2,
    ensures
        parts[0] == "npm"@ && parts[1] == "test"@ ==> command::verifier_kind(
            parts,
        ) is TypeScriptTest,
        parts[0] == "yarn"@ && parts[1] == "lint"@ ==> command::verifier_kind(
            parts,
        ) is TypeScriptLint,
        parts[0] == "pnpm"@ && parts[1] == "tsc"@ ==> command::verifier_kind(
            parts,
        ) is TypeScriptCheck,
        parts[0] == "tsc"@ ==> command::verifier_kind(parts) is TypeScriptCheck,
        parts[0] == "npx"@ && !find::begins(parts[1], '-') ==> command::verifier_kind(parts)
            == command::node_tool_kind(parts[1]),
{
    lemma_names_of_tools();
    reveal_strlit("test");
    reveal_strlit("t");
    reveal_strlit("lint");
    reveal_strlit("tsc");
    assert("test"@[0] == 't' && "lint"@[0] == 'l');
    assert("tsc"@.len() == 3 && "test"@.len() == 4 && "lint"@.len() == 4 && "t"@.len() == 1);
    let w = parts[0];
    if w == "npx"@ || w == "npm"@ || w == "pnpm"@ || w == "yarn"@ || w == "tsc"@ {
        lemma_node_is_plain(w);
        law_first_plain_word_is_the_program(parts);
    }
    if w == "npx"@ && !find::begins(parts[1], '-') {
        lemma_positional(parts);
    }
}

proof fn lemma_positional(parts: Seq<Seq<char>>)
    requires
        parts.len() >= 2,
        !find::begins(parts[1], '-'),
    ensures
        command::positional_from(parts, 1) == Some(1int),
{
    reveal_strlit("--");
    reveal_strlit("-p");
    reveal_strlit("--package");
    reveal_strlit("-c");
    reveal_strlit("--call");
    reveal_strlit("--shell");
    reveal_strlit("--package=");
    reveal_strlit("--call=");
    reveal_strlit("--shell=");
    let w = parts[1];
    assert("--"@[0] == '-' && "-p"@[0] == '-' && "--package"@[0] == '-' && "-c"@[0] == '-');
    assert("--call"@[0] == '-' && "--shell"@[0] == '-');
    if find::has_prefix(w, "--package="@) {
        assert(w.subrange(0, 10)[0] == w[0] && "--package="@[0] == '-');
    }
    if find::has_prefix(w, "--call="@) {
        assert(w.subrange(0, 7)[0] == w[0] && "--call="@[0] == '-');
    }
    if find::has_prefix(w, "--shell="@) {
        assert(w.subrange(0, 8)[0] == w[0] && "--shell="@[0] == '-');
    }
}

/// The verifiers that tools and scripts stand for.
pub proof fn law_tools_and_scripts(tool: Seq<char>)
    ensures
        command::node_tool_kind(tool) is TypeScriptTest <==> tool == "vitest"@ || tool == "jest"@,
        command::node_tool_kind(tool) is TypeScriptLint <==> tool == "eslint"@,
        command::node_tool_kind(tool) is TypeScriptCheck <==> tool == "tsc"@,
        command::node_tool_kind(tool) !is Unknown ==> command::script_kind(tool)
            == command::node_tool_kind(tool),
{
    reveal_strlit("vitest");
    reveal_strlit("jest");
    reveal_strlit("eslint");
    reveal_strlit("tsc");
    reveal_strlit("test");
    reveal_strlit("unit");
    reveal_strlit("integration");
    reveal_strlit("lint");
    reveal_strlit("check");
    reveal_strlit("typecheck");
    assert("vitest"@[0] == 'v' && "eslint"@[0] == 'e' && "jest"@[0] == 'j' && "tsc"@.len() == 3);
    assert("vitest"@.len() == 6 && "eslint"@.len() == 6 && "jest"@.len() == 4);
    assert("test"@.len() == 4 && "unit"@.len() == 4 && "integration"@.len() == 11);
    assert("lint"@.len() == 4 && "check"@.len() == 5 && "typecheck"@.len() == 9);
}

proof fn lemma_plain_front(p: Seq<char>, rest: Seq<char>, i: int)
    requires
        laws::is_plain(p),
        0 <= i <= p.len(),
    ensures
        command::quoting_at(p + rest, i) == command::unquoted(),
    decreases i,
{
    if i > 0 {
        lemma_plain_front(p, rest, i - 1);
        let s = p + rest;
        assert(s[i - 1] == p[i - 1]);
        assert(p[i - 1] != '\\');
        let r = command::role_at(s, i - 1);
        assert(r == command::role(
            command::unquoted(),
            p[i - 1],
            command::doubled_at(s, i - 1),
        ));
        assert(command::quoting_at(s, i) == command::quoting_after(command::unquoted(), r));
    }
}

/// A pipe, a semicolon or a redirection behind plain text composes commands, and so does a
/// doubled ampersand; a single one does not.
pub proof fn law_composing_characters(p: Seq<char>, c: char, rest: Seq<char>)
    requires
        laws::is_plain(p),
    ensures
        c == '|' || c == ';' || c == '<' || c == '>' ==> command::composes(p + seq![c] + rest),
        command::composes(p + seq!['&', '&'] + rest),
        command::composes(p + seq!['&']) == false,
{
    let n = p.len() as int;
    if c == '|' || c == ';' || c == '<' || c == '>' {
        let s = p + seq![c] + rest;
        assert(p + (seq![c] + rest) =~= s);
        lemma_plain_front(p, seq![c] + rest, n);
        assert(s[n] == c);
        assert(command::role_at(s, n) == Role::Composition);
    }
    let t = p + seq!['&', '&'] + rest;
    assert(p + (seq!['&', '&'] + rest) =~= t);
    lemma_plain_front(p, seq!['&', '&'] + rest, n);
    assert(t[n] == '&' && t[n + 1] == '&');
    assert(command::role_at(t, n) == Role::Composition);
    let u = p + seq!['&'];
    assert forall|i: int| 0 <= i < u.len() implies #[trigger] command::role_at(u, i)
        != Role::Composition by {
        lemma_plain_front(p, seq!['&'], i);
        if i < n {
            assert(u[i] == p[i]);
            assert(p[i] != '|');
        }
    }
}

proof fn lemma_double_roles(s: Seq<char>, t: Seq<char>, i: int)
    requires
        s == seq!['"'] + t + seq!['"'],
        !t.contains('"'),
        !t.contains('\\'),
        0 <= i < s.len(),
    ensures
        i == 0 || i == s.len() - 1 ==> command::role_at(s, i) == Role::DoubleQuote,
        0 < i < s.len() - 1 ==> command::role_at(s, i) == Role::Literal,
        command::quoting_at(s, i) == (Quoting { single: false, double: i > 0, escaped: false }),
    decreases i,
{
    if i > 0 {
        lemma_double_roles(s, t, i - 1);
    }
    if 0 < i < s.len() - 1 {
        assert(s[i] == t[i - 1]);
        assert(t.contains(t[i - 1]));
    }
}

proof fn lemma_double_words(s: Seq<char>, t: Seq<char>, i: int)
    requires
        s == seq!['"'] + t + seq!['"'],
        t.len() > 0,
        !t.contains('"'),
        !t.contains('\\'),
        1 <= i <= s.len() - 1,
    ensures
        command::command_words_from(s, i, t.take(i - 1)) == seq![t],
    decreases s.len() - i,
{
    lemma_double_roles(s, t, i);
    if i < s.len() - 1 {
        assert(s[i] == t[i - 1]);
        assert(t.take(i - 1).push(s[i]) =~= t.take(i));
        lemma_double_words(s, t, i + 1);
    } else {
        assert(t.take(i - 1) =~= t);
        assert(command::command_words_from(s, i + 1, t) =~= seq![t]);
    }
}

/// A text between double quotes is one word that composes nothing, as long as it holds no double
/// quote and no backslash.
pub proof fn law_double_quotes_protect(t: Seq<char>)
    requires
        t.len() > 0,
        !t.contains('"'),
        !t.contains('\\'),
    ensures
        command::command_words(seq!['"'] + t + seq!['"']) == seq![t],
        !command::composes(seq!['"'] + t + seq!['"']),
{
    let s = seq!['"'] + t + seq!['"'];
    assert forall|i: int| 0 <= i < s.len() implies #[trigger] command::role_at(s, i)
        != Role::Composition by {
        lemma_double_roles(s, t, i);
    }
    lemma_double_roles(s, t, 0);
    lemma_double_words(s, t, 1);
    assert(t.take(0) =~= Seq::<char>::empty());
    assert(command::command_words(s) == command::command_words_from(s, 1, Seq::<char>::empty()));
}

/// A character behind a backslash stands for itself, whatever it is.
pub proof fn law_backslashes_protect(c: char)
    ensures
        command::command_words(seq!['\\', c]) == seq![seq![c]],
        !command::composes(seq!['\\', c]),
{
    let s = seq!['\\', c];
    assert(command::quoting_at(s, 0) == command::unquoted());
    assert(command::role_at(s, 0) == Role::Escape);
    assert(command::quoting_at(s, 1) == (Quoting { single: false, double: false, escaped: true }));
    assert(command::role_at(s, 1) == Role::Literal);
    let e = Seq::<char>::empty();
    assert(e.push(c) =~= seq![c]);
    assert(command::command_words_from(s, 2, seq![c]) =~= seq![seq![c]]);
    assert(command::command_words_from(s, 1, e) == command::command_words_from(s, 2, seq![c]));
    assert(command::command_words_from(s, 0, e) == command::command_words_from(s, 1, e));
    assert forall|i: int| 0 <= i < s.len() implies #[trigger] command::role_at(s, i)
        != Role::Composition by {
        assert(i == 0 || i == 1);
    }
}

/// A word assigns a variable exactly if a name of letters, digits and underscores that does not
/// begin with a digit stands in front of its first equals sign.
pub proof fn law_assignments(name: Seq<char>, value: Seq<char>)
    requires
        name.len() > 0,
        !name.contains('='),
    ensures
        command::assigns_env(name + seq!['='] + value) <==> (name[0] == '_'
            || chars::is_ascii_letter(name[0])) && forall|i: int|
            0 <= i < name.len() ==> #[trigger] name[i] == '_' || chars::is_ascii_alnum(name[i]),
        !command::assigns_env(name),
        !command::assigns_env(seq!['='] + value),
{
    crate::text::laws::law_cut_at_first(name, '=', value);
    lemma_no_assignment(name);
    let e = Seq::<char>::empty();
    crate::text::laws::law_cut_at_first(e, '=', value);
    assert(e + seq!['='] + value =~= seq!['='] + value);
}

/// Options of `env` that clear it, and that take a variable out of it, stand in front of what it
/// runs, and so do assignments.
pub proof fn law_env_options_are_passed(parts: Seq<Seq<char>>, name: Seq<char>, a: Seq<char>)
    requires
        parts.len() > 0,
        !command::assigns_env(parts[0]),
        parts[0] != "--"@,
        command::env_arity(parts[0]) is None,
        command::assigns_env(a),
    ensures
        command::program_index(seq!["env"@, "-i"@] + parts) == 2,
        command::program_index(seq!["env"@, "-u"@, name] + parts) == 3,
        command::program_index(seq!["env"@, a] + parts) == 2,
        command::program_index(seq!["env"@, "--"@] + parts) == 2,
{
    reveal_strlit("env");
    reveal_strlit("-i");
    reveal_strlit("-u");
    reveal_strlit("--");
    reveal_strlit("--ignore-environment");
    lemma_no_assignment("env"@);
    lemma_no_assignment("-i"@);
    lemma_no_assignment("-u"@);
    assert("-i"@[1] == 'i' && "--"@[1] == '-' && "-u"@[1] == 'u');
    assert("--ignore-environment"@.len() == 20 && "-u"@.len() == 2);
    assert(!"-u"@.contains('='));
    let w = seq!["env"@, "-i"@] + parts;
    assert(w[0] == "env"@ && w[1] == "-i"@ && w[2] == parts[0]);
    assert(command::after_assignments(w, 0) == 0);
    assert(command::after_env_options(w, 2) == 2);
    assert(command::after_env_options(w, 1) == 2);
    let x = seq!["env"@, "-u"@, name] + parts;
    assert(x[0] == "env"@ && x[1] == "-u"@ && x[3] == parts[0]);
    assert(command::after_assignments(x, 0) == 0);
    assert(command::after_env_options(x, 3) == 3);
    assert(command::after_env_options(x, 1) == 3);
    let y = seq!["env"@, a] + parts;
    assert(y[0] == "env"@ && y[1] == a && y[2] == parts[0]);
    assert(command::after_assignments(y, 0) == 0);
    assert(command::after_env_options(y, 2) == 2);
    if a == "--"@ {
        lemma_no_assignment("--"@);
    }
    assert(command::after_env_options(y, 1) == 2);
    let z = seq!["env"@, "--"@] + parts;
    assert(z[0] == "env"@ && z[1] == "--"@);
    assert(command::after_assignments(z, 0) == 0);
    assert(command::after_env_options(z, 1) == 2);
}

/// Between double quotes a backslash still protects the character behind it, be it a double
/// quote; between single quotes it is a character like any other.
pub proof fn law_backslashes_between_quotes(c: char)
    ensures
        command::command_words(seq!['"', '\\', c, '"']) == seq![seq![c]],
        c != '\'' ==> command::command_words(seq!['\'', '\\', c, '\'']) == seq![seq!['\\', c]],
{
    let e = Seq::<char>::empty();
    let s = seq!['"', '\\', c, '"'];
    assert(command::quoting_at(s, 0) == command::unquoted());
    assert(command::role_at(s, 0) == Role::DoubleQuote);
    assert(command::quoting_at(s, 1) == (Quoting { single: false, double: true, escaped: false }));
    assert(command::role_at(s, 1) == Role::Escape);
    assert(command::quoting_at(s, 2) == (Quoting { single: false, double: true, escaped: true }));
    assert(command::role_at(s, 2) == Role::Literal);
    assert(command::quoting_at(s, 3) == (Quoting { single: false, double: true, escaped: false }));
    assert(command::role_at(s, 3) == Role::DoubleQuote);
    assert(e.push(c) =~= seq![c]);
    assert(command::command_words_from(s, 4, seq![c]) =~= seq![seq![c]]);
    assert(command::command_words_from(s, 3, seq![c]) == command::command_words_from(
        s,
        4,
        seq![c],
    ));
    assert(command::command_words_from(s, 2, e) == command::command_words_from(s, 3, seq![c]));
    assert(command::command_words_from(s, 1, e) == command::command_words_from(s, 2, e));
    assert(command::command_words_from(s, 0, e) == command::command_words_from(s, 1, e));
    if c != '\'' {
        let t = seq!['\\', c];
        assert(!t.contains('\''));
        laws::law_single_quotes_protect(t);
        assert(seq!['\''] + t + seq!['\''] =~= seq!['\'', '\\', c, '\'']);
    }
}

} // verus!
