//! Laws of command lines and verifier commands.
use crate::failure_parser::command;
use crate::failure_parser::command::{Role, VerifierCommandKind};
use crate::failure_parser::report::FailureStage;
use crate::failure_parser::typescript_output;
use crate::text::chars;
use crate::text::split;
use vstd::prelude::*;

verus! {

/// No word of a command line is empty.
pub proof fn law_command_words_are_not_empty(s: Seq<char>)
    ensures
        forall|k: int|
            0 <= k < command::command_words(s).len() ==> (#[trigger] command::command_words(
                s,
            )[k]).len() > 0,
{
    lemma_words_not_empty(s, 0, Seq::<char>::empty());
}

proof fn lemma_words_not_empty(s: Seq<char>, i: int, word: Seq<char>)
    ensures
        forall|k: int|
            0 <= k < command::command_words_from(s, i, word).len() ==> (
            #[trigger] command::command_words_from(s, i, word)[k]).len() > 0,
    decreases s.len() - i,
{
    if 0 <= i < s.len() {
        match command::role_at(s, i) {
            Role::Composition => {},
            Role::Gap => {
                lemma_words_not_empty(s, i + 1, Seq::<char>::empty());
                let head = command::finished(word);
                let tail = command::command_words_from(s, i + 1, Seq::<char>::empty());
                assert forall|k: int| 0 <= k < (head + tail).len() implies (#[trigger] (head
                    + tail)[k]).len() > 0 by {
                    if k >= head.len() {
                        assert(tail[k - head.len()].len() > 0);
                    }
                }
                assert(command::command_words_from(s, i, word) == head + tail);
            },
            Role::Literal => {
                lemma_words_not_empty(s, i + 1, word.push(s[i]));
                assert(command::command_words_from(s, i, word) == command::command_words_from(
                    s,
                    i + 1,
                    word.push(s[i]),
                ));
            },
            _ => {
                lemma_words_not_empty(s, i + 1, word);
                assert(command::command_words_from(s, i, word) == command::command_words_from(
                    s,
                    i + 1,
                    word,
                ));
            },
        }
    }
}

/// Whether a text holds none of the characters that quote, escape or compose.
pub open spec fn is_plain(s: Seq<char>) -> bool {
    forall|i: int|
        0 <= i < s.len() ==> {
            let c = #[trigger] s[i];
            c != '\\' && c != '\'' && c != '"' && c != '|' && c != ';' && c != '<' && c != '>' && c
                != '&'
        }
}

/// A command line without quotes, escapes and composing characters is not composed, and its
/// words are the runs of characters between white space.
pub proof fn law_plain_command_words(s: Seq<char>)
    requires
        is_plain(s),
    ensures
        !command::composes(s),
        command::command_words(s) == split::words_of(s),
{
    assert forall|i: int| 0 <= i < s.len() implies #[trigger] command::role_at(s, i)
        != Role::Composition by {
        lemma_plain_quoting(s, i);
    }
    lemma_plain_words(s, 0, 0);
    assert(s.subrange(0, 0) =~= Seq::<char>::empty());
}

proof fn lemma_plain_quoting(s: Seq<char>, i: int)
    requires
        is_plain(s),
        0 <= i <= s.len(),
    ensures
        command::quoting_at(s, i) == command::unquoted(),
        i < s.len() ==> command::role_at(s, i) == (if chars::is_space(s[i]) {
            Role::Gap
        } else {
            Role::Literal
        }),
    decreases i,
{
    if i > 0 {
        lemma_plain_quoting(s, i - 1);
        assert(s[i - 1] != '\\');
    }
    if i < s.len() {
        assert(s[i] != '\\');
    }
}

proof fn lemma_word_end(s: Seq<char>, from: int, i: int)
    requires
        0 <= from <= i <= s.len(),
        forall|j: int| from <= j < i ==> !chars::is_space(#[trigger] s[j]),
    ensures
        split::word_end(s, from) == split::word_end(s, i),
    decreases i - from,
{
    if from < i {
        assert(!chars::is_space(s[from]));
        lemma_word_end(s, from + 1, i);
    }
}

proof fn lemma_plain_words(s: Seq<char>, from: int, i: int)
    requires
        is_plain(s),
        0 <= from <= i <= s.len(),
        forall|j: int| from <= j < i ==> !chars::is_space(#[trigger] s[j]),
    ensures
        command::command_words_from(s, i, s.subrange(from, i)) == split::words_from(s, from),
    decreases s.len() - i,
{
    lemma_plain_quoting(s, i);
    let word = s.subrange(from, i);
    lemma_word_end(s, from, i);
    if i < s.len() {
        if chars::is_space(s[i]) {
            lemma_plain_words(s, i + 1, i + 1);
            assert(s.subrange(i + 1, i + 1) =~= Seq::<char>::empty());
            assert(split::words_from(s, i) == split::words_from(s, i + 1));
            if from < i {
                assert(!chars::is_space(s[from]));
                assert(split::word_end(s, i) == i);
            } else {
                assert(command::finished(word) + split::words_from(s, i + 1) =~= split::words_from(
                    s,
                    i + 1,
                ));
            }
        } else {
            assert(word.push(s[i]) =~= s.subrange(from, i + 1));
            lemma_plain_words(s, from, i + 1);
        }
    } else {
        if from < i {
            assert(!chars::is_space(s[from]));
            assert(split::words_from(s, i) =~= Seq::<Seq<char>>::empty());
            assert(command::finished(word) =~= split::words_from(s, from));
        }
    }
}

/// Nothing at or after the first composing character reaches the words.
pub proof fn law_words_stop_at_composition(s: Seq<char>, at: int)
    requires
        0 <= at < s.len(),
        command::role_at(s, at) == Role::Composition,
        forall|j: int| 0 <= j < at ==> #[trigger] command::role_at(s, j) != Role::Composition,
    ensures
        command::command_words(s) == command::command_words(s.take(at)),
        !command::composes(s.take(at)),
{
    assert forall|i: int| 0 <= i < at implies #[trigger] command::role_at(s.take(at), i)
        == command::role_at(s, i) by {
        lemma_same_roles(s, at, i);
    }
    lemma_stopped_words(s, at, 0, Seq::<char>::empty());
}

proof fn lemma_same_roles(s: Seq<char>, at: int, i: int)
    requires
        0 <= i < at < s.len(),
        forall|j: int| 0 <= j < at ==> #[trigger] command::role_at(s, j) != Role::Composition,
        command::role_at(s, at) == Role::Composition,
    ensures
        command::quoting_at(s.take(at), i) == command::quoting_at(s, i),
        command::role_at(s.take(at), i) == command::role_at(s, i),
    decreases i,
{
    if i > 0 {
        lemma_same_roles(s, at, i - 1);
    }
    let t = s.take(at);
    assert(t[i] == s[i]);
    if i + 1 < at {
        assert(t[i + 1] == s[i + 1]);
    }
    assert(command::role_at(s, i) != Role::Composition);
}

proof fn lemma_stopped_words(s: Seq<char>, at: int, i: int, word: Seq<char>)
    requires
        0 <= i <= at < s.len(),
        command::role_at(s, at) == Role::Composition,
        forall|j: int|
            0 <= j < at ==> #[trigger] command::role_at(s.take(at), j) == command::role_at(s, j),
        forall|j: int| 0 <= j < at ==> #[trigger] command::role_at(s, j) != Role::Composition,
    ensures
        command::command_words_from(s, i, word) == command::command_words_from(
            s.take(at),
            i,
            word,
        ),
    decreases at - i,
{
    if i < at {
        assert(command::role_at(s.take(at), i) == command::role_at(s, i));
        assert(s.take(at)[i] == s[i]);
        lemma_stopped_words(s, at, i + 1, Seq::<char>::empty());
        lemma_stopped_words(s, at, i + 1, word.push(s[i]));
        lemma_stopped_words(s, at, i + 1, word);
    }
}

/// A text between single quotes is one word, whatever it holds, as long as it holds no
/// single quote itself; it never composes commands.
pub proof fn law_single_quotes_protect(t: Seq<char>)
    requires
        t.len() > 0,
        !t.contains('\''),
    ensures
        command::command_words(seq!['\''] + t + seq!['\'']) == seq![t],
        !command::composes(seq!['\''] + t + seq!['\'']),
{
    let s = seq!['\''] + t + seq!['\''];
    assert forall|i: int| 0 <= i < s.len() implies #[trigger] command::role_at(s, i)
        != Role::Composition by {
        lemma_quoted_roles(s, t, i);
    }
    lemma_quoted_roles(s, t, 0);
    lemma_quoted_words(s, t, 1);
    assert(t.take(0) =~= Seq::<char>::empty());
    assert(command::command_words(s) == command::command_words_from(s, 1, Seq::<char>::empty()));
}

proof fn lemma_quoted_roles(s: Seq<char>, t: Seq<char>, i: int)
    requires
        s == seq!['\''] + t + seq!['\''],
        !t.contains('\''),
        0 <= i < s.len(),
    ensures
        i == 0 || i == s.len() - 1 ==> command::role_at(s, i) == Role::SingleQuote,
        0 < i < s.len() - 1 ==> command::role_at(s, i) == Role::Literal,
        command::quoting_at(s, i) == (command::Quoting {
            single: i > 0,
            double: false,
            escaped: false,
        }),
    decreases i,
{
    if i > 0 {
        lemma_quoted_roles(s, t, i - 1);
    }
    if 0 < i < s.len() - 1 {
        assert(s[i] == t[i - 1]);
        assert(t.contains(t[i - 1]));
    }
}

proof fn lemma_quoted_words(s: Seq<char>, t: Seq<char>, i: int)
    requires
        s == seq!['\''] + t + seq!['\''],
        t.len() > 0,
        !t.contains('\''),
        1 <= i <= s.len() - 1,
    ensures
        command::command_words_from(s, i, t.take(i - 1)) == seq![t],
    decreases s.len() - i,
{
    lemma_quoted_roles(s, t, i);
    if i < s.len() - 1 {
        assert(s[i] == t[i - 1]);
        assert(t.take(i - 1).push(s[i]) =~= t.take(i));
        lemma_quoted_words(s, t, i + 1);
    } else {
        assert(t.take(i - 1) =~= t);
        assert(command::command_words_from(s, i + 1, t) =~= seq![t]);
    }
}

/// An assignment in front of a command does not change which verifier the command runs.
pub proof fn law_assignment_keeps_kind(a: Seq<char>, parts: Seq<Seq<char>>)
    requires
        command::assigns_env(a),
    ensures
        command::cargo_kind(seq![a] + parts) == command::cargo_kind(parts),
        command::verifier_kind(seq![a] + parts) == command::verifier_kind(parts),
        command::program_index(seq![a] + parts) == command::program_index(parts) + 1,
{
    let more = seq![a] + parts;
    assert(more[0] == a);
    assert(command::after_assignments(more, 0) == command::after_assignments(more, 1));
    lemma_shift_assignments(a, parts, 0);
    lemma_assignments_bound(parts, 0);
    let i = command::after_assignments(parts, 0);
    if 0 <= i < parts.len() {
        assert(more[i + 1] == parts[i]);
        if parts[i] == "env"@ {
            lemma_shift_env(a, parts, i + 1);
        }
    }
    let k = command::program_index(parts);
    assert(command::program_index(more) == k + 1);
    lemma_env_bound(parts, i + 1);
    if k < parts.len() {
        assert(more[k + 1] == parts[k]);
        if k + 1 < parts.len() {
            assert(more[k + 2] == parts[k + 1]);
            if k + 2 < parts.len() {
                assert(more[k + 3] == parts[k + 2]);
            }
        }
        lemma_shift_subcommand(a, parts, k + 1);
        lemma_shift_subcommand(a, parts, k + 2);
        lemma_shift_positional(a, parts, k + 1);
        lemma_shift_positional(a, parts, k + 2);
    }
}

proof fn lemma_assignments_bound(parts: Seq<Seq<char>>, i: int)
    requires
        0 <= i,
    ensures
        command::after_assignments(parts, i) >= i,
    decreases parts.len() - i,
{
    if i < parts.len() && command::assigns_env(parts[i]) {
        lemma_assignments_bound(parts, i + 1);
    }
}

proof fn lemma_env_bound(parts: Seq<Seq<char>>, i: int)
    requires
        0 <= i,
    ensures
        command::after_env_options(parts, i) >= i,
    decreases parts.len() - i + 2,
{
    if i < parts.len() {
        lemma_env_bound(parts, i + 1);
        lemma_env_bound(parts, i + 2);
    }
}

proof fn lemma_shift_assignments(a: Seq<char>, parts: Seq<Seq<char>>, i: int)
    requires
        0 <= i,
    ensures
        command::after_assignments(seq![a] + parts, i + 1) == command::after_assignments(parts, i)
            + 1,
    decreases parts.len() - i,
{
    if i < parts.len() {
        assert((seq![a] + parts)[i + 1] == parts[i]);
        lemma_shift_assignments(a, parts, i + 1);
    }
}

proof fn lemma_shift_env(a: Seq<char>, parts: Seq<Seq<char>>, i: int)
    requires
        0 <= i,
    ensures
        command::after_env_options(seq![a] + parts, i + 1) == command::after_env_options(parts, i)
            + 1,
    decreases parts.len() - i + 2,
{
    if i < parts.len() {
        assert((seq![a] + parts)[i + 1] == parts[i]);
        lemma_shift_env(a, parts, i + 1);
        lemma_shift_env(a, parts, i + 2);
    }
}

proof fn lemma_shift_subcommand(a: Seq<char>, parts: Seq<Seq<char>>, i: int)
    requires
        0 <= i,
    ensures
        command::cargo_subcommand(seq![a] + parts, i + 1) == command::cargo_subcommand(parts, i),
    decreases parts.len() - i,
{
    if i < parts.len() {
        assert((seq![a] + parts)[i + 1] == parts[i]);
        lemma_shift_subcommand(a, parts, i + 1);
    }
}

proof fn lemma_shift_positional(a: Seq<char>, parts: Seq<Seq<char>>, i: int)
    requires
        0 <= i,
    ensures
        command::positional_from(seq![a] + parts, i + 1) == (match command::positional_from(
            parts,
            i,
        ) {
            Some(k) => Some(k + 1),
            None => None,
        }),
        command::positional_tool_kind(seq![a] + parts, i + 1) == command::positional_tool_kind(
            parts,
            i,
        ),
    decreases parts.len() - i + 2,
{
    let more = seq![a] + parts;
    if i < parts.len() {
        assert(more[i + 1] == parts[i]);
        lemma_shift_positional(a, parts, i + 1);
        lemma_shift_positional(a, parts, i + 2);
    }
    match command::positional_from(parts, i) {
        Some(k) => {
            lemma_positional_bound(parts, i);
            assert(more[k + 1] == parts[k]);
        },
        None => {},
    }
}

proof fn lemma_positional_bound(parts: Seq<Seq<char>>, i: int)
    requires
        0 <= i,
    ensures
        command::positional_from(parts, i) matches Some(k) ==> 0 <= k < parts.len(),
    decreases parts.len() - i + 2,
{
    if i < parts.len() {
        lemma_positional_bound(parts, i + 1);
        lemma_positional_bound(parts, i + 2);
    }
}

/// Every report names at least one failure.
pub proof fn law_report_names_a_failure(
    kind: VerifierCommandKind,
    parts: Seq<Seq<char>>,
    stdout: Seq<char>,
    stderr: Seq<char>,
)
    ensures
        typescript_output::verifier_report(kind, parts, stdout, stderr).failures.len() > 0,
{
}

/// A report on a command of its own kind has the stage of that kind: test runs fail in the
/// test stage, lint runs in the lint stage, and checks while parsing or compiling.
pub proof fn law_report_stage(parts: Seq<Seq<char>>, stdout: Seq<char>, stderr: Seq<char>)
    ensures
        ({
            let kind = command::verifier_kind(parts);
            let stage = typescript_output::verifier_report(kind, parts, stdout, stderr).stage;
            match kind {
                VerifierCommandKind::CargoTest => stage == FailureStage::Test,
                VerifierCommandKind::TypeScriptTest => stage == FailureStage::Test,
                VerifierCommandKind::CargoClippy => stage == FailureStage::Lint,
                VerifierCommandKind::TypeScriptLint => stage == FailureStage::Lint,
                VerifierCommandKind::CargoCheck => stage == FailureStage::Parse || stage
                    == FailureStage::Compile,
                VerifierCommandKind::TypeScriptCheck => stage == FailureStage::Compile,
                VerifierCommandKind::Unknown => stage == FailureStage::Unknown,
            }
        }),
{
    lemma_node_kind(parts, command::program_index(parts));
}

proof fn lemma_node_kind(parts: Seq<Seq<char>>, i: int)
    ensures
        command::node_kind_at(parts, i) !is CargoTest,
        command::node_kind_at(parts, i) !is CargoClippy,
        command::node_kind_at(parts, i) !is CargoCheck,
{
}

} // verus!
