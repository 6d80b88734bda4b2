//! Laws of masking, of allowed commands and of paths in a workspace.
use crate::api::types::{ApiUsage, ArgsView};
use crate::failure_parser::command;
use crate::failure_parser::command::VerifierCommandKind;
use crate::failure_parser::report::ReportView;
use crate::json::JsonView;
use crate::text::bytes;
use crate::text::chars;
use crate::text::find;
use crate::text::laws;
use crate::text::number;
use crate::text::split;
use crate::verification::failures;
use crate::verification::grounding;
use crate::verification::grounding::{CallView, RoundView, RunView};
use crate::verification::invocation;
use crate::verification::invocation::{EnvChange, InvocationView};
use crate::verification::policy;
use crate::verification::policy::ContextView;
use crate::verification::secrets;
use crate::verification::secrets::Masking;
use crate::verification::tools;
use crate::verification::workspace;
use crate::verification::workspace::MatchView;
use vstd::prelude::*;

verus! {

/// A secret that is given behind a colon is masked as one that is assigned.
pub proof fn law_secrets_behind_colons_are_masked(key: Seq<char>, value: Seq<char>)
    requires
        secrets::is_secret_key(key),
        !key.contains(':'),
        !key.contains('='),
        !value.contains('='),
    ensures
        secrets::word_masked(key + seq![':'] + value) == key + ":[REDACTED]"@,
{
    let w = key + seq![':'] + value;
    laws::law_cut_at_first(key, ':', value);
    assert(!w.contains('=')) by {
        if w.contains('=') {
            let i = choose|i: int| 0 <= i < w.len() && w[i] == '=';
            if i < key.len() {
                assert(key[i] == '=');
            } else if i > key.len() {
                assert(value[i - key.len() - 1] == '=');
            }
        }
    }
    laws::law_cut_at_first(w, '=', Seq::empty());
}

proof fn lemma_words_shift(a: Seq<char>, s: Seq<char>, i: int)
    requires
        0 <= i <= s.len(),
    ensures
        secrets::words_masked(a + s, a.len() + i) == secrets::words_masked(s, i),
    decreases s.len() - i,
{
    if i < s.len() {
        assert((a + s)[a.len() + i] == s[i]);
        if chars::is_space(s[i]) {
            lemma_words_shift(a, s, i + 1);
        } else {
            let end = split::word_end(s, i);
            laws::lemma_word_end_shift(a, s, i);
            laws::lemma_word_end_bound(s, i + 1);
            lemma_words_shift(a, s, end);
            assert((a + s).subrange(a.len() + i, a.len() + end) =~= s.subrange(i, end));
        }
    }
}

/// A line is masked word by word, and the white space between the words stays.
pub proof fn law_lines_are_masked_word_by_word(w: Seq<char>, c: char, s: Seq<char>)
    requires
        laws::is_word(w),
        chars::is_space(c),
    ensures
        secrets::words_masked(w + seq![c] + s, 0) == secrets::word_masked(w) + seq![c]
            + secrets::words_masked(s, 0),
        secrets::words_masked(seq![c] + s, 0) == seq![c] + secrets::words_masked(s, 0),
        secrets::words_masked(w, 0) == secrets::word_masked(w),
{
    let t = w + seq![c] + s;
    let n = w.len() as int;
    assert forall|i: int| 0 <= i < n implies !chars::is_space(#[trigger] t[i]) by {
        assert(t[i] == w[i]);
    }
    assert(t[n] == c);
    laws::lemma_word_end_run(t, 0, n);
    assert(!chars::is_space(t[0]));
    assert(t.subrange(0, n) =~= w);
    assert((w + seq![c]) + s =~= t);
    lemma_words_shift(w + seq![c], s, 0);
    assert(secrets::words_masked(t, n) == seq![c] + secrets::words_masked(t, n + 1));
    assert(secrets::word_masked(w) + (seq![c] + secrets::words_masked(s, 0))
        =~= secrets::word_masked(w) + seq![c] + secrets::words_masked(s, 0));
    lemma_words_shift(seq![c], s, 0);
    assert((seq![c] + s)[0] == c);
    laws::lemma_word_end_run(w, 0, n);
    assert(!chars::is_space(w[0]));
    assert(w.subrange(0, n) =~= w);
    assert(secrets::words_masked(w, n) =~= Seq::<char>::empty());
    assert(secrets::word_masked(w) + Seq::<char>::empty() =~= secrets::word_masked(w));
}

proof fn lemma_replace_nothing(s: Seq<char>, p: Seq<char>, by: Seq<char>, from: int)
    requires
        0 <= from <= s.len(),
        forall|j: int| from <= j ==> !find::occurs_at(s, p, j),
    ensures
        find::replaced_from(s, p, by, from) == s.subrange(from, s.len() as int),
    decreases s.len() - from,
{
    if from < s.len() && p.len() > 0 {
        lemma_replace_nothing(s, p, by, from + 1);
        assert(seq![s[from]] + s.subrange(from + 1, s.len() as int) =~= s.subrange(
            from,
            s.len() as int,
        ));
    }
}

proof fn lemma_replace_shift(a: Seq<char>, s: Seq<char>, p: Seq<char>, by: Seq<char>, i: int)
    requires
        0 <= i <= s.len(),
        p.len() > 0,
    ensures
        find::replaced_from(a + s, p, by, a.len() + i) == find::replaced_from(s, p, by, i),
    decreases s.len() - i,
{
    if i < s.len() {
        assert((a + s)[a.len() + i] == s[i]);
        if i + p.len() <= s.len() {
            assert((a + s).subrange(a.len() + i, a.len() + i + p.len()) =~= s.subrange(
                i,
                i + p.len(),
            ));
        }
        if find::occurs_at(s, p, i) {
            lemma_replace_shift(a, s, p, by, i + p.len());
        } else {
            lemma_replace_shift(a, s, p, by, i + 1);
        }
    } else {
        assert((a + s).subrange(a.len() + i, (a + s).len() as int) =~= s.subrange(
            i,
            s.len() as int,
        ));
    }
}

proof fn lemma_replace_skips(s: Seq<char>, p: Seq<char>, by: Seq<char>, from: int, to: int)
    requires
        0 <= from <= to < s.len(),
        p.len() > 0,
        forall|j: int| from <= j < to ==> !find::occurs_at(s, p, j),
    ensures
        find::replaced_from(s, p, by, from) == s.subrange(from, to) + find::replaced_from(
            s,
            p,
            by,
            to,
        ),
    decreases to - from,
{
    if from < to {
        lemma_replace_skips(s, p, by, from + 1, to);
        let rest = find::replaced_from(s, p, by, to);
        assert(seq![s[from]] + (s.subrange(from + 1, to) + rest) =~= s.subrange(from, to) + rest);
    } else {
        assert(s.subrange(from, to) + find::replaced_from(s, p, by, to) =~= find::replaced_from(
            s,
            p,
            by,
            to,
        ));
    }
}

/// Every place where a text stands is replaced, from the first on, and what stands between
/// these places stays; a text that it does not occur in stays as it is.
pub proof fn law_replacing(a: Seq<char>, p: Seq<char>, b: Seq<char>, by: Seq<char>)
    requires
        p.len() > 0,
        forall|j: int| 0 <= j < a.len() ==> !find::occurs_at(a + p + b, p, j),
    ensures
        find::replaced_from(a + p + b, p, by, 0) == a + by + find::replaced_from(b, p, by, 0),
        !find::has_text(b, p) ==> find::replaced_from(b, p, by, 0) == b,
{
    let s = a + p + b;
    let n = a.len() as int;
    lemma_replace_skips(s, p, by, 0, n);
    assert(s.subrange(0, n) =~= a);
    assert(s.subrange(n, n + p.len()) =~= p);
    assert(find::occurs_at(s, p, n));
    assert((a + p) + b =~= s);
    lemma_replace_shift(a + p, b, p, by, 0);
    assert(a + (by + find::replaced_from(b, p, by, 0)) =~= a + by + find::replaced_from(
        b,
        p,
        by,
        0,
    ));
    if !find::has_text(b, p) {
        lemma_replace_nothing(b, p, by, 0);
        assert(b.subrange(0, b.len() as int) =~= b);
    }
}

/// The value of a secret variable is replaced by the name of the variable where it stands,
/// unless it is shorter than four bytes.
pub proof fn law_secret_values_are_masked(
    a: Seq<char>,
    key: Seq<char>,
    value: Seq<char>,
    b: Seq<char>,
)
    requires
        find::trimmed(value) == value,
        bytes::byte_len(value) >= 4,
        value.len() > 0,
        forall|j: int| 0 <= j < a.len() ==> !find::occurs_at(a + value + b, value, j),
        !find::has_text(b, value),
    ensures
        secrets::value_masked(a + value + b, key, value) == a + ("[REDACTED:"@ + key + "]"@) + b,
        secrets::value_masked(b, key, value) == b,
{
    let s = a + value + b;
    assert(s.subrange(a.len() as int, a.len() as int + value.len()) =~= value);
    assert(find::occurs_at(s, value, a.len() as int));
    law_replacing(a, value, b, "[REDACTED:"@ + key + "]"@);
}

/// The values of all secret variables are masked, one after the other.
pub proof fn law_all_secret_values_are_masked(
    text: Seq<char>,
    a: Seq<(Seq<char>, Seq<char>)>,
    b: Seq<(Seq<char>, Seq<char>)>,
    key: Seq<char>,
    value: Seq<char>,
)
    ensures
        secrets::values_masked(text, a + b) == secrets::values_masked(
            secrets::values_masked(text, a),
            b,
        ),
        secrets::values_masked(text, seq![(key, value)]) == secrets::value_masked(
            text,
            key,
            value,
        ),
        bytes::byte_len(find::trimmed(value)) < 4 ==> secrets::value_masked(text, key, value)
            == text,
    decreases b.len(),
{
    let one = seq![(key, value)];
    assert(one.drop_last() =~= Seq::empty());
    assert(secrets::values_masked(text, one.drop_last()) == text);
    if b.len() == 0 {
        assert(a + b =~= a);
    } else {
        assert((a + b).drop_last() =~= a + b.drop_last());
        assert((a + b).last() == b.last());
        law_all_secret_values_are_masked(text, a, b.drop_last(), key, value);
    }
}

/// Every line that holds a marker loses what stands behind its first equals sign, or else its
/// first colon; a line without a marker stays.
pub proof fn law_marked_lines_lose_their_values(key: Seq<char>, value: Seq<char>, line: Seq<char>)
    ensures
        !key.contains('=') && secrets::has_marker(key + seq!['='] + value)
            ==> secrets::marked_line_masked(key + seq!['='] + value) == key + "=[REDACTED]"@,
        !key.contains(':') && !(key + seq![':'] + value).contains('=') && secrets::has_marker(
            key + seq![':'] + value,
        ) ==> secrets::marked_line_masked(key + seq![':'] + value) == key + ": [REDACTED]"@,
        !secrets::has_marker(line) ==> secrets::marked_line_masked(line) == line,
{
    if !key.contains('=') {
        laws::law_cut_at_first(key, '=', value);
    }
    if !key.contains(':') && !(key + seq![':'] + value).contains('=') {
        laws::law_cut_at_first(key, ':', value);
        laws::law_cut_at_first(key + seq![':'] + value, '=', Seq::empty());
    }
}

proof fn lemma_ending_is_secret(name: Seq<char>, ending: Seq<char>, i: int)
    requires
        0 <= i < secrets::marker_endings().len(),
        secrets::marker_endings()[i] == ending,
        ending.len() > 0,
        chars::lowercase(ending) == ending,
        !chars::is_space(ending.last()),
        !chars::is_space((name + ending).first()),
    ensures
        secrets::is_secret_key(name + ending),
{
    let key = name + ending;
    let e = Seq::<char>::empty();
    assert(e + key + e =~= key);
    laws::law_trimming_removes_what_is_around(e, key, e);
    let l = chars::lowercase(key);
    assert(l.subrange(l.len() - ending.len(), l.len() as int) =~= chars::lowercase(ending));
    assert(find::has_suffix(l, secrets::marker_endings()[i]));
}

/// A name that ends like a token, a key, a password or a secret is a secret one, in letters of
/// any case in front.
pub proof fn law_secret_endings(name: Seq<char>)
    requires
        name.len() > 0,
        !chars::is_space(name.first()),
    ensures
        secrets::is_secret_key(name + "_token"@),
        secrets::is_secret_key(name + "_api_key"@),
        secrets::is_secret_key(name + "_password"@),
        secrets::is_secret_key(name + "_secret"@),
{
    reveal_strlit("_token");
    reveal_strlit("_api_key");
    reveal_strlit("_password");
    reveal_strlit("_secret");
    assert(chars::lowercase("_token"@) =~= "_token"@);
    assert(chars::lowercase("_api_key"@) =~= "_api_key"@);
    assert(chars::lowercase("_password"@) =~= "_password"@);
    assert(chars::lowercase("_secret"@) =~= "_secret"@);
    lemma_ending_is_secret(name, "_token"@, 0);
    lemma_ending_is_secret(name, "_api_key"@, 1);
    lemma_ending_is_secret(name, "_password"@, 3);
    lemma_ending_is_secret(name, "_secret"@, 4);
}

/// The variables that are known to hold secrets are secret, in letters of any case.
pub proof fn law_secret_variables(key: Seq<char>, i: int)
    requires
        0 <= i < secrets::secret_variables().len(),
        chars::lowercase(key) == chars::lowercase(secrets::secret_variables()[i]),
    ensures
        secrets::is_secret_key(key),
{
}

/// Masking keeps the shape of a value: what is no text stays, lists and objects keep their
/// lengths and objects their names.
pub proof fn law_masking_keeps_the_shape(
    m: Masking,
    items: Seq<JsonView>,
    fields: Seq<(Seq<char>, JsonView)>,
    env: Seq<(Seq<char>, Seq<char>)>,
    i: int,
)
    ensures
        0 <= i < items.len() ==> {
            let after = secrets::masked_json(m, JsonView::List(items), env);
            &&& after is List
            &&& after->List_0.len() == items.len()
            &&& after->List_0[i] == secrets::masked_json(m, items[i], env)
        },
        0 <= i < fields.len() ==> {
            let after = secrets::masked_json(m, JsonView::Object(fields), env);
            &&& after is Object
            &&& after->Object_0.len() == fields.len()
            &&& after->Object_0[i].0 == fields[i].0
            &&& !secrets::is_secret_key(fields[i].0) || m == Masking::Lines
                ==> after->Object_0[i].1 == secrets::masked_json(m, fields[i].1, env)
        },
        secrets::masked_json(m, JsonView::Null, env) == JsonView::Null,
        secrets::masked_json(m, JsonView::Bool(true), env) == JsonView::Bool(true),
{
}

/// A masked report has as many failures at the same places as the report.
pub proof fn law_masked_reports_keep_places(
    r: ReportView,
    env: Seq<(Seq<char>, Seq<char>)>,
    i: int,
)
    requires
        0 <= i < r.failures.len(),
    ensures
        ({
            let m = failures::report_masked(r, env);
            &&& m.command == r.command
            &&& m.stage == r.stage
            &&& m.failures.len() == r.failures.len()
            &&& m.failures[i].target.line == r.failures[i].target.line
            &&& m.failures[i].target.column == r.failures[i].target.column
            &&& m.failures[i].target.file_path is Some <==> r.failures[i].target.file_path is Some
        }),
{
}

/// A command line is allowed exactly if it holds a command, does not compose several, and runs
/// a known verifier; then its words are those of the line.
pub proof fn law_allowed_commands(line: Seq<char>)
    ensures
        ({
            let s = find::trimmed(line);
            let words = command::command_words(s);
            &&& invocation::allowed_words(line) is Ok <==> s.len() > 0 && !command::composes(s)
                && words.len() > 0 && command::verifier_kind(words) != VerifierCommandKind::Unknown
            &&& invocation::allowed_words(line) matches Ok(w) ==> w == words
        }),
{
}

/// The assignments in front of a command are all taken, in their order, up to the first word
/// that is none.
pub proof fn law_assignments_are_taken(parts: Seq<Seq<char>>, i: int, e: EnvChange)
    requires
        0 <= i <= parts.len(),
    ensures
        ({
            let r = invocation::assignments(parts, i, e);
            &&& i <= r.1 <= parts.len()
            &&& forall|k: int| i <= k < r.1 ==> command::assigns_env(#[trigger] parts[k])
            &&& r.1 < parts.len() ==> !command::assigns_env(parts[r.1])
            &&& r.0.set.len() == e.set.len() + (r.1 - i)
            &&& r.0.set.take(e.set.len() as int) == e.set
            &&& forall|k: int|
                i <= k < r.1 ==> r.0.set[e.set.len() + k - i] == split::cut_at(
                    #[trigger] parts[k],
                    '=',
                )->Some_0
            &&& r.0.remove == e.remove
            &&& r.0.clear == e.clear
        }),
    decreases parts.len() - i,
{
    let r = invocation::assignments(parts, i, e);
    if i < parts.len() && command::assigns_env(parts[i]) {
        let next = invocation::assigning(e, parts[i]);
        law_assignments_are_taken(parts, i + 1, next);
        assert(r.0.set.take(next.set.len() as int)[e.set.len() as int] == next.set.last());
        assert(r.0.set.take(e.set.len() as int) =~= e.set) by {
            assert forall|k: int| 0 <= k < e.set.len() implies r.0.set[k] == e.set[k] by {
                assert(r.0.set.take(next.set.len() as int)[k] == next.set[k]);
            }
        }
        assert forall|k: int| i <= k < r.1 implies r.0.set[e.set.len() + k - i] == split::cut_at(
            #[trigger] parts[k],
            '=',
        )->Some_0 by {
            if k > i {
                assert(r.0.set[next.set.len() + k - (i + 1)] == split::cut_at(
                    parts[k],
                    '=',
                )->Some_0);
            }
        }
    } else {
        assert(e.set.take(e.set.len() as int) =~= e.set);
    }
}

/// Whether a change holds all that another holds, in front of what it adds.
pub open spec fn adds_to(e: EnvChange, more: EnvChange) -> bool {
    &&& e.clear ==> more.clear
    &&& e.set.is_prefix_of(more.set)
    &&& e.remove.is_prefix_of(more.remove)
}

/// The options of `env` only add to what was changed before, and what it runs stands behind
/// them.
pub proof fn law_env_options_add_up(parts: Seq<Seq<char>>, i: int, e: EnvChange)
    requires
        0 <= i <= parts.len(),
    ensures
        invocation::wrapper(parts, i, e) matches Ok(r) ==> adds_to(e, r.0) && i <= r.1,
    decreases parts.len() - i,
{
    if i < parts.len() {
        let part = parts[i];
        law_env_options_add_up(parts, i + 1, EnvChange { clear: true, ..e });
        law_env_options_add_up(parts, i + 1, e);
        if command::assigns_env(part) {
            law_env_options_add_up(parts, i + 1, invocation::assigning(e, part));
        }
        law_env_options_add_up(
            parts,
            i + 1,
            invocation::removing(e, split::cut_at(part, '=')->Some_0.1),
        );
        if i + 1 < parts.len() {
            law_env_options_add_up(parts, i + 2, invocation::removing(e, parts[i + 1]));
            law_env_options_add_up(parts, i + 2, e);
        }
    }
}

/// Clearing the environment, or taking a variable out of it, is noted whatever follows.
pub proof fn law_env_options_are_noted(parts: Seq<Seq<char>>, i: int, e: EnvChange)
    requires
        0 <= i < parts.len(),
    ensures
        invocation::wrapper(parts, i, e) matches Ok(r) ==> {
            &&& parts[i] == "-i"@ ==> r.0.clear
            &&& parts[i] == "-u"@ ==> i + 1 < parts.len() && r.0.remove.contains(parts[i + 1])
        },
{
    reveal_strlit("-i");
    reveal_strlit("-u");
    reveal_strlit("--");
    reveal_strlit("--unset=");
    reveal_strlit("--ignore-environment");
    assert("-i"@[1] == 'i' && "--"@[1] == '-' && "-u"@[1] == 'u');
    assert(!"-u"@.contains('='));
    laws::law_cut_at_first("-u"@, '=', Seq::empty());
    assert("--ignore-environment"@.len() == 20 && "-u"@.len() == 2);
    assert(command::env_arity("-u"@) == Some(true));
    if parts[i] == "-i"@ {
        law_env_options_add_up(parts, i + 1, EnvChange { clear: true, ..e });
    }
    if parts[i] == "-u"@ && i + 1 < parts.len() {
        let next = invocation::removing(e, parts[i + 1]);
        law_env_options_add_up(parts, i + 2, next);
        assert(next.remove[e.remove.len() as int] == parts[i + 1]);
        if let Ok(r) = invocation::wrapper(parts, i + 2, next) {
            assert(r.0.remove[e.remove.len() as int] == next.remove[e.remove.len() as int]);
        }
    }
}

/// Variables are added for the mode exactly if the command neither sets nor removes them.
pub proof fn law_untouched_variables(vars: Seq<(Seq<char>, Seq<char>)>, e: EnvChange)
    ensures
        invocation::untouched(vars, e) == vars.filter(
            |v: (Seq<char>, Seq<char>)| !invocation::touches(e, v.0),
        ),
    decreases vars.len(),
{
    reveal(Seq::filter);
    if vars.len() > 0 {
        law_untouched_variables(vars.drop_last(), e);
    }
}

/// Whether a setting is among the given ones.
pub open spec fn is_among(s: Seq<(Seq<char>, Seq<char>)>, x: (Seq<char>, Seq<char>)) -> bool {
    exists|k: int| 0 <= k < s.len() && #[trigger] s[k] == x
}

/// Of several settings of one variable the last counts, and no other setting is lost.
pub proof fn law_last_settings_count(set: Seq<(Seq<char>, Seq<char>)>, n: int, i: int)
    requires
        0 <= i < n <= set.len(),
    ensures
        !policy::is_set_again(set, i) ==> is_among(policy::last_settings(set, n), set[i]),
        forall|k: int|
            0 <= k < policy::last_settings(set, n).len() ==> exists|j: int|
                0 <= j < n && #[trigger] set[j] == #[trigger] policy::last_settings(set, n)[k]
                    && !policy::is_set_again(set, j),
    decreases n,
{
    let all = policy::last_settings(set, n);
    let front = policy::last_settings(set, n - 1);
    if n - 1 > 0 {
        law_last_settings_count(
            set,
            n - 1,
            if i < n - 1 {
                i
            } else {
                0
            },
        );
    } else {
        assert(front =~= Seq::empty());
    }
    if !policy::is_set_again(set, i) {
        if i < n - 1 {
            let k = choose|k: int| 0 <= k < front.len() && #[trigger] front[k] == set[i];
            assert(all[k] == set[i]);
        } else {
            assert(all[front.len() as int] == set[i]);
        }
    }
    assert forall|k: int| 0 <= k < all.len() implies exists|j: int|
        0 <= j < n && #[trigger] set[j] == #[trigger] all[k] && !policy::is_set_again(set, j) by {
        if k < front.len() {
            assert(all[k] == front[k]);
            let j = choose|j: int|
                0 <= j < n - 1 && #[trigger] set[j] == front[k] && !policy::is_set_again(set, j);
            assert(set[j] == all[k]);
        } else {
            assert(set[n - 1] == all[k]);
        }
    }
}

/// Walking a path is walking its first part and then the rest from there; stepping into a
/// directory and up again leads back, and no path leads above the root.
pub proof fn law_walking(
    start: Seq<Seq<char>>,
    a: Seq<Seq<char>>,
    b: Seq<Seq<char>>,
    name: Seq<char>,
)
    requires
        name != ".."@,
    ensures
        workspace::walked(start, a + b) == (match workspace::walked(start, a) {
            Some(at) => workspace::walked(at, b),
            None => None,
        }),
        workspace::walked(start, seq![name]) == Some(start.push(name)),
        workspace::walked(start, seq![name, ".."@]) == Some(start),
        workspace::walked(Seq::empty(), seq![".."@]) is None,
    decreases b.len(),
{
    let one = seq![name];
    let two = seq![name, ".."@];
    let up = seq![".."@];
    assert(one.drop_last() =~= Seq::empty());
    assert(up.drop_last() =~= Seq::empty());
    assert(two.drop_last() =~= one);
    assert(workspace::walked(start, one.drop_last()) == Some(start));
    assert(workspace::walked(start, one) == Some(start.push(name)));
    assert(start.push(name).drop_last() =~= start);
    assert(workspace::walked(Seq::empty(), up.drop_last()) == Some(Seq::<Seq<char>>::empty()));
    if b.len() == 0 {
        assert(a + b =~= a);
    } else {
        assert((a + b).drop_last() =~= a + b.drop_last());
        assert((a + b).last() == b.last());
        law_walking(start, a, b.drop_last(), name);
    }
}

/// What is at or below a directory is the directory and what its name and a slash begin.
pub proof fn law_at_or_below(dir: Seq<char>, name: Seq<char>, c: char)
    requires
        c != '/',
    ensures
        workspace::at_or_below(dir, dir),
        workspace::at_or_below(dir + "/"@ + name, dir),
        !workspace::at_or_below(dir + seq![c] + name, dir),
{
    reveal_strlit("/");
    let below = dir + "/"@ + name;
    assert(below.subrange(0, (dir + "/"@).len() as int) =~= dir + "/"@);
    let beside = dir + seq![c] + name;
    if workspace::at_or_below(beside, dir) {
        assert(beside.len() > dir.len());
        assert(beside.subrange(0, (dir + "/"@).len() as int)[dir.len() as int] == c);
        assert((dir + "/"@)[dir.len() as int] == '/');
    }
}

/// A match that is written as path, line, column and text is read as these.
pub proof fn law_matches_read_back(
    path: Seq<char>,
    line: nat,
    column: nat,
    text: Seq<char>,
    root: Seq<char>,
    max: nat,
)
    requires
        !path.contains(':'),
        line <= max,
        column <= max,
    ensures
        workspace::match_of(
            path + seq![':'] + (number::decimal(line) + seq![':'] + (number::decimal(column)
                + seq![':'] + text)),
            root,
            max,
        ) == Some(
            MatchView {
                path: workspace::below(root, path),
                line,
                column: Some(column),
                text,
            },
        ),
{
    let l = number::decimal(line);
    let c = number::decimal(column);
    number::lemma_decimal(line);
    number::lemma_decimal(column);
    number::law_decimal_reads_back(line, max);
    number::law_decimal_reads_back(column, max);
    lemma_digits_hold_no_colon(l);
    lemma_digits_hold_no_colon(c);
    laws::law_cut_at_first(c, ':', text);
    laws::law_cut_at_first(l, ':', c + seq![':'] + text);
    laws::law_cut_at_first(path, ':', l + seq![':'] + (c + seq![':'] + text));
}

proof fn lemma_digits_hold_no_colon(s: Seq<char>)
    requires
        number::all_digits(s),
    ensures
        !s.contains(':'),
{
    if s.contains(':') {
        let i = choose|i: int| 0 <= i < s.len() && s[i] == ':';
        assert(chars::is_digit(s[i]));
    }
}

proof fn lemma_spans_shift(a: Seq<char>, s: Seq<char>, i: int)
    requires
        0 <= i <= s.len(),
    ensures
        workspace::spans_from(a + s, a.len() + i).len() == workspace::spans_from(s, i).len(),
        forall|k: int|
            0 <= k < workspace::spans_from(s, i).len() ==> #[trigger] workspace::spans_from(
                a + s,
                a.len() + i,
            )[k] == (
                a.len() + workspace::spans_from(s, i)[k].0,
                a.len() + workspace::spans_from(s, i)[k].1,
            ),
    decreases s.len() - i,
{
    if i < s.len() {
        let t = a + s;
        let n = a.len() as int;
        assert(t[n + i] == s[i]);
        if s[i] == '/' {
            lemma_spans_shift(a, s, i + 1);
        } else {
            let e = workspace::part_end(s, i);
            laws::lemma_index_shift(a, s, '/', i);
            find::lemma_index_from(s, '/', i);
            assert(workspace::part_end(t, n + i) == n + e);
            assert(i < e <= s.len());
            lemma_spans_shift(a, s, e);
            assert(t.subrange(n + i, n + e) =~= s.subrange(i, e));
            let x = workspace::spans_from(s, i);
            let y = workspace::spans_from(t, n + i);
            assert forall|k: int| 0 <= k < x.len() implies #[trigger] y[k] == (
                n + x[k].0,
                n + x[k].1,
            ) by {
                if s.subrange(i, e) != "."@ && k > 0 {
                    assert(y[k] == workspace::spans_from(t, n + e)[k - 1]);
                    assert(x[k] == workspace::spans_from(s, e)[k - 1]);
                }
            }
        }
    }
}

proof fn lemma_spans_bounds(s: Seq<char>, i: int)
    requires
        0 <= i <= s.len(),
    ensures
        forall|k: int|
            0 <= k < workspace::spans_from(s, i).len() ==> 0 <= (#[trigger] workspace::spans_from(
                s,
                i,
            )[k]).0 <= workspace::spans_from(s, i)[k].1 <= s.len(),
    decreases s.len() - i,
{
    let x = workspace::spans_from(s, i);
    if i < s.len() {
        let e = workspace::part_end(s, i);
        find::lemma_index_from(s, '/', i);
        lemma_spans_bounds(s, i + 1);
        if s[i] != '/' {
            assert(i < e <= s.len());
            lemma_spans_bounds(s, e);
        }
        assert forall|k: int| 0 <= k < x.len() implies 0 <= (#[trigger] x[k]).0 <= x[k].1
            <= s.len() by {
            if s[i] == '/' {
                assert(x[k] == workspace::spans_from(s, i + 1)[k]);
            } else if s.subrange(i, e) == "."@ {
                assert(x[k] == workspace::spans_from(s, e)[k]);
            } else if k > 0 {
                assert(x[k] == workspace::spans_from(s, e)[k - 1]);
            }
        }
    }
}

/// The first name of a path is what stands in front of its first slash, and the others are
/// those of what follows; names of one dot, and slashes in a row, mean nothing.
pub proof fn law_path_parts_come_one_by_one(name: Seq<char>, s: Seq<char>)
    requires
        name.len() > 0,
        !name.contains('/'),
    ensures
        name != "."@ ==> workspace::parts_of(name + seq!['/'] + s) == seq![name]
            + workspace::parts_of(s),
        name == "."@ ==> workspace::parts_of(name + seq!['/'] + s) == workspace::parts_of(s),
        workspace::parts_of(seq!['/'] + s) == workspace::parts_of(s),
        name != "."@ ==> workspace::parts_of(name) == seq![name],
{
    let t = name + seq!['/'] + s;
    let n = name.len() as int;
    let front = name + seq!['/'];
    assert(front + s =~= t);
    laws::lemma_first_index(name, '/', s, 0);
    assert(t.subrange(0, n) =~= name);
    assert(t[0] == name[0]);
    assert(name.contains(name[0]));
    assert(t[n] == '/');
    lemma_spans_shift(front, s, 0);
    lemma_spans_bounds(s, 0);
    let x = workspace::spans_from(s, 0);
    let y = workspace::spans_from(t, n + 1);
    assert(workspace::spans_from(t, n) == y);
    assert forall|k: int| 0 <= k < x.len() implies t.subrange(
        (#[trigger] y[k]).0,
        y[k].1,
    ) =~= s.subrange(x[k].0, x[k].1) by {}
    if name != "."@ {
        assert(workspace::parts_of(t) =~= seq![name] + workspace::parts_of(s));
    } else {
        assert(workspace::parts_of(t) =~= workspace::parts_of(s));
    }
    let one = seq!['/'] + s;
    lemma_spans_shift(seq!['/'], s, 0);
    assert(one[0] == '/');
    let z = workspace::spans_from(one, 1);
    assert(workspace::spans_from(one, 0) == z);
    assert forall|k: int| 0 <= k < x.len() implies one.subrange(
        (#[trigger] z[k]).0,
        z[k].1,
    ) =~= s.subrange(x[k].0, x[k].1) by {}
    assert(workspace::parts_of(one) =~= workspace::parts_of(s));
    find::lemma_index_from(name, '/', 0);
    assert(name.subrange(0, n) =~= name);
    assert(workspace::spans_from(name, n) =~= Seq::<(int, int)>::empty());
    if name != "."@ {
        assert(workspace::parts_of(name) =~= seq![name]);
    }
}

/// The extension of a file is what stands behind the last dot of its name, if anything stands
/// in front of that dot.
pub proof fn law_extensions(stem: Seq<char>, ext: Seq<char>)
    requires
        stem.len() > 0,
        !stem.contains('/'),
        !ext.contains('/'),
        !ext.contains('.'),
        stem + seq!['.'] + ext != ".."@,
    ensures
        workspace::extension_of(stem + seq!['.'] + ext) == Some(ext),
        stem != "."@ && stem != ".."@ && !stem.contains('.') ==> workspace::extension_of(
            stem,
        ) is None,
{
    reveal_strlit(".");
    let name = stem + seq!['.'] + ext;
    assert(name.len() > 1);
    assert(!name.contains('/')) by {
        if name.contains('/') {
            let i = choose|i: int| 0 <= i < name.len() && name[i] == '/';
            if i < stem.len() {
                assert(stem[i] == '/');
            } else if i > stem.len() {
                assert(ext[i - stem.len() - 1] == '/');
            }
        }
    }
    assert(name != "."@);
    law_path_parts_come_one_by_one(name, Seq::empty());
    laws::law_cut_at_last(stem, '.', ext);
    if stem != "."@ && stem != ".."@ && !stem.contains('.') {
        law_path_parts_come_one_by_one(stem, Seq::empty());
        laws::law_cut_at_last(stem, '.', stem);
    }
}

/// A text that fits is shown whole; of a longer one its beginning is shown, and that more
/// follows.
pub proof fn law_truncated_texts(s: Seq<char>, max: nat)
    ensures
        s.len() <= max ==> grounding::truncated(s, max) == s,
        s.len() > max ==> {
            &&& grounding::truncated(s, max).take(max as int) == s.take(max as int)
            &&& grounding::truncated(s, max).skip(max as int) == "..."@
        },
{
    if s.len() > max {
        let t = grounding::truncated(s, max);
        assert(t.take(max as int) =~= s.take(max as int));
        assert(t.skip(max as int) =~= "..."@);
    }
}

/// The commands of the verifier are the tests and the lint, each if it is wanted and filled.
pub proof fn law_verifier_commands(test_on: bool, test: Seq<char>, lint_on: bool, lint: Seq<char>)
    ensures
        ({
            let c = grounding::commands(test_on, test, lint_on, lint);
            let a = test_on && find::trimmed(test).len() > 0;
            let b = lint_on && find::trimmed(lint).len() > 0;
            &&& c.len() == (if a {
                1int
            } else {
                0
            }) + (if b {
                1int
            } else {
                0
            })
            &&& a ==> c.first() == find::trimmed(test)
            &&& b ==> c.last() == find::trimmed(lint)
        }),
{
}

/// The calls of all rounds are gathered in their order, and each is told in a line of its own.
pub proof fn law_calls_are_gathered(
    a: Seq<RoundView>,
    b: Seq<RoundView>,
    x: Seq<CallView>,
    y: Seq<CallView>,
)
    ensures
        grounding::all_calls(a + b) == grounding::all_calls(a) + grounding::all_calls(b),
        grounding::call_lines(x + y) == grounding::call_lines(x) + grounding::call_lines(y),
{
    lemma_all_calls(a, b);
    lemma_call_lines(x, y);
}

proof fn lemma_all_calls(a: Seq<RoundView>, b: Seq<RoundView>)
    ensures
        grounding::all_calls(a + b) == grounding::all_calls(a) + grounding::all_calls(b),
    decreases b.len(),
{
    let x = grounding::all_calls(a);
    if b.len() == 0 {
        assert(a + b =~= a);
        assert(x + grounding::all_calls(b) =~= x);
    } else {
        assert((a + b).drop_last() =~= a + b.drop_last());
        assert((a + b).last() == b.last());
        lemma_all_calls(a, b.drop_last());
        let y = grounding::all_calls(b.drop_last());
        assert((x + y) + b.last().calls =~= x + (y + b.last().calls));
    }
}

proof fn lemma_call_lines(a: Seq<CallView>, b: Seq<CallView>)
    ensures
        grounding::call_lines(a + b) == grounding::call_lines(a) + grounding::call_lines(b),
    decreases b.len(),
{
    let x = grounding::call_lines(a);
    if b.len() == 0 {
        assert(a + b =~= a);
        assert(x + grounding::call_lines(b) =~= x);
    } else {
        assert((a + b).drop_last() =~= a + b.drop_last());
        assert((a + b).last() == b.last());
        lemma_call_lines(a, b.drop_last());
        let y = grounding::call_lines(b.drop_last());
        let l = grounding::call_line(b.last());
        assert((x + y) + l =~= x + (y + l));
    }
}

/// Notes are taken of every round, one after the other.
pub proof fn law_rounds_are_noted(a: Seq<RoundView>, b: Seq<RoundView>)
    ensures
        grounding::round_notes(a + b) == grounding::round_notes(a) + grounding::round_notes(b),
    decreases b.len(),
{
    let x = grounding::round_notes(a);
    if b.len() == 0 {
        assert(a + b =~= a);
        assert(x + grounding::round_notes(b) =~= x);
    } else {
        assert((a + b).drop_last() =~= a + b.drop_last());
        assert((a + b).last() == b.last());
        law_rounds_are_noted(a, b.drop_last());
        let y = grounding::round_notes(b.drop_last());
        let own = grounding::round_notes(b).skip(y.len() as int);
        assert(grounding::round_notes(b) =~= y + own);
        assert(grounding::round_notes(a + b) =~= (x + y) + own);
        assert((x + y) + own =~= x + (y + own));
    }
}

/// As many calls are granted as are asked for, as long as there are any left.
pub proof fn law_granted_calls(s: RunView, requested: nat)
    requires
        grounding::keeps_limits(s),
    ensures
        grounding::granted(s, requested) <= requested,
        s.used + grounding::granted(s, requested) <= 6,
        grounding::granted(s, requested) == requested || s.used + grounding::granted(s, requested)
            == 6,
{
}

/// An answer adds its round, its calls and its usage to those before, and ends the gathering if
/// it asks for nothing.
pub proof fn law_answers_add_up(
    s: RunView,
    said: Seq<char>,
    requested: nat,
    calls: Seq<CallView>,
    usage: ApiUsage,
)
    requires
        grounding::usage_fits(s.usage, usage),
    ensures
        ({
            let after = grounding::answered(s, said, requested, calls, usage);
            &&& after.used == s.used + calls.len()
            &&& after.rounds.drop_last() == s.rounds
            &&& after.rounds.last().said == said
            &&& after.rounds.last().calls == calls
            &&& after.usage.tokens_used == s.usage.tokens_used + usage.tokens_used
            &&& after.usage.cost_nanos == s.usage.cost_nanos + usage.cost_nanos
            &&& requested == 0 ==> after.finished
            &&& requested > 0 && after.used < 6 && s.asked == 0 ==> !after.finished
        }),
{
    let after = grounding::answered(s, said, requested, calls, usage);
    assert(after.rounds.drop_last() =~= s.rounds);
}

/// A tool is asked for what its name says, and refused where an argument that it needs is
/// missing, where a path leads out of the workspace, or where the name is none of the tools.
pub proof fn law_tool_requests(c: ContextView, name: Seq<char>, args: ArgsView)
    ensures
        tools::request(c, "read_file"@, args) is Ok <==> args.path is Some && tools::in_workspace(
            c,
            args.path.unwrap(),
        ) is Ok,
        tools::request(c, "read_file"@, args) matches Ok(r) ==> r is ReadFile,
        tools::request(c, "search_symbol"@, args) is Ok <==> args.query is Some,
        tools::request(c, "search_symbol"@, args) matches Ok(r) ==> r is SearchSymbol,
        tools::request(c, "apply_patch_temp"@, args) is Ok <==> args.path is Some
            && args.content is Some && tools::in_workspace(c, args.path.unwrap()) is Ok,
        tools::request(c, "apply_patch_temp"@, args) matches Ok(r) ==> r is ApplyPatch,
        tools::request(c, "rollback_candidate"@, args) is Ok,
        name != "read_file"@ && name != "search_symbol"@ && name != "run_tests"@ && name
            != "apply_patch_temp"@ && name != "git_diff"@ && name != "rollback_candidate"@
            ==> tools::request(c, name, args) is Err,
{
    reveal_strlit("read_file");
    reveal_strlit("search_symbol");
    reveal_strlit("run_tests");
    reveal_strlit("apply_patch_temp");
    reveal_strlit("git_diff");
    reveal_strlit("rollback_candidate");
    assert("read_file"@.len() == 9 && "search_symbol"@.len() == 13 && "run_tests"@.len() == 9);
    assert("read_file"@[1] == 'e' && "run_tests"@[1] == 'u');
    assert("apply_patch_temp"@.len() == 16 && "git_diff"@.len() == 8);
    assert("rollback_candidate"@.len() == 18);
}

/// Every line of a search that is a match is told, in order, up to the limit; no other is.
pub proof fn law_matches_are_told(ls: Seq<Seq<char>>, line: Seq<char>, root: Seq<char>)
    ensures
        ({
            let n = ls.len() as int;
            let after = tools::found(ls.push(line), n + 1, root);
            match workspace::match_of(line, root, usize::MAX as nat) {
                Some(m) => after == tools::found(ls, n, root).push(tools::match_json(m)),
                None => after == tools::found(ls, n, root),
            }
        }),
        tools::read_lines(ls.len()) == ls.len() || tools::read_lines(ls.len()) == 50,
        tools::read_lines(ls.len()) <= ls.len(),
        ls.len() <= 50 ==> tools::read_lines(ls.len()) == ls.len(),
{
    lemma_found_front(ls, ls.push(line), ls.len() as int, root);
}

proof fn lemma_found_front(a: Seq<Seq<char>>, b: Seq<Seq<char>>, n: int, root: Seq<char>)
    requires
        n <= a.len(),
        n <= b.len(),
        forall|i: int| 0 <= i < n ==> a[i] == b[i],
    ensures
        tools::found(a, n, root) == tools::found(b, n, root),
    decreases n,
{
    if n > 0 {
        lemma_found_front(a, b, n - 1, root);
    }
}

/// A text is masked line by line, and keeps the line feed at its end.
pub proof fn law_texts_are_masked_line_by_line(m: Masking, ls: Seq<Seq<char>>)
    requires
        ls.len() > 0,
        forall|i: int|
            0 <= i < ls.len() ==> !(#[trigger] ls[i]).contains('\n') && !ls[i].contains('\r'),
        ls.last().len() > 0,
    ensures
        ({
            let env = Seq::<(Seq<char>, Seq<char>)>::empty();
            let text = split::joined(ls, seq!['\n']);
            let out = split::joined(secrets::masked_lines(m, ls), seq!['\n']);
            &&& secrets::masked(m, text, env) == out
            &&& secrets::masked(m, text + seq!['\n'], env) == out + seq!['\n'] || (
            find::has_suffix(out, seq!['\n']) && secrets::masked(m, text + seq!['\n'], env) == out)
        }),
{
    reveal_strlit("\n");
    assert("\n"@ =~= seq!['\n']);
    let env = Seq::<(Seq<char>, Seq<char>)>::empty();
    let text = split::joined(ls, seq!['\n']);
    laws::law_lines_undo_join(ls);
    assert(secrets::values_masked(text, env) == text);
    assert(secrets::values_masked(text + seq!['\n'], env) == text + seq!['\n']);
    let more = text + seq!['\n'];
    assert(more.subrange(more.len() - 1, more.len() as int) =~= seq!['\n']);
    assert(!find::has_suffix(text, seq!['\n'])) by {
        lemma_joined_last(ls);
        if find::has_suffix(text, seq!['\n']) {
            assert(text.subrange(text.len() - 1, text.len() as int)[0] == text.last());
            let last = ls[ls.len() - 1];
            assert(last.contains(last.last()));
        }
    }
}

proof fn lemma_joined_last(ls: Seq<Seq<char>>)
    requires
        ls.len() > 0,
        ls.last().len() > 0,
    ensures
        split::joined(ls, seq!['\n']).len() > 0,
        split::joined(ls, seq!['\n']).last() == ls.last().last(),
{
}

/// A flag is on for any of the words that say so, in letters of any case and with white space
/// around, and for no other.
pub proof fn law_flags(value: Seq<char>)
    ensures
        invocation::flag_on(Some(chars::lowercase(find::trimmed(value)))) == invocation::flag_on(
            Some(find::trimmed(value)),
        ),
        invocation::flag_on(Some(find::trimmed(value))) == invocation::flag_on(Some(value)),
        !invocation::flag_on(None),
        invocation::flag_on(Some("1"@)),
        invocation::flag_on(Some("true"@)),
        invocation::flag_on(Some("yes"@)),
        invocation::flag_on(Some("on"@)),
        !invocation::flag_on(Some("0"@)),
{
    reveal_strlit("1");
    reveal_strlit("0");
    reveal_strlit("true");
    reveal_strlit("yes");
    reveal_strlit("on");
    let t = find::trimmed(value);
    laws::law_blank_texts_trim_to_nothing(value);
    let l = chars::lowercase(t);
    assert(chars::lowercase(l) =~= l) by {
        assert forall|c: char| #[trigger] chars::lower(chars::lower(c)) == chars::lower(c) by {}
    }
    if l.len() > 0 {
        assert(l.first() == chars::lower(t.first()) && l.last() == chars::lower(t.last()));
    }
    lemma_tight(l);
    lemma_tight("1"@);
    lemma_tight("0"@);
    lemma_tight("true"@);
    lemma_tight("yes"@);
    lemma_tight("on"@);
    assert(chars::lowercase("1"@) =~= "1"@);
    assert(chars::lowercase("0"@) =~= "0"@);
    assert(chars::lowercase("true"@) =~= "true"@);
    assert(chars::lowercase("yes"@) =~= "yes"@);
    assert(chars::lowercase("on"@) =~= "on"@);
    assert("0"@[0] == '0' && "1"@[0] == '1');
}

proof fn lemma_tight(s: Seq<char>)
    requires
        s.len() > 0 ==> !chars::is_space(s.first()) && !chars::is_space(s.last()),
    ensures
        find::trimmed(s) == s,
{
    let e = Seq::<char>::empty();
    assert(e + s + e =~= s);
    laws::law_trimming_removes_what_is_around(e, s, e);
}

/// A path continues its root with one slash between them; an absolute path stands for itself.
pub proof fn law_paths_continue_their_root(root: Seq<char>, relative: Seq<char>)
    requires
        relative.len() > 0,
    ensures
        relative[0] == '/' ==> workspace::continued(root, relative) == relative,
        relative[0] != '/' && root.len() > 0 && root.last() != '/' ==> workspace::continued(
            root,
            relative,
        ) == root + seq!['/'] + relative,
        relative[0] != '/' && root.len() > 0 && root.last() == '/' ==> workspace::continued(
            root,
            relative,
        ) == root + relative,
{
    reveal_strlit("/");
    assert("/"@ =~= seq!['/']);
    if root.len() > 0 {
        let end = root.subrange(root.len() - 1, root.len() as int);
        assert(end[0] == root.last());
        if root.last() == '/' {
            assert(end =~= "/"@);
        }
    }
}

/// The variables that are added for a run are those of the mode that the command does not touch.
pub proof fn law_added_variables(c: ContextView, i: InvocationView, name: Seq<char>)
    ensures
        policy::injected_names(c, Some(i)).contains(name) ==> !invocation::touches(i.env, name)
            && exists|k: int|
            0 <= k < invocation::mode_variables(c.mode).len() && (
            #[trigger] invocation::mode_variables(c.mode)[k]).0 == name,
        policy::injected_names(c, None).len() == 0,
{
    let vars = invocation::mode_variables(c.mode);
    let kept = invocation::untouched(vars, i.env);
    let names = policy::injected_names(c, Some(i));
    if names.contains(name) {
        let k = choose|k: int| 0 <= k < names.len() && names[k] == name;
        invocation::law_commands_keep_their_environment(vars, i.env, k);
        lemma_untouched_from(vars, i.env, k);
    }
}

proof fn lemma_untouched_from(vars: Seq<(Seq<char>, Seq<char>)>, e: EnvChange, k: int)
    requires
        0 <= k < invocation::untouched(vars, e).len(),
    ensures
        exists|j: int|
            0 <= j < vars.len() && (#[trigger] vars[j]).0 == invocation::untouched(vars, e)[k].0,
    decreases vars.len(),
{
    let front = vars.drop_last();
    let before = invocation::untouched(front, e);
    if k < before.len() {
        lemma_untouched_from(front, e, k);
        let j = choose|j: int|
            0 <= j < front.len() && (#[trigger] front[j]).0 == before[k].0;
        assert(vars[j].0 == before[k].0);
    } else {
        assert(vars[vars.len() - 1].0 == invocation::untouched(vars, e)[k].0);
    }
}

/// A secret that a line gives behind a colon is masked up to the end of the line, however many
/// words it has.
pub proof fn law_secret_lines_are_masked_to_their_end(key: Seq<char>, w: Seq<char>)
    requires
        laws::is_word(key),
        secrets::is_secret_key(key),
        !key.contains(':'),
        !key.contains('='),
        laws::is_word(w),
        !w.contains('='),
        !w.contains(':'),
    ensures
        secrets::line_masked(key + seq![':'] + seq![' '] + w) == key + ": [REDACTED]"@,
{
    reveal_strlit(":[REDACTED]");
    let e = Seq::<char>::empty();
    let head = key + seq![':'];
    let line = head + seq![' '] + w;
    assert(forall|i: int| 0 <= i < head.len() ==> !chars::is_space(#[trigger] head[i])) by {
        assert forall|i: int| 0 <= i < head.len() implies !chars::is_space(#[trigger] head[i]) by {
            if i < key.len() {
                assert(head[i] == key[i]);
            }
        }
    }
    law_lines_are_masked_word_by_word(head, ' ', w);
    law_lines_are_masked_word_by_word(w, ' ', e);
    law_secrets_behind_colons_are_masked(key, e);
    assert(key + seq![':'] + e =~= head);
    secrets::law_other_words_stay(w);
    let words = secrets::words_masked(line, 0);
    assert(words == key + ":[REDACTED]"@ + seq![' '] + w);
    let rest = ":[REDACTED]"@.skip(1) + seq![' '] + w;
    assert(words =~= key + seq![':'] + rest);
    laws::law_cut_at_first(key, ':', rest);
    lemma_tight(key);
    assert(!line.contains('=')) by {
        if line.contains('=') {
            let i = choose|i: int| 0 <= i < line.len() && line[i] == '=';
            if i < key.len() {
                assert(key[i] == '=');
            } else if i > key.len() + 1 {
                assert(w[i - key.len() - 2] == '=');
            }
        }
    }
}

/// The settings of a command are shown by their names; those with secret names without their
/// values.
pub proof fn law_secret_settings_are_not_shown(c: ContextView, key: Seq<char>, value: Seq<char>)
    ensures
        policy::shown_setting(c, (key, value)).0 == key,
        secrets::is_secret_key(key) ==> policy::shown_setting(c, (key, value)).1 == JsonView::Text(
            "[REDACTED]"@,
        ),
        !secrets::is_secret_key(key) ==> policy::shown_setting(c, (key, value)).1
            == JsonView::Text(secrets::masked(Masking::Words, value, c.secrets)),
{
}

/// What grounding is asked holds the objective, the commands, the report and the evidence that
/// was gathered so far.
pub proof fn law_grounding_is_told_everything(
    description: Seq<char>,
    cmds: Seq<Seq<char>>,
    failure: Option<Seq<char>>,
    rounds: Seq<RoundView>,
    used: nat,
)
    ensures
        ({
            let asked = grounding::user_prompt(description, cmds, failure, rounds, used);
            &&& find::has_text(asked, find::trimmed(description))
            &&& find::has_text(asked, split::joined(grounding::dashed(cmds), "\n"@))
            &&& find::has_text(asked, number::decimal(used) + " of "@)
            &&& failure matches Some(f) ==> find::has_text(asked, f)
            &&& rounds.len() > 0 ==> find::has_text(asked, grounding::evidence(rounds))
        }),
{
    let asked = grounding::user_prompt(description, cmds, failure, rounds, used);
    let d = find::trimmed(description);
    let list = split::joined(grounding::dashed(cmds), "\n"@);
    let a = "Repair objective:\n"@;
    let b = a + d + "\n\nVerifier commands:\n"@;
    let c = b + list + "\n\nTool call budget already used: "@;
    let n = number::decimal(used) + " of "@;
    let g = c + n + number::decimal(6) + ".\n"@;
    lemma_stands(asked, d, a.len() as int);
    lemma_stands(asked, list, b.len() as int);
    lemma_stands(asked, n, c.len() as int);
    let report = match failure {
        Some(f) => "\nParsed failure report:\n"@ + f + "\n"@,
        None => Seq::<char>::empty(),
    };
    if let Some(f) = failure {
        let h = g + "\nParsed failure report:\n"@;
        lemma_stands(asked, f, h.len() as int);
    }
    if rounds.len() > 0 {
        let h = g + report + "\nPreviously observed grounding evidence:\n"@;
        lemma_stands(asked, grounding::evidence(rounds), h.len() as int);
    }
}

proof fn lemma_stands(s: Seq<char>, t: Seq<char>, i: int)
    requires
        0 <= i,
        i + t.len() <= s.len(),
        s.subrange(i, i + t.len()) =~= t,
    ensures
        find::has_text(s, t),
{
    assert(find::occurs_at(s, t, i));
}

/// Evidence is told round by round, each with its number, with what was said and with its calls.
pub proof fn law_evidence_is_told_round_by_round(rs: Seq<RoundView>, r: RoundView)
    ensures
        ({
            let before = grounding::evidence(rs);
            let after = grounding::evidence(rs.push(r));
            let said = find::trimmed(r.said);
            &&& find::has_prefix(after, before)
            &&& find::has_suffix(after, grounding::call_lines(r.calls))
            &&& said.len() > 0 ==> find::has_text(after, grounding::truncated(said, 600))
            &&& said.len() > 0 ==> find::has_text(
                after,
                "Round "@ + number::decimal(rs.len() + 1),
            )
            &&& said.len() == 0 ==> after == before + grounding::call_lines(r.calls)
        }),
{
    let before = grounding::evidence(rs);
    let after = grounding::evidence(rs.push(r));
    let said = find::trimmed(r.said);
    let calls = grounding::call_lines(r.calls);
    assert(rs.push(r).drop_last() =~= rs);
    assert(after.subrange(0, before.len() as int) =~= before);
    assert(after.subrange(after.len() - calls.len(), after.len() as int) =~= calls);
    if said.len() > 0 {
        let head = "Round "@ + number::decimal(rs.len() + 1);
        lemma_stands(after, head, before.len() as int);
        let t = grounding::truncated(said, 600);
        lemma_stands(after, t, (before + head + " assistant:\n"@).len() as int);
    } else {
        assert(after =~= before + calls);
    }
}

proof fn lemma_spans_front(a: Seq<char>, b: Seq<char>, i: int)
    requires
        0 <= i <= a.len(),
    ensures
        workspace::spans_from(a + seq!['/'] + b, i) == workspace::spans_from(a, i)
            + workspace::spans_from(a + seq!['/'] + b, a.len() as int + 1),
    decreases a.len() - i,
{
    let s = a + seq!['/'] + b;
    let n = a.len() as int;
    let rest = workspace::spans_from(s, n + 1);
    if i == n {
        assert(s[n] == '/');
        assert(workspace::spans_from(a, i) + rest =~= rest);
    } else {
        assert(s[i] == a[i]);
        if a[i] == '/' {
            lemma_spans_front(a, b, i + 1);
        } else {
            find::lemma_index_from(a, '/', i);
            find::lemma_index_from(s, '/', i);
            let e = workspace::part_end(a, i);
            assert(s[n] == '/');
            assert(workspace::part_end(s, i) == e) by {
                match find::index_from(s, '/', i) {
                    Some(k) => {
                        if k < n {
                            assert(a[k] == '/');
                        }
                        if e < n {
                            assert(s[e] == a[e]);
                        }
                        if e < k {
                            assert(s[e] == '/');
                        } else if k < e {
                            assert(s[k] == '/');
                        }
                    },
                    None => {},
                }
            }
            assert(i < e <= n);
            lemma_spans_front(a, b, e);
            assert(s.subrange(i, e) =~= a.subrange(i, e));
            let one = seq![(i, e)];
            let own = workspace::spans_from(a, e);
            assert(one + (own + rest) =~= (one + own) + rest);
        }
    }
}

/// A path below an absolute root is shown by what stands behind the root; one that does not lead
/// there is shown as it is.
pub proof fn law_paths_are_shown_below_their_root(root: Seq<char>, name: Seq<char>, other: Seq<char>)
    requires
        root.len() > 0,
        root[0] == '/',
        name.len() > 0,
        !name.contains('/'),
        name != "."@,
    ensures
        workspace::below(root, root + seq!['/'] + name) == name,
        !workspace::leads_into(workspace::steps_of(other), workspace::steps_of(root))
            ==> workspace::below(root, other) == other,
{
    reveal_strlit(".");
    reveal_strlit("./");
    let path = root + seq!['/'] + name;
    let n = root.len() as int;
    assert(path[0] == root[0]);
    assert("."@[0] == '.' && "./"@[0] == '.');
    assert(!workspace::begins_with_dot(root)) by {
        if find::has_prefix(root, "./"@) {
            assert(root.subrange(0, 2)[0] == root[0]);
        }
    }
    assert(!workspace::begins_with_dot(path)) by {
        if find::has_prefix(path, "./"@) {
            assert(path.subrange(0, 2)[0] == path[0]);
        }
    }
    lemma_spans_front(root, name, 0);
    let front = root + seq!['/'];
    assert(front + name =~= path);
    lemma_spans_shift(front, name, 0);
    find::lemma_index_from(name, '/', 0);
    assert(name.contains(name[0]));
    assert(name.subrange(0, name.len() as int) =~= name);
    assert(workspace::spans_from(name, name.len() as int) =~= Seq::<(int, int)>::empty());
    assert(workspace::spans_from(name, 0) =~= seq![(0int, name.len() as int)]);
    let r = workspace::spans_from(root, 0);
    let all = workspace::spans_from(path, 0);
    assert(all.len() == r.len() + 1);
    assert(all.last() == (n + 1, n + 1 + name.len()));
    lemma_spans_bounds(root, 0);
    assert forall|k: int| 0 <= k < r.len() implies path.subrange(all[k].0, all[k].1)
        =~= root.subrange(#[trigger] r[k].0, r[k].1) by {
        assert(all[k] == r[k]);
    }
    assert(workspace::parts_of(path).take(r.len() as int) =~= workspace::parts_of(root));
    assert(workspace::leads_into(workspace::steps_of(path), workspace::steps_of(root)));
    assert(all[r.len() as int].0 == n + 1);
    assert(path.subrange(n + 1, n + 1 + name.len()) =~= name);
}

/// Nothing below the directories that are left out is copied into a workspace, whatever it is
/// called.
pub proof fn law_left_out_directories_are_not_copied(name: Seq<char>)
    ensures
        workspace::skips_copy(".git"@ + "/"@ + name),
        workspace::skips_copy("target"@ + "/"@ + name),
        workspace::skips_copy(".mercury/worktrees"@ + "/"@ + name),
        workspace::skips_copy(".mercury/runs"@ + "/"@ + name),
{
    law_at_or_below(".git"@, name, 'x');
    law_at_or_below("target"@, name, 'x');
    law_at_or_below(".mercury/worktrees"@, name, 'x');
    law_at_or_below(".mercury/runs"@, name, 'x');
}

} // verus!
