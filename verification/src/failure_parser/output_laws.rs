//! Laws of the failures that are read from the output of verifiers.
use crate::failure_parser::command::CargoCommandKind;
use crate::failure_parser::report;
use crate::failure_parser::report::{FailureView, TargetView};
use crate::failure_parser::rust_output;
use crate::failure_parser::typescript_output;
use crate::text::chars;
use crate::text::find;
use crate::text::laws;
use crate::text::number;
use crate::text::split;
use vstd::prelude::*;

verus! {

/// The test that a line of test output names as failed.
pub open spec fn names(line: Seq<char>) -> Option<Seq<char>> {
    rust_output::failed_test_name(find::trimmed(line))
}

/// The location that a line of test output points to.
pub open spec fn points(line: Seq<char>) -> Option<(Seq<char>, u32, u32)> {
    rust_output::rust_location(find::trimmed(line))
}

/// Whether a line of test output states a failure.
pub open spec fn states(line: Seq<char>) -> bool {
    rust_output::test_line_class(find::trimmed(line)) is Some
}

/// How many of the given lines state a failure.
pub open spec fn stated(ls: Seq<Seq<char>>) -> nat {
    ls.filter(|line: Seq<char>| states(line)).len()
}

/// Where a target points to, if it points to a place in a file.
pub open spec fn place_of(t: TargetView) -> Option<(Seq<char>, u32, u32)> {
    match (t.file_path, t.line, t.column) {
        (Some(file), Some(line), Some(column)) => Some((file, line, column)),
        _ => None,
    }
}

proof fn lemma_stated_step(ls: Seq<Seq<char>>)
    requires
        ls.len() > 0,
    ensures
        stated(ls) == stated(ls.drop_last()) + (if states(ls.last()) {
            1nat
        } else {
            0
        }),
{
    reveal(Seq::filter);
}

proof fn lemma_stated_count(ls: Seq<Seq<char>>)
    ensures
        rust_output::test_scan(ls).failures.len() == stated(ls),
    decreases ls.len(),
{
    if ls.len() > 0 {
        lemma_stated_count(ls.drop_last());
        lemma_stated_step(ls);
    } else {
        reveal(Seq::filter);
    }
}

proof fn lemma_stated_stay(ls: Seq<Seq<char>>, k: int, i: int)
    requires
        0 <= k <= ls.len(),
        0 <= i < rust_output::test_scan(ls.take(k)).failures.len(),
    ensures
        i < rust_output::test_scan(ls).failures.len(),
        rust_output::test_scan(ls).failures[i] == rust_output::test_scan(ls.take(k)).failures[i],
    decreases ls.len(),
{
    if k < ls.len() {
        assert(ls.drop_last().take(k) =~= ls.take(k));
        lemma_stated_stay(ls.drop_last(), k, i);
    } else {
        assert(ls.take(k) =~= ls);
    }
}

proof fn lemma_last_name(ls: Seq<Seq<char>>, j: int)
    requires
        0 <= j < ls.len(),
        names(ls[j]) is Some,
        forall|i: int| j < i < ls.len() ==> names(#[trigger] ls[i]) is None,
    ensures
        rust_output::test_scan(ls).symbol == names(ls[j]),
    decreases ls.len(),
{
    if j < ls.len() - 1 {
        assert(names(ls[ls.len() - 1]) is None);
        lemma_last_name(ls.drop_last(), j);
    }
}

proof fn lemma_no_name(ls: Seq<Seq<char>>)
    requires
        forall|i: int| 0 <= i < ls.len() ==> names(#[trigger] ls[i]) is None,
    ensures
        rust_output::test_scan(ls).symbol is None,
    decreases ls.len(),
{
    if ls.len() > 0 {
        assert(names(ls[ls.len() - 1]) is None);
        lemma_no_name(ls.drop_last());
    }
}

proof fn lemma_last_place(ls: Seq<Seq<char>>, j: int)
    requires
        0 <= j < ls.len(),
        points(ls[j]) is Some,
        forall|i: int| j < i < ls.len() ==> points(#[trigger] ls[i]) is None,
    ensures
        place_of(rust_output::test_scan(ls).location) == points(ls[j]),
    decreases ls.len(),
{
    if j < ls.len() - 1 {
        assert(points(ls[ls.len() - 1]) is None);
        lemma_last_place(ls.drop_last(), j);
    }
}

proof fn lemma_no_place(ls: Seq<Seq<char>>)
    requires
        forall|i: int| 0 <= i < ls.len() ==> points(#[trigger] ls[i]) is None,
    ensures
        rust_output::test_scan(ls).location == report::no_target(),
    decreases ls.len(),
{
    if ls.len() > 0 {
        assert(points(ls[ls.len() - 1]) is None);
        lemma_no_place(ls.drop_last());
    }
}

/// The lines of both outputs of a run.
pub open spec fn output_lines(stdout: Seq<char>, stderr: Seq<char>) -> Seq<Seq<char>> {
    split::lines_of(rust_output::both_outputs(stdout, stderr))
}

/// The failure that the report on a test run has for its line `k`.
pub open spec fn failure_at(stdout: Seq<char>, stderr: Seq<char>, k: int) -> FailureView {
    rust_output::test_report(stdout, stderr).failures[stated(
        output_lines(stdout, stderr).take(k),
    ) as int]
}

proof fn lemma_failure_at(stdout: Seq<char>, stderr: Seq<char>, k: int)
    requires
        0 <= k < output_lines(stdout, stderr).len(),
        states(output_lines(stdout, stderr)[k]),
    ensures
        ({
            let upto = rust_output::test_scan(output_lines(stdout, stderr).take(k + 1));
            &&& upto.failures.len() > 0
            &&& failure_at(stdout, stderr, k) == upto.failures.last()
            &&& stated(output_lines(stdout, stderr).take(k)) < stated(output_lines(stdout, stderr))
        }),
{
    let ls = output_lines(stdout, stderr);
    let front = ls.take(k + 1);
    assert(front.drop_last() =~= ls.take(k));
    assert(front.last() == ls[k]);
    lemma_stated_step(front);
    lemma_stated_count(front);
    lemma_stated_count(ls.take(k));
    lemma_stated_count(ls);
    lemma_stated_stay(ls, k + 1, stated(ls.take(k)) as int);
}

/// Every line of test output that states a failure is reported, once and in order, with its
/// own text; and nothing else is, unless no line states any.
pub proof fn law_every_stated_failure_is_reported(stdout: Seq<char>, stderr: Seq<char>)
    ensures
        stated(output_lines(stdout, stderr)) > 0 ==> rust_output::test_report(
            stdout,
            stderr,
        ).failures.len() == stated(output_lines(stdout, stderr)),
        forall|k: int|
            0 <= k < output_lines(stdout, stderr).len() && states(
                #[trigger] output_lines(stdout, stderr)[k],
            ) ==> {
                &&& failure_at(stdout, stderr, k).message == find::trimmed(
                    output_lines(stdout, stderr)[k],
                )
                &&& Some(failure_at(stdout, stderr, k).error_class)
                    == rust_output::test_line_class(
                    find::trimmed(output_lines(stdout, stderr)[k]),
                )
            },
{
    let ls = output_lines(stdout, stderr);
    lemma_stated_count(ls);
    assert forall|k: int| 0 <= k < ls.len() && states(#[trigger] ls[k]) implies {
        &&& failure_at(stdout, stderr, k).message == find::trimmed(ls[k])
        &&& Some(failure_at(stdout, stderr, k).error_class) == rust_output::test_line_class(
            find::trimmed(ls[k]),
        )
    } by {
        lemma_failure_at(stdout, stderr, k);
        assert(ls.take(k + 1).drop_last() =~= ls.take(k));
        assert(ls.take(k + 1).last() == ls[k]);
    }
}

/// A failure in test output belongs to the test that was named last, on its own line or
/// before: later failures of other tests never go to an earlier test.
pub proof fn law_failures_belong_to_the_test_named_last(
    stdout: Seq<char>,
    stderr: Seq<char>,
    j: int,
    k: int,
)
    requires
        0 <= j <= k < output_lines(stdout, stderr).len(),
        states(output_lines(stdout, stderr)[k]),
        names(output_lines(stdout, stderr)[j]) is Some,
        forall|i: int|
            j < i <= k ==> names(#[trigger] output_lines(stdout, stderr)[i]) is None,
    ensures
        failure_at(stdout, stderr, k).target.symbol == names(output_lines(stdout, stderr)[j]),
{
    let ls = output_lines(stdout, stderr);
    lemma_failure_at(stdout, stderr, k);
    assert(ls.take(k + 1).drop_last() =~= ls.take(k));
    assert(ls.take(k + 1).last() == ls[k]);
    assert(ls.take(k + 1)[j] == ls[j]);
    lemma_last_name(ls.take(k + 1), j);
}

/// A failure in test output happened at the place that was pointed to last, on its own line
/// or before.
pub proof fn law_failures_happen_at_the_last_place(
    stdout: Seq<char>,
    stderr: Seq<char>,
    j: int,
    k: int,
)
    requires
        0 <= j <= k < output_lines(stdout, stderr).len(),
        states(output_lines(stdout, stderr)[k]),
        points(output_lines(stdout, stderr)[j]) is Some,
        forall|i: int|
            j < i <= k ==> points(#[trigger] output_lines(stdout, stderr)[i]) is None,
    ensures
        place_of(failure_at(stdout, stderr, k).target) == points(
            output_lines(stdout, stderr)[j],
        ),
{
    let ls = output_lines(stdout, stderr);
    lemma_failure_at(stdout, stderr, k);
    assert(ls.take(k + 1).drop_last() =~= ls.take(k));
    assert(ls.take(k + 1).last() == ls[k]);
    assert(ls.take(k + 1)[j] == ls[j]);
    lemma_last_place(ls.take(k + 1), j);
}

/// A failure in test output has no test if none was named so far, and no place if none was
/// pointed to.
pub proof fn law_failures_invent_no_target(stdout: Seq<char>, stderr: Seq<char>, k: int)
    requires
        0 <= k < output_lines(stdout, stderr).len(),
        states(output_lines(stdout, stderr)[k]),
    ensures
        (forall|i: int| 0 <= i <= k ==> names(#[trigger] output_lines(stdout, stderr)[i]) is None)
            ==> failure_at(stdout, stderr, k).target.symbol is None,
        (forall|i: int| 0 <= i <= k ==> points(#[trigger] output_lines(stdout, stderr)[i]) is None)
            ==> {
            &&& failure_at(stdout, stderr, k).target.file_path is None
            &&& failure_at(stdout, stderr, k).target.line is None
            &&& failure_at(stdout, stderr, k).target.column is None
        },
{
    let ls = output_lines(stdout, stderr);
    let front = ls.take(k + 1);
    lemma_failure_at(stdout, stderr, k);
    assert(front.drop_last() =~= ls.take(k));
    assert(front.last() == ls[k]);
    if forall|i: int| 0 <= i <= k ==> names(#[trigger] ls[i]) is None {
        assert forall|i: int| 0 <= i < front.len() implies names(#[trigger] front[i]) is None by {
            assert(front[i] == ls[i]);
        }
        lemma_no_name(front);
    }
    if forall|i: int| 0 <= i <= k ==> points(#[trigger] ls[i]) is None {
        assert forall|i: int| 0 <= i < front.len() implies points(#[trigger] front[i]) is None by {
            assert(front[i] == ls[i]);
        }
        lemma_no_place(front);
    }
}

/// A test that is reported as failed is named as it was written, in the list of tests and in
/// the headings of their output alike; a test that passed is not named.
pub proof fn law_failed_tests_are_named(name: Seq<char>)
    requires
        laws::is_word(name),
        name[0] != '-',
    ensures
        rust_output::failed_test_name("test "@ + name + " ... FAILED"@) == Some(name),
        rust_output::failed_test_name("---- "@ + name + " stdout ----"@) == Some(name),
        !name.contains('.') ==> rust_output::failed_test_name("test "@ + name + " ... ok"@) is None,
{
    lemma_listed_test(name);
    lemma_headed_test(name);
    if !name.contains('.') {
        lemma_passed_test(name);
    }
}

proof fn lemma_listed_test(name: Seq<char>)
    requires
        laws::is_word(name),
    ensures
        rust_output::failed_test_name("test "@ + name + " ... FAILED"@) == Some(name),
{
    reveal_strlit("test ");
    reveal_strlit(" ... FAILED");
    let n = name.len() as int;
    let a = "test "@ + name + " ... FAILED"@;
    let test = "test "@.take(4);
    let rest = " ... FAILED"@.skip(1);
    let tail = name + seq![' '] + rest;
    assert(a =~= test + seq![' '] + tail);
    laws::law_words_come_one_by_one(test, ' ', tail);
    laws::law_words_come_one_by_one(name, ' ', rest);
    assert(split::words_of(a)[1] == name);
    assert(a.subrange(0, 5) =~= "test "@);
    assert(a.subrange(5 + n, 5 + n + 11) =~= " ... FAILED"@);
    assert(find::occurs_at(a, " ... FAILED"@, 5 + n));
}

proof fn lemma_headed_test(name: Seq<char>)
    requires
        laws::is_word(name),
        name[0] != '-',
    ensures
        rust_output::failed_test_name("---- "@ + name + " stdout ----"@) == Some(name),
{
    reveal_strlit("test ");
    reveal_strlit("---- ");
    reveal_strlit(" stdout ----");
    let n = name.len() as int;
    let dashes = "---- "@;
    let ending = " stdout ----"@;
    let b = dashes + name + ending;
    let mid = name + ending;
    assert(b.subrange(0, 5)[0] == '-');
    assert("test "@[0] == 't');
    assert(!find::has_prefix(b, "test "@));
    assert(b.subrange(0, 5) =~= dashes);
    assert(b.subrange(b.len() - 12, b.len() as int) =~= ending);
    assert(b.subrange(5, b.len() as int) =~= mid);
    if find::has_prefix(mid, dashes) {
        assert(mid.subrange(0, 5)[0] == name[0]);
    }
    assert(find::without_prefixes(mid, dashes) == mid);
    assert(find::without_prefixes(b, dashes) == mid);
    assert(mid.subrange(n, mid.len() as int) =~= ending);
    assert(mid.subrange(0, n) =~= name);
    if find::has_suffix(name, ending) {
        assert(name.subrange(n - 12, n)[0] == name[n - 12]);
        assert(chars::is_space(name[n - 12]));
    }
    assert(find::without_suffixes(name, ending) == name);
    assert(find::without_suffixes(mid, ending) == name);
}

proof fn lemma_passed_test(name: Seq<char>)
    requires
        laws::is_word(name),
        !name.contains('.'),
    ensures
        rust_output::failed_test_name("test "@ + name + " ... ok"@) is None,
{
    reveal_strlit("test ");
    reveal_strlit(" ... FAILED");
    reveal_strlit(" ... ok");
    reveal_strlit("---- ");
    let n = name.len() as int;
    let c = "test "@ + name + " ... ok"@;
    assert forall|i: int| !find::occurs_at(c, " ... FAILED"@, i) by {
        if find::occurs_at(c, " ... FAILED"@, i) {
            let x = c.subrange(i, i + 11);
            assert(x[1] == '.' && x[5] == 'F');
            assert(c[i + 1] == '.' && c[i + 5] == 'F');
            if 5 <= i + 1 < 5 + n {
                assert(name[i + 1 - 5] == '.');
                assert(name.contains('.'));
            }
        }
    }
    assert(c.subrange(0, 5)[0] == 't');
    assert("---- "@[0] == '-');
}

/// Whether a text can be a path in a location: it is one word that neither begins nor ends with
/// a character that can stand around a location.
pub open spec fn is_plain_path(path: Seq<char>) -> bool {
    &&& laws::is_word(path)
    &&& !path.contains(':')
    &&& !path.contains(',')
    &&& !"'\",)("@.contains(path.first())
    &&& path.first() != '-'
}

proof fn lemma_digits_around(n: nat)
    ensures
        number::decimal(n).len() > 0,
        forall|i: int|
            0 <= i < number::decimal(n).len() ==> chars::is_digit(#[trigger] number::decimal(n)[i]),
        !number::decimal(n).contains(':'),
        !number::decimal(n).contains(','),
        !number::decimal(n).contains('('),
        !number::decimal(n).contains(')'),
{
    number::lemma_decimal(n);
}

/// A place that is written as `path:line:column` is read as that place, with and without the
/// arrow that the compiler puts in front of it.
pub proof fn law_rust_places_read_back(path: Seq<char>, line: u32, column: u32)
    requires
        is_plain_path(path),
    ensures
        ({
            let written = path + ":"@ + number::decimal(line as nat) + ":"@ + number::decimal(
                column as nat,
            );
            &&& rust_output::rust_location(written) == Some((path, line, column))
            &&& rust_output::rust_location("--> "@ + written) == Some((path, line, column))
        }),
{
    reveal_strlit(":");
    reveal_strlit("--> ");
    reveal_strlit("-->");
    reveal_strlit(", ");
    reveal_strlit("'\",)(");
    let l = number::decimal(line as nat);
    let c = number::decimal(column as nat);
    let head = path + ":"@ + l;
    let w = head + ":"@ + c;
    lemma_digits_around(line as nat);
    lemma_digits_around(column as nat);
    number::law_decimal_reads_back(line as nat, u32::MAX as nat);
    number::law_decimal_reads_back(column as nat, u32::MAX as nat);
    assert(w =~= path + ":"@ + l + ":"@ + c);
    assert forall|i: int| 0 <= i < w.len() implies !chars::is_space(#[trigger] w[i]) && w[i]
        != ',' by {
        if i < path.len() {
            assert(w[i] == path[i]);
            assert(path.contains(path[i]));
        } else if path.len() < i < head.len() {
            assert(w[i] == l[i - path.len() - 1]);
        } else if i > head.len() {
            assert(w[i] == c[i - head.len() - 1]);
        }
    }
    let e = Seq::<char>::empty();
    assert(e + w + e =~= w);
    laws::law_trimming_removes_what_is_around(e, w, e);
    let arrow = "--> "@ + w;
    assert(arrow.first() == '-' && arrow.last() == w.last());
    assert(e + arrow + e =~= arrow);
    laws::law_trimming_removes_what_is_around(e, arrow, e);
    assert(seq![' '] + w + e =~= seq![' '] + w);
    laws::law_trimming_removes_what_is_around(seq![' '], w, e);
    assert(w[0] == path[0]);
    if find::has_prefix(w, "-->"@) {
        assert(w.subrange(0, 3)[0] == w[0]);
        assert("-->"@[0] == '-');
    }
    assert(find::without_prefixes(w, "-->"@) == w);
    assert(arrow.subrange(0, 3) =~= "-->"@);
    assert(arrow.subrange(3, arrow.len() as int) =~= seq![' '] + w);
    if find::has_prefix(seq![' '] + w, "-->"@) {
        assert((seq![' '] + w).subrange(0, 3)[0] == ' ');
        assert("-->"@[0] == '-');
    }
    assert(find::without_prefixes(seq![' '] + w, "-->"@) == seq![' '] + w);
    assert(find::without_prefixes(arrow, "-->"@) == seq![' '] + w);
    laws::law_cut_at_last_text(w, ", "@);
    assert forall|i: int| !find::occurs_at(w, ", "@, i) by {
        if find::occurs_at(w, ", "@, i) {
            assert(w.subrange(i, i + 2)[0] == w[i]);
            assert(", "@[0] == ',');
        }
    }
    match split::cut_at_last_text(w, ", "@) {
        Some(cut) => {
            assert(w.subrange(cut.0.len() as int, cut.0.len() as int + 2) =~= ", "@);
            assert(find::occurs_at(w, ", "@, cut.0.len() as int));
        },
        None => {},
    }
    if w.contains(' ') {
        let i = choose|i: int| 0 <= i < w.len() && w[i] == ' ';
        assert(chars::is_space(w[i]));
    }
    assert(rust_output::location_part(w) == Some(w));
    assert(rust_output::location_part(arrow) == Some(w));
    let set = "'\",)("@;
    assert(!set.contains(w.first()));
    assert(c.last() == w.last());
    assert(chars::is_digit(c[c.len() - 1]));
    assert(set =~= seq!['\'', '"', ',', ')', '(']);
    assert(!set.contains(w.last()));
    assert(find::trimmed_of(w, set) == w);
    assert(w =~= head + seq![':'] + c);
    laws::law_cut_at_last(head, ':', c);
    assert(head =~= path + seq![':'] + l);
    laws::law_cut_at_last(path, ':', l);
    assert(e + path + e =~= path);
    laws::law_trimming_removes_what_is_around(e, path, e);
}

/// Whether a line of check or lint output begins a message.
pub open spec fn begins(command: CargoCommandKind, line: Seq<char>) -> bool {
    rust_output::begins_issue(command, find::trimmed(line))
}

proof fn lemma_beginnings_are_filled(command: CargoCommandKind, line: Seq<char>)
    requires
        rust_output::begins_issue(command, line),
    ensures
        line.len() > 0,
{
    reveal_strlit("error");
    reveal_strlit("warning:");
    reveal_strlit("note:");
}

/// As many messages are read from check or lint output as lines begin one.
pub proof fn law_every_message_is_reported(command: CargoCommandKind, ls: Seq<Seq<char>>)
    ensures
        rust_output::issues(command, ls).len() == ls.filter(
            |line: Seq<char>| begins(command, line),
        ).len(),
    decreases ls.len(),
{
    reveal(Seq::filter);
    if ls.len() > 0 {
        law_every_message_is_reported(command, ls.drop_last());
        if begins(command, ls.last()) {
            lemma_beginnings_are_filled(command, find::trimmed(ls.last()));
        }
    }
}

/// A message takes nothing from the lines of other messages: output that begins with a message
/// is read behind other output as it is read alone.
pub proof fn law_messages_do_not_mix(
    command: CargoCommandKind,
    a: Seq<Seq<char>>,
    b: Seq<Seq<char>>,
)
    requires
        b.len() > 0 ==> begins(command, b[0]),
    ensures
        rust_output::issues(command, a + b) == rust_output::issues(command, a)
            + rust_output::issues(command, b),
        b.len() > 0 ==> rust_output::issues(command, b).len() > 0,
    decreases b.len(),
{
    if b.len() == 0 {
        assert(a + b =~= a);
        assert(rust_output::issues(command, b) =~= Seq::<FailureView>::empty());
        assert(rust_output::issues(command, a) + rust_output::issues(command, b)
            =~= rust_output::issues(command, a));
    } else {
        assert((a + b).drop_last() =~= a + b.drop_last());
        assert((a + b).last() == b.last());
        law_messages_do_not_mix(command, a, b.drop_last());
        lemma_beginnings_are_filled(command, find::trimmed(b[0]));
        let x = rust_output::issues(command, a);
        let y = rust_output::issues(command, b.drop_last());
        let line = find::trimmed(b.last());
        if b.len() == 1 {
            assert(y =~= Seq::<FailureView>::empty());
        }
        if line.len() > 0 {
            if begins(command, b.last()) {
                let f = rust_output::new_issue(command, line);
                assert((x + y).push(f) =~= x + y.push(f));
            } else {
                let f = rust_output::issue_with_line(y.last(), line);
                assert((x + y).last() == y.last());
                assert((x + y).drop_last().push(f) =~= x + y.drop_last().push(f));
            }
        }
    }
}

/// Whether the given lines are one message.
pub open spec fn is_one_message(command: CargoCommandKind, ls: Seq<Seq<char>>) -> bool {
    &&& ls.len() > 0
    &&& begins(command, ls[0])
    &&& forall|i: int| 0 < i < ls.len() ==> !begins(command, #[trigger] ls[i])
}

proof fn lemma_one_message_front(command: CargoCommandKind, ls: Seq<Seq<char>>)
    requires
        is_one_message(command, ls),
        ls.len() > 1,
    ensures
        is_one_message(command, ls.drop_last()),
        !begins(command, ls.last()),
        ls.drop_last()[0] == ls[0],
{
    assert(!begins(command, ls[ls.len() - 1]));
}

/// What one line adds to the text of a message before it.
pub open spec fn added(line: Seq<char>) -> Seq<char> {
    let t = find::trimmed(line);
    if rust_output::rust_location(t) is None && rust_output::is_context(t) {
        " "@ + t
    } else {
        Seq::empty()
    }
}

/// What lines add to the text of a message before them.
pub open spec fn all_added(ls: Seq<Seq<char>>) -> Seq<char> {
    ls.fold_left(Seq::<char>::empty(), |text: Seq<char>, line: Seq<char>| text + added(line))
}

proof fn lemma_added_step(ls: Seq<Seq<char>>)
    requires
        ls.len() > 1,
    ensures
        all_added(ls.skip(1)) == all_added(ls.drop_last().skip(1)) + added(ls.last()),
{
    let a = ls.skip(1);
    assert(a.drop_last() =~= ls.drop_last().skip(1));
    assert(a.last() == ls.last());
    reveal(Seq::fold_left);
}

/// The lines of one message give one failure: its class is that of the first line, and its text
/// is the first line and the notes and hints that follow it.
pub proof fn law_one_message_is_one_failure(command: CargoCommandKind, ls: Seq<Seq<char>>)
    requires
        is_one_message(command, ls),
    ensures
        rust_output::issues(command, ls).len() == 1,
        rust_output::issues(command, ls)[0].error_class == rust_output::error_class(
            command,
            find::trimmed(ls[0]),
        ),
        rust_output::issues(command, ls)[0].message == find::trimmed(ls[0]) + all_added(
            ls.skip(1),
        ),
    decreases ls.len(),
{
    lemma_beginnings_are_filled(command, find::trimmed(ls[0]));
    if ls.len() > 1 {
        lemma_one_message_front(command, ls);
        law_one_message_is_one_failure(command, ls.drop_last());
        lemma_added_step(ls);
        let t = find::trimmed(ls.last());
        let before = find::trimmed(ls[0]) + all_added(ls.drop_last().skip(1));
        assert(before + added(ls.last()) =~= find::trimmed(ls[0]) + all_added(ls.skip(1)));
        if t.len() == 0 {
            lemma_nothing_is_no_context(t);
            assert(before + added(ls.last()) =~= before);
        } else if rust_output::rust_location(t) is None && rust_output::is_context(t) {
            assert(before + " "@ + t =~= before + added(ls.last()));
        } else {
            assert(before + added(ls.last()) =~= before);
        }
    } else {
        assert(ls.drop_last() =~= Seq::<Seq<char>>::empty());
        assert(rust_output::issues(command, ls.drop_last()) =~= Seq::<FailureView>::empty());
        assert(ls.last() == ls[0]);
        reveal(Seq::fold_left);
        assert(ls.skip(1) =~= Seq::<Seq<char>>::empty());
        assert(find::trimmed(ls[0]) + all_added(ls.skip(1)) =~= find::trimmed(ls[0]));
    }
}

proof fn lemma_nothing_is_no_context(t: Seq<char>)
    requires
        t.len() == 0,
    ensures
        !rust_output::is_context(t),
{
    reveal_strlit("help:");
    reveal_strlit("note:");
    reveal_strlit("= note:");
    reveal_strlit("= help:");
}

/// A message points to the place that its lines after the first point to last, and has no place
/// if none of them points to one.
pub proof fn law_messages_point_to_their_last_place(
    command: CargoCommandKind,
    ls: Seq<Seq<char>>,
    j: int,
)
    requires
        is_one_message(command, ls),
        0 <= j < ls.len(),
        j > 0 ==> find::trimmed(ls[j]).len() > 0 && points(ls[j]) is Some,
        forall|i: int| j < i < ls.len() ==> points(#[trigger] ls[i]) is None,
    ensures
        rust_output::issues(command, ls).len() == 1,
        place_of(rust_output::issues(command, ls)[0].target) == (if j > 0 {
            points(ls[j])
        } else {
            None
        }),
    decreases ls.len(),
{
    lemma_beginnings_are_filled(command, find::trimmed(ls[0]));
    law_one_message_is_one_failure(command, ls);
    if ls.len() > 1 {
        lemma_one_message_front(command, ls);
        law_one_message_is_one_failure(command, ls.drop_last());
        if j < ls.len() - 1 {
            assert(points(ls[ls.len() - 1]) is None);
            law_messages_point_to_their_last_place(command, ls.drop_last(), j);
        }
    } else {
        assert(ls.drop_last() =~= Seq::<Seq<char>>::empty());
        assert(rust_output::issues(command, ls.drop_last()) =~= Seq::<FailureView>::empty());
        assert(ls.last() == ls[0]);
    }
}

/// A message names what its first line has in backticks, whatever follows.
pub proof fn law_messages_name_what_they_begin_with(
    command: CargoCommandKind,
    ls: Seq<Seq<char>>,
)
    requires
        is_one_message(command, ls),
        rust_output::backticked(find::trimmed(ls[0])) is Some,
    ensures
        rust_output::issues(command, ls).len() == 1,
        rust_output::issues(command, ls)[0].target.symbol == rust_output::backticked(
            find::trimmed(ls[0]),
        ),
    decreases ls.len(),
{
    lemma_beginnings_are_filled(command, find::trimmed(ls[0]));
    law_one_message_is_one_failure(command, ls);
    if ls.len() > 1 {
        lemma_one_message_front(command, ls);
        law_one_message_is_one_failure(command, ls.drop_last());
        law_messages_name_what_they_begin_with(command, ls.drop_last());
    } else {
        assert(ls.drop_last() =~= Seq::<Seq<char>>::empty());
        assert(rust_output::issues(command, ls.drop_last()) =~= Seq::<FailureView>::empty());
        assert(ls.last() == ls[0]);
    }
}

/// What stands between the first two backticks of a text is what is named.
pub proof fn law_backticks_name(a: Seq<char>, name: Seq<char>, b: Seq<char>)
    requires
        !a.contains('`'),
        !name.contains('`'),
        name.len() > 0,
    ensures
        rust_output::backticked(a + seq!['`'] + (name + seq!['`'] + b)) == Some(name),
        rust_output::backticked(a) is None,
{
    laws::law_cut_at_first(a, '`', name + seq!['`'] + b);
    laws::law_cut_at_first(name, '`', b);
}

/// The class of a message does not depend on the case of its letters, and the command only
/// matters where no rule knows the message.
pub proof fn law_classes_ignore_case(
    a: CargoCommandKind,
    b: CargoCommandKind,
    message: Seq<char>,
)
    ensures
        rust_output::error_class(a, chars::lowercase(message)) == rust_output::error_class(
            a,
            message,
        ),
        rust_output::error_class(a, message) == rust_output::error_class(b, message)
            || rust_output::error_class(a, message) == rust_output::unknown_class(a),
{
    assert(chars::lowercase(chars::lowercase(message)) =~= chars::lowercase(message)) by {
        assert forall|c: char| #[trigger] chars::lower(chars::lower(c)) == chars::lower(c) by {}
    }
}

/// A report on a check or lint run holds every message of the run, and one stand-in where
/// there is none.
pub proof fn law_reports_hold_every_message(stderr: Seq<char>, command: CargoCommandKind)
    ensures
        ({
            let found = split::lines_of(stderr).filter(|line: Seq<char>| begins(command, line)).len();
            let said = rust_output::issue_report(stderr, command).failures;
            &&& found > 0 ==> said.len() == found
            &&& found == 0 ==> said.len() == 1 && said[0].target == report::no_target()
        }),
{
    law_every_message_is_reported(command, split::lines_of(stderr));
}

/// A check fails while parsing exactly if one of its failures says so, wherever it stands
/// among the others.
pub proof fn law_one_parse_failure_is_enough(a: Seq<FailureView>, b: Seq<FailureView>)
    ensures
        rust_output::stage_of(CargoCommandKind::Check, a + b) is Parse <==> (
        rust_output::stage_of(CargoCommandKind::Check, a) is Parse || rust_output::stage_of(
            CargoCommandKind::Check,
            b,
        ) is Parse),
{
    if rust_output::any_parse_failure(a) {
        let i = choose|i: int|
            0 <= i < a.len() && (find::has_prefix((#[trigger] a[i]).error_class, "parser."@)
                || find::has_text(a[i].message, "unclosed delimiter"@));
        assert((a + b)[i] == a[i]);
    }
    if rust_output::any_parse_failure(b) {
        let i = choose|i: int|
            0 <= i < b.len() && (find::has_prefix((#[trigger] b[i]).error_class, "parser."@)
                || find::has_text(b[i].message, "unclosed delimiter"@));
        assert((a + b)[a.len() + i] == b[i]);
    }
    if rust_output::any_parse_failure(a + b) {
        let i = choose|i: int|
            0 <= i < (a + b).len() && (find::has_prefix(
                (#[trigger] (a + b)[i]).error_class,
                "parser."@,
            ) || find::has_text((a + b)[i].message, "unclosed delimiter"@));
        if i < a.len() {
            assert(a[i] == (a + b)[i]);
        } else {
            assert(b[i - a.len()] == (a + b)[i]);
        }
    }
}

/// The failures of TypeScript compile and lint output are those of its parts, one after the
/// other.
pub proof fn law_script_failures_add_up(a: Seq<Seq<char>>, b: Seq<Seq<char>>)
    ensures
        typescript_output::compile_failures(a + b) == typescript_output::compile_failures(a)
            + typescript_output::compile_failures(b),
        typescript_output::lint_failures(a + b) == typescript_output::lint_failures(a)
            + typescript_output::lint_failures(b),
    decreases b.len(),
{
    let ca = typescript_output::compile_failures(a);
    let la = typescript_output::lint_failures(a);
    if b.len() == 0 {
        assert(a + b =~= a);
        assert(ca + typescript_output::compile_failures(b) =~= ca);
        assert(la + typescript_output::lint_failures(b) =~= la);
    } else {
        assert((a + b).drop_last() =~= a + b.drop_last());
        assert((a + b).last() == b.last());
        law_script_failures_add_up(a, b.drop_last());
        let cb = typescript_output::compile_failures(b.drop_last());
        let lb = typescript_output::lint_failures(b.drop_last());
        let line = find::trimmed(b.last());
        if let Some(f) = typescript_output::typescript_failure(line) {
            assert((ca + cb).push(f) =~= ca + cb.push(f));
        }
        if let Some(f) = typescript_output::lint_failure(line) {
            assert((la + lb).push(f) =~= la + lb.push(f));
        }
    }
}

/// A line of TypeScript compile output that is an error gives its failure, any other line none.
pub proof fn law_script_errors_are_failures(line: Seq<char>)
    requires
        find::trimmed(line).len() > 0,
    ensures
        match typescript_output::typescript_failure(find::trimmed(line)) {
            Some(f) => typescript_output::compile_failures(seq![line]) == seq![f],
            None => typescript_output::compile_failures(seq![line]).len() == 0,
        },
        match typescript_output::lint_failure(find::trimmed(line)) {
            Some(f) => typescript_output::lint_failures(seq![line]) == seq![f],
            None => typescript_output::lint_failures(seq![line]).len() == 0,
        },
{
    assert(seq![line].drop_last() =~= Seq::<Seq<char>>::empty());
    assert(seq![line].last() == line);
    assert(typescript_output::compile_failures(Seq::<Seq<char>>::empty()) =~= Seq::<
        FailureView,
    >::empty());
    assert(typescript_output::lint_failures(Seq::<Seq<char>>::empty()) =~= Seq::<
        FailureView,
    >::empty());
}

/// Whether a text neither begins nor ends with white space.
pub open spec fn is_tight(s: Seq<char>) -> bool {
    s.len() > 0 ==> !chars::is_space(s.first()) && !chars::is_space(s.last())
}

proof fn lemma_tight_is_trimmed(s: Seq<char>)
    requires
        is_tight(s),
    ensures
        find::trimmed(s) == s,
{
    let e = Seq::<char>::empty();
    assert(e + s + e =~= s);
    laws::law_trimming_removes_what_is_around(e, s, e);
}

proof fn lemma_script_place(file: Seq<char>, line: u32, column: u32)
    requires
        is_tight(file),
        file.len() > 0,
    ensures
        typescript_output::typescript_location(
            file + seq!['('] + (number::decimal(line as nat) + seq![','] + number::decimal(
                column as nat,
            )) + seq![')'],
        ) == Some((file, line, column)),
{
    let l = number::decimal(line as nat);
    let c = number::decimal(column as nat);
    let coords = l + seq![','] + c;
    let s = file + seq!['('] + coords + seq![')'];
    lemma_digits_around(line as nat);
    lemma_digits_around(column as nat);
    number::law_decimal_reads_back(line as nat, u32::MAX as nat);
    number::law_decimal_reads_back(column as nat, u32::MAX as nat);
    let tail = coords + seq![')'];
    assert forall|i: int| 0 <= i < tail.len() implies #[trigger] tail[i] != '(' by {
        if i < l.len() {
            assert(tail[i] == l[i]);
        } else if l.len() < i < coords.len() {
            assert(tail[i] == c[i - l.len() - 1]);
        }
    }
    assert(s =~= file + seq!['('] + tail);
    laws::law_cut_at_last(file, '(', tail);
    lemma_last_open(file, tail);
    let e = Seq::<char>::empty();
    assert(s =~= (file + seq!['('] + coords) + seq![')'] + e);
    lemma_last_close(file + seq!['('] + coords);
    let start = file.len() as int;
    let end = s.len() - 1;
    assert(s.subrange(0, start) =~= file);
    assert(s.subrange(start + 1, end) =~= coords);
    lemma_tight_is_trimmed(file);
    assert(forall|i: int| 0 <= i < c.len() ==> !chars::is_space(#[trigger] c[i]));
    assert(forall|i: int| 0 <= i < l.len() ==> !chars::is_space(#[trigger] l[i]));
    lemma_tight_is_trimmed(l);
    lemma_tight_is_trimmed(c);
    let parts = seq![l, c];
    assert(parts.drop_last() =~= seq![l]);
    assert(split::joined(parts, seq![',']) =~= coords) by {
        assert(split::joined(seq![l], seq![',']) == l);
    }
    split::law_split_undoes_join(parts, ',');
}

proof fn lemma_last_open(a: Seq<char>, b: Seq<char>)
    requires
        !b.contains('('),
    ensures
        find::last_index_before(
            a + seq!['('] + b,
            '(',
            (a + seq!['('] + b).len() as int,
        ) == Some(a.len() as int),
{
    laws::lemma_last_index(a, '(', b, b.len());
}

proof fn lemma_last_close(a: Seq<char>)
    ensures
        find::last_index_before(
            a + seq![')'],
            ')',
            (a + seq![')']).len() as int,
        ) == Some(a.len() as int),
{
    assert((a + seq![')'])[a.len() as int] == ')');
}

/// An error of the TypeScript compiler is read as it was written: the file, the line, the
/// column, the code and the message.
pub proof fn law_script_errors_read_back(
    file: Seq<char>,
    line: u32,
    column: u32,
    code: Seq<char>,
    message: Seq<char>,
)
    requires
        is_tight(file),
        file.len() > 0,
        !file.contains(':'),
        is_tight(code),
        !code.contains(':'),
        is_tight(message),
    ensures
        typescript_output::typescript_error(
            file + seq!['('] + (number::decimal(line as nat) + seq![','] + number::decimal(
                column as nat,
            )) + seq![')'] + ": error TS"@ + (code + seq![':'] + (seq![' '] + message)),
        ) == Some(((file, line, column), code, message)),
{
    reveal_strlit(": error TS");
    let mark = ": error TS"@;
    let l = number::decimal(line as nat);
    let c = number::decimal(column as nat);
    let place = file + seq!['('] + (l + seq![','] + c) + seq![')'];
    let rest = code + seq![':'] + (seq![' '] + message);
    let s = place + mark + rest;
    lemma_digits_around(line as nat);
    lemma_digits_around(column as nat);
    lemma_script_place(file, line, column);
    assert(place.first() == file.first() && place.last() == ')');
    lemma_tight_is_trimmed(place);
    assert forall|i: int| 0 <= i < place.len() implies #[trigger] place[i] != ':' by {
        if i < file.len() {
            assert(place[i] == file[i]);
            assert(file.contains(file[i]));
        } else if file.len() < i <= file.len() + l.len() {
            assert(place[i] == l[i - file.len() - 1]);
        } else if file.len() + l.len() + 1 < i < place.len() - 1 {
            assert(place[i] == c[i - file.len() - l.len() - 2]);
        }
    }
    find::lemma_find_from(s, mark, 0);
    assert(s.subrange(place.len() as int, place.len() as int + mark.len()) =~= mark);
    assert(find::occurs_at(s, mark, place.len() as int));
    match find::find_from(s, mark, 0) {
        Some(i) => {
            if i < place.len() {
                assert(s.subrange(i, i + mark.len())[0] == place[i]);
                assert(mark[0] == ':');
            }
            assert(i == place.len());
            assert(s.subrange(0, i) =~= place);
            assert(s.subrange(i + mark.len(), s.len() as int) =~= rest);
        },
        None => {},
    }
    laws::law_cut_at_first(code, ':', seq![' '] + message);
    lemma_tight_is_trimmed(code);
    let e = Seq::<char>::empty();
    assert(seq![' '] + message =~= seq![' '] + message + e);
    laws::law_trimming_removes_what_is_around(seq![' '], message, e);
}

/// The test that a line of TypeScript test output names as failed.
pub open spec fn script_names(line: Seq<char>) -> Option<Seq<char>> {
    if find::trimmed(line).len() > 0 {
        typescript_output::failed_script_test(find::trimmed(line))
    } else {
        None
    }
}

/// The place that a line of TypeScript test output points to.
pub open spec fn script_points(line: Seq<char>) -> Option<(Seq<char>, u32, u32)> {
    if find::trimmed(line).len() > 0 {
        typescript_output::simple_location(find::trimmed(line))
    } else {
        None
    }
}

/// The message that a line of TypeScript test output states.
pub open spec fn script_says(line: Seq<char>) -> Option<Seq<char>> {
    if find::trimmed(line).len() > 0 {
        typescript_output::test_message(find::trimmed(line))
    } else {
        None
    }
}

/// Whether a line of TypeScript test output says which file or place a failure is in.
pub open spec fn script_locates(line: Seq<char>) -> bool {
    find::trimmed(line).len() > 0 && (typescript_output::failed_test_file(
        find::trimmed(line),
    ) is Some || typescript_output::simple_location(find::trimmed(line)) is Some)
}

/// How many of the given lines state a message.
pub open spec fn script_said(ls: Seq<Seq<char>>) -> nat {
    ls.filter(|line: Seq<char>| script_says(line) is Some).len()
}

proof fn lemma_script_said(ls: Seq<Seq<char>>)
    ensures
        typescript_output::script_test_scan(ls).failures.len() == script_said(ls),
        ls.len() > 0 ==> script_said(ls) == script_said(ls.drop_last()) + (if script_says(
            ls.last(),
        ) is Some {
            1nat
        } else {
            0
        }),
    decreases ls.len(),
{
    reveal(Seq::filter);
    if ls.len() > 0 {
        lemma_script_said(ls.drop_last());
    }
}

proof fn lemma_script_stay(ls: Seq<Seq<char>>, k: int, i: int)
    requires
        0 <= k <= ls.len(),
        0 <= i < typescript_output::script_test_scan(ls.take(k)).failures.len(),
    ensures
        i < typescript_output::script_test_scan(ls).failures.len(),
        typescript_output::script_test_scan(ls).failures[i] == typescript_output::script_test_scan(
            ls.take(k),
        ).failures[i],
    decreases ls.len(),
{
    if k < ls.len() {
        assert(ls.drop_last().take(k) =~= ls.take(k));
        lemma_script_stay(ls.drop_last(), k, i);
    } else {
        assert(ls.take(k) =~= ls);
    }
}

proof fn lemma_script_last_name(ls: Seq<Seq<char>>, j: int)
    requires
        0 <= j < ls.len(),
        script_names(ls[j]) is Some,
        forall|i: int| j < i < ls.len() ==> script_names(#[trigger] ls[i]) is None,
    ensures
        typescript_output::script_test_scan(ls).symbol == script_names(ls[j]),
    decreases ls.len(),
{
    if j < ls.len() - 1 {
        assert(script_names(ls[ls.len() - 1]) is None);
        lemma_script_last_name(ls.drop_last(), j);
    }
}

proof fn lemma_script_last_place(ls: Seq<Seq<char>>, j: int)
    requires
        0 <= j < ls.len(),
        script_points(ls[j]) is Some,
        forall|i: int| j < i < ls.len() ==> !script_locates(#[trigger] ls[i]),
    ensures
        place_of(typescript_output::script_test_scan(ls).target) == script_points(ls[j]),
    decreases ls.len(),
{
    if j < ls.len() - 1 {
        assert(!script_locates(ls[ls.len() - 1]));
        lemma_script_last_place(ls.drop_last(), j);
    }
}

/// The failure that the report on a TypeScript test run has for its line `k`.
pub open spec fn script_failure_at(stdout: Seq<char>, stderr: Seq<char>, k: int) -> FailureView {
    typescript_output::script_test_report(stdout, stderr).failures[script_said(
        output_lines(stdout, stderr).take(k),
    ) as int]
}

proof fn lemma_script_failure_at(stdout: Seq<char>, stderr: Seq<char>, k: int)
    requires
        0 <= k < output_lines(stdout, stderr).len(),
        script_says(output_lines(stdout, stderr)[k]) is Some,
    ensures
        ({
            let upto = typescript_output::script_test_scan(
                output_lines(stdout, stderr).take(k + 1),
            );
            &&& upto.failures.len() > 0
            &&& script_failure_at(stdout, stderr, k) == upto.failures.last()
        }),
{
    let ls = output_lines(stdout, stderr);
    let front = ls.take(k + 1);
    assert(front.drop_last() =~= ls.take(k));
    assert(front.last() == ls[k]);
    lemma_script_said(front);
    lemma_script_said(ls.take(k));
    lemma_script_said(ls);
    lemma_script_stay(ls, k + 1, script_said(ls.take(k)) as int);
}

/// Every line of TypeScript test output that states a message is reported, once and in order,
/// with that message.
pub proof fn law_every_script_message_is_reported(stdout: Seq<char>, stderr: Seq<char>)
    ensures
        script_said(output_lines(stdout, stderr)) > 0 ==> typescript_output::script_test_report(
            stdout,
            stderr,
        ).failures.len() == script_said(output_lines(stdout, stderr)),
        forall|k: int|
            0 <= k < output_lines(stdout, stderr).len() && script_says(
                #[trigger] output_lines(stdout, stderr)[k],
            ) is Some ==> Some(script_failure_at(stdout, stderr, k).message) == script_says(
                output_lines(stdout, stderr)[k],
            ),
{
    let ls = output_lines(stdout, stderr);
    lemma_script_said(ls);
    assert forall|k: int| 0 <= k < ls.len() && script_says(#[trigger] ls[k]) is Some implies Some(
        script_failure_at(stdout, stderr, k).message,
    ) == script_says(ls[k]) by {
        lemma_script_failure_at(stdout, stderr, k);
        assert(ls.take(k + 1).drop_last() =~= ls.take(k));
        assert(ls.take(k + 1).last() == ls[k]);
    }
}

/// A failure in TypeScript test output belongs to the test that was named last, on its own line
/// or before.
pub proof fn law_script_failures_belong_to_the_test_named_last(
    stdout: Seq<char>,
    stderr: Seq<char>,
    j: int,
    k: int,
)
    requires
        0 <= j <= k < output_lines(stdout, stderr).len(),
        script_says(output_lines(stdout, stderr)[k]) is Some,
        script_names(output_lines(stdout, stderr)[j]) is Some,
        forall|i: int|
            j < i <= k ==> script_names(#[trigger] output_lines(stdout, stderr)[i]) is None,
    ensures
        script_failure_at(stdout, stderr, k).target.symbol == script_names(
            output_lines(stdout, stderr)[j],
        ),
{
    let ls = output_lines(stdout, stderr);
    lemma_script_failure_at(stdout, stderr, k);
    assert(ls.take(k + 1).drop_last() =~= ls.take(k));
    assert(ls.take(k + 1).last() == ls[k]);
    assert(ls.take(k + 1)[j] == ls[j]);
    lemma_script_last_name(ls.take(k + 1), j);
}

/// A failure in TypeScript test output happened at the place that was pointed to last, on its
/// own line or before, unless another file was named since.
pub proof fn law_script_failures_happen_at_the_last_place(
    stdout: Seq<char>,
    stderr: Seq<char>,
    j: int,
    k: int,
)
    requires
        0 <= j <= k < output_lines(stdout, stderr).len(),
        script_says(output_lines(stdout, stderr)[k]) is Some,
        script_points(output_lines(stdout, stderr)[j]) is Some,
        forall|i: int|
            j < i <= k ==> !script_locates(#[trigger] output_lines(stdout, stderr)[i]),
    ensures
        place_of(script_failure_at(stdout, stderr, k).target) == script_points(
            output_lines(stdout, stderr)[j],
        ),
{
    let ls = output_lines(stdout, stderr);
    lemma_script_failure_at(stdout, stderr, k);
    assert(ls.take(k + 1).drop_last() =~= ls.take(k));
    assert(ls.take(k + 1).last() == ls[k]);
    assert(ls.take(k + 1)[j] == ls[j]);
    lemma_script_last_place(ls.take(k + 1), j);
}

proof fn lemma_script_last_file(ls: Seq<Seq<char>>, j: int)
    requires
        0 <= j < ls.len(),
        typescript_output::failed_test_file(find::trimmed(ls[j])) is Some,
        find::trimmed(ls[j]).len() > 0,
        script_points(ls[j]) is None,
        forall|i: int| j < i < ls.len() ==> !script_locates(#[trigger] ls[i]),
    ensures
        typescript_output::script_test_scan(ls).target.file_path
            == typescript_output::failed_test_file(find::trimmed(ls[j])),
    decreases ls.len(),
{
    if j < ls.len() - 1 {
        assert(!script_locates(ls[ls.len() - 1]));
        lemma_script_last_file(ls.drop_last(), j);
    }
}

/// A failure in TypeScript test output is in the test file that was named last, unless a place
/// was pointed to since.
pub proof fn law_script_failures_are_in_the_file_named_last(
    stdout: Seq<char>,
    stderr: Seq<char>,
    j: int,
    k: int,
)
    requires
        0 <= j <= k < output_lines(stdout, stderr).len(),
        script_says(output_lines(stdout, stderr)[k]) is Some,
        find::trimmed(output_lines(stdout, stderr)[j]).len() > 0,
        typescript_output::failed_test_file(
            find::trimmed(output_lines(stdout, stderr)[j]),
        ) is Some,
        script_points(output_lines(stdout, stderr)[j]) is None,
        forall|i: int|
            j < i <= k ==> !script_locates(#[trigger] output_lines(stdout, stderr)[i]),
    ensures
        script_failure_at(stdout, stderr, k).target.file_path
            == typescript_output::failed_test_file(
            find::trimmed(output_lines(stdout, stderr)[j]),
        ),
{
    let ls = output_lines(stdout, stderr);
    lemma_script_failure_at(stdout, stderr, k);
    assert(ls.take(k + 1).drop_last() =~= ls.take(k));
    assert(ls.take(k + 1).last() == ls[k]);
    assert(ls.take(k + 1)[j] == ls[j]);
    lemma_script_last_file(ls.take(k + 1), j);
}

/// The first line that is not blank is the first filled one, without the white space around it;
/// blank lines in front do not matter, and what follows does not either.
pub proof fn law_first_filled_line(a: Seq<Seq<char>>, line: Seq<char>, b: Seq<Seq<char>>)
    requires
        forall|i: int| 0 <= i < a.len() ==> find::trimmed(#[trigger] a[i]).len() == 0,
        find::trimmed(line).len() > 0,
    ensures
        split::first_filled_line(a + seq![line] + b) == Some(find::trimmed(line)),
        split::first_filled_line(a) is None,
    decreases a.len(),
{
    let all = a + seq![line] + b;
    if a.len() > 0 {
        let rest = a.subrange(1, a.len() as int);
        assert(find::trimmed(a[0]).len() == 0);
        assert(all[0] == a[0]);
        assert(all.subrange(1, all.len() as int) =~= rest + seq![line] + b);
        assert forall|i: int| 0 <= i < rest.len() implies find::trimmed(#[trigger] rest[i]).len()
            == 0 by {
            assert(rest[i] == a[i + 1]);
        }
        law_first_filled_line(rest, line, b);
    } else {
        assert(all[0] == line);
    }
}

/// A headline is taken from the error output if it holds any filled line, else from the standard
/// output, and else it is what stands in for one.
pub proof fn law_headlines_prefer_errors(
    stdout: Seq<char>,
    stderr: Seq<char>,
    otherwise: Seq<char>,
)
    ensures
        ({
            let said = rust_output::headline(stdout, stderr, otherwise);
            let from_errors = split::first_filled_line(split::lines_of(stderr));
            let from_output = split::first_filled_line(split::lines_of(stdout));
            &&& from_errors is Some ==> Some(said) == from_errors
            &&& from_errors is None && from_output is Some ==> Some(said) == from_output
            &&& from_errors is None && from_output is None ==> said == otherwise
        }),
{
}

/// What stands between the first two single quotes of a message is what it names.
pub proof fn law_quotes_name(a: Seq<char>, name: Seq<char>, b: Seq<char>)
    requires
        !a.contains('\''),
        !name.contains('\''),
        is_tight(name),
        name.len() > 0,
    ensures
        typescript_output::quoted_symbol(a + seq!['\''] + (name + seq!['\''] + b)) == Some(name),
        typescript_output::quoted_symbol(a) is None,
{
    laws::law_cut_at_first(a, '\'', name + seq!['\''] + b);
    laws::law_cut_at_first(name, '\'', b);
    lemma_tight_is_trimmed(name);
}

/// A test file that is reported as failed is named as it was written, and so is the test behind
/// it.
pub proof fn law_failed_script_tests_are_named(file: Seq<char>, test: Seq<char>)
    requires
        laws::is_word(file),
        !file.contains('>'),
        is_tight(test),
        test.len() > 0,
        !test.contains('>'),
    ensures
        ({
            let line = "FAIL "@ + (file + seq![' '] + seq!['>'] + (seq![' '] + test));
            &&& typescript_output::failed_test_file(line) == Some(file)
            &&& typescript_output::failed_script_test(line) == Some(test)
        }),
{
    reveal_strlit("FAIL ");
    let head = file + seq![' '];
    let tail = seq![' '] + test;
    let rest = head + seq!['>'] + tail;
    let line = "FAIL "@ + rest;
    assert(line =~= "FAIL "@ + (file + seq![' '] + seq!['>'] + (seq![' '] + test)));
    assert(line.first() == 'F' && line.last() == test.last());
    lemma_tight_is_trimmed(line);
    assert(line.subrange(0, 5) =~= "FAIL "@);
    assert(line.subrange(5, line.len() as int) =~= rest);
    let after = seq!['>'] + tail;
    assert(rest =~= file + seq![' '] + after);
    laws::law_words_come_one_by_one(file, ' ', after);
    assert(split::words_of(rest)[0] == file);
    let parts = seq![head, tail];
    assert(parts.drop_last() =~= seq![head]);
    assert(split::joined(seq![head], seq!['>']) == head);
    assert(split::joined(parts, seq!['>']) =~= rest);
    assert(!head.contains('>')) by {
        if head.contains('>') {
            let i = choose|i: int| 0 <= i < head.len() && head[i] == '>';
            if i < file.len() {
                assert(file[i] == '>');
            }
        }
    }
    assert(!tail.contains('>')) by {
        if tail.contains('>') {
            let i = choose|i: int| 0 <= i < tail.len() && tail[i] == '>';
            if i > 0 {
                assert(test[i - 1] == '>');
            }
        }
    }
    split::law_split_undoes_join(parts, '>');
    let e = Seq::<char>::empty();
    assert(tail =~= seq![' '] + test + e);
    laws::law_trimming_removes_what_is_around(seq![' '], test, e);
    let one = seq![tail];
    assert(parts.subrange(1, 2) =~= one);
    assert(one.drop_last() =~= Seq::<Seq<char>>::empty());
    assert(typescript_output::filled(one.drop_last()) =~= Seq::<Seq<char>>::empty());
    assert(typescript_output::filled(one) =~= seq![test]);
    assert(split::joined(seq![test], "::"@) == test);
}

/// What stands behind the label of an error is its message, and a line that begins with what was
/// expected or received is one itself.
pub proof fn law_test_messages_are_read(m: Seq<char>)
    requires
        is_tight(m),
        m.len() > 0,
    ensures
        typescript_output::test_message("Error:"@ + m) == Some(m),
        typescript_output::test_message("AssertionError:"@ + m) == Some(m),
        typescript_output::test_message("Expected:"@ + m) == Some("Expected:"@ + m),
        typescript_output::test_message("Received:"@ + m) == Some("Received:"@ + m),
{
    reveal_strlit("Error:");
    reveal_strlit("AssertionError:");
    reveal_strlit("Expected:");
    reveal_strlit("Received:");
    lemma_tight_is_trimmed(m);
    lemma_labelled("Error:"@, m);
    lemma_labelled("AssertionError:"@, m);
    lemma_labelled("Expected:"@, m);
    lemma_labelled("Received:"@, m);
    let a = "AssertionError:"@ + m;
    let x = "Expected:"@ + m;
    let r = "Received:"@ + m;
    assert("Error:"@[0] == 'E' && "AssertionError:"@[0] == 'A');
    assert("Error:"@[1] == 'r' && "Expected:"@[1] == 'x');
    if find::has_prefix(a, "Error:"@) {
        assert(a.subrange(0, 6)[0] == 'A');
    }
    if find::has_prefix(x, "Error:"@) {
        assert(x.subrange(0, 6)[1] == 'x');
    }
    if x.len() >= 15 && find::has_prefix(x, "AssertionError:"@) {
        assert(x.subrange(0, 15)[0] == 'E');
    }
    if find::has_prefix(r, "Error:"@) {
        assert(r.subrange(0, 6)[0] == 'R');
    }
    if r.len() >= 15 && find::has_prefix(r, "AssertionError:"@) {
        assert(r.subrange(0, 15)[0] == 'R');
    }
}

proof fn lemma_labelled(label: Seq<char>, m: Seq<char>)
    requires
        label.len() > 0,
        !chars::is_space(label.first()),
        m.len() > 0,
        is_tight(m),
    ensures
        find::trimmed(label + m) == label + m,
        find::has_prefix(label + m, label),
        find::after_prefix(label + m, label) == Some(m),
{
    let s = label + m;
    assert(s.first() == label.first() && s.last() == m.last());
    lemma_tight_is_trimmed(s);
    assert(s.subrange(0, label.len() as int) =~= label);
    assert(s.subrange(label.len() as int, s.len() as int) =~= m);
}

/// A line of lint output is a failure exactly if it speaks of an error or a warning; it is told
/// as it is, with the place that it points to.
pub proof fn law_lint_failures(line: Seq<char>)
    ensures
        typescript_output::lint_failure(line) is Some <==> find::has_text(line, "error"@)
            || find::has_text(line, "warning"@),
        typescript_output::lint_failure(line) matches Some(f) ==> f.message == line && place_of(
            f.target,
        ) == typescript_output::simple_location(line),
{
}

/// A place in a script that is written as `file:line:column` is read as that place.
pub proof fn law_script_places_read_back(stem: Seq<char>, line: u32, column: u32)
    requires
        laws::is_word(stem),
        !stem.contains(':'),
        !"(),'\""@.contains(stem.first()),
        stem.first() != 'a',
    ensures
        typescript_output::simple_location(
            stem + ".ts"@ + seq![':'] + number::decimal(line as nat) + seq![':'] + number::decimal(
                column as nat,
            ),
        ) == Some((stem + ".ts"@, line, column)),
{
    reveal_strlit(".ts");
    reveal_strlit("at ");
    reveal_strlit("(),'\"");
    let file = stem + ".ts"@;
    let l = number::decimal(line as nat);
    let c = number::decimal(column as nat);
    let head = file + seq![':'] + l;
    let w = head + seq![':'] + c;
    lemma_digits_around(line as nat);
    lemma_digits_around(column as nat);
    number::law_decimal_reads_back(line as nat, u32::MAX as nat);
    number::law_decimal_reads_back(column as nat, u32::MAX as nat);
    assert(w.first() == stem.first());
    assert(!chars::is_space(stem[0]));
    assert(w.last() == c.last());
    assert(chars::is_digit(c[c.len() - 1]));
    lemma_tight_is_trimmed(w);
    if find::has_prefix(w, "at "@) {
        assert(w.subrange(0, 3)[0] == w[0]);
        assert("at "@[0] == 'a');
    }
    assert(find::without_prefixes(w, "at "@) == w);
    let set = "(),'\""@;
    assert(set =~= seq!['(', ')', ',', '\'', '"']);
    assert(!set.contains(w.first()));
    assert(!set.contains(w.last()));
    assert(find::trimmed_of(w, set) == w);
    laws::law_cut_at_last(head, ':', c);
    laws::law_cut_at_last(file, ':', l);
    assert forall|i: int| 0 <= i < c.len() implies !chars::is_space(#[trigger] c[i]) by {
        assert(chars::is_digit(c[i]));
    }
    laws::law_words_come_one_by_one(c, ' ', Seq::empty());
    assert(split::words_of(c)[0] == c);
    assert(file.last() == 's' && file.first() == stem.first());
    lemma_tight_is_trimmed(file);
    assert(file.subrange(file.len() - 3, file.len() as int) =~= ".ts"@);
}

/// The codes of the TypeScript compiler that are known have classes of their own, and any other
/// error about what can be assigned is one of types.
pub proof fn law_script_error_classes(code: Seq<char>, message: Seq<char>)
    ensures
        typescript_output::typescript_error_class(code, chars::lowercase(message))
            == typescript_output::typescript_error_class(code, message),
        typescript_output::typescript_error_class("2304"@, message)
            == "compile.missing_symbol"@,
        typescript_output::typescript_error_class("2339"@, message)
            == "compile.missing_property"@,
        typescript_output::typescript_error_class("2322"@, message) == "compile.type_mismatch"@,
        typescript_output::typescript_error_class("2345"@, message)
            == "compile.invalid_argument_type"@,
{
    reveal_strlit("2304");
    reveal_strlit("2339");
    reveal_strlit("2322");
    reveal_strlit("2345");
    assert("2304"@[1] == '3' && "2304"@[2] == '0' && "2339"@[2] == '3' && "2322"@[2] == '2');
    assert("2345"@[2] == '4');
    assert(chars::lowercase(chars::lowercase(message)) =~= chars::lowercase(message)) by {
        assert forall|c: char| #[trigger] chars::lower(chars::lower(c)) == chars::lower(c) by {}
    }
}

/// Where the first line of a message names nothing, the message names what the first line behind
/// it names that points to no place.
pub proof fn law_messages_name_what_they_say_first(
    command: CargoCommandKind,
    ls: Seq<Seq<char>>,
    j: int,
)
    requires
        is_one_message(command, ls),
        0 < j < ls.len(),
        find::trimmed(ls[j]).len() > 0,
        points(ls[j]) is None,
        rust_output::backticked(find::trimmed(ls[j])) is Some,
        rust_output::backticked(find::trimmed(ls[0])) is None,
        forall|i: int|
            0 < i < j ==> points(#[trigger] ls[i]) is Some || rust_output::backticked(
                find::trimmed(ls[i]),
            ) is None,
    ensures
        rust_output::issues(command, ls).len() == 1,
        rust_output::issues(command, ls)[0].target.symbol == rust_output::backticked(
            find::trimmed(ls[j]),
        ),
    decreases ls.len(),
{
    lemma_beginnings_are_filled(command, find::trimmed(ls[0]));
    law_one_message_is_one_failure(command, ls);
    lemma_one_message_front(command, ls);
    law_one_message_is_one_failure(command, ls.drop_last());
    if j < ls.len() - 1 {
        law_messages_name_what_they_say_first(command, ls.drop_last(), j);
    } else {
        lemma_nothing_named_yet(command, ls.drop_last());
    }
}

proof fn lemma_nothing_named_yet(command: CargoCommandKind, ls: Seq<Seq<char>>)
    requires
        is_one_message(command, ls),
        rust_output::backticked(find::trimmed(ls[0])) is None,
        forall|i: int|
            0 < i < ls.len() ==> points(#[trigger] ls[i]) is Some || rust_output::backticked(
                find::trimmed(ls[i]),
            ) is None,
    ensures
        rust_output::issues(command, ls).len() == 1,
        rust_output::issues(command, ls)[0].target.symbol is None,
    decreases ls.len(),
{
    lemma_beginnings_are_filled(command, find::trimmed(ls[0]));
    law_one_message_is_one_failure(command, ls);
    if ls.len() > 1 {
        lemma_one_message_front(command, ls);
        law_one_message_is_one_failure(command, ls.drop_last());
        lemma_nothing_named_yet(command, ls.drop_last());
        assert(points(ls[ls.len() - 1]) is Some || rust_output::backticked(
            find::trimmed(ls[ls.len() - 1]),
        ) is None);
    } else {
        assert(ls.drop_last() =~= Seq::<Seq<char>>::empty());
        assert(rust_output::issues(command, ls.drop_last()) =~= Seq::<FailureView>::empty());
        assert(ls.last() == ls[0]);
    }
}

/// A test run whose output states no failure is reported as one unknown failure, of the test
/// that was named last and at the place that was pointed to last.
pub proof fn law_unstated_failures_are_reported(
    stdout: Seq<char>,
    stderr: Seq<char>,
    j: int,
    k: int,
)
    requires
        stated(output_lines(stdout, stderr)) == 0,
        0 <= j < output_lines(stdout, stderr).len(),
        names(output_lines(stdout, stderr)[j]) is Some,
        forall|i: int|
            j < i < output_lines(stdout, stderr).len() ==> names(
                #[trigger] output_lines(stdout, stderr)[i],
            ) is None,
        0 <= k < output_lines(stdout, stderr).len(),
        points(output_lines(stdout, stderr)[k]) is Some,
        forall|i: int|
            k < i < output_lines(stdout, stderr).len() ==> points(
                #[trigger] output_lines(stdout, stderr)[i],
            ) is None,
    ensures
        ({
            let told = rust_output::test_report(stdout, stderr).failures;
            &&& told.len() == 1
            &&& told[0].error_class == "test.unknown"@
            &&& told[0].message == rust_output::headline(stdout, stderr, "test failure"@)
            &&& told[0].target.symbol == names(output_lines(stdout, stderr)[j])
            &&& place_of(told[0].target) == points(output_lines(stdout, stderr)[k])
        }),
{
    let ls = output_lines(stdout, stderr);
    lemma_stated_count(ls);
    lemma_last_name(ls, j);
    lemma_last_place(ls, k);
}

/// Script output without a failure is reported as one unknown failure, with its first filled line
/// as the message.
pub proof fn law_unstated_script_failures_are_reported(stdout: Seq<char>, stderr: Seq<char>)
    ensures
        ({
            let ls = output_lines(stdout, stderr);
            let told = typescript_output::compile_report(stdout, stderr).failures;
            let linted = typescript_output::lint_report(stdout, stderr).failures;
            let first = split::first_filled_line(ls);
            &&& typescript_output::compile_failures(ls).len() == 0 ==> {
                &&& told.len() == 1
                &&& told[0].error_class == "compile.unknown"@
                &&& first is Some ==> Some(told[0].message) == first
            }
            &&& typescript_output::compile_failures(ls).len() > 0 ==> told
                == typescript_output::compile_failures(ls)
            &&& typescript_output::lint_failures(ls).len() == 0 ==> {
                &&& linted.len() == 1
                &&& first is Some ==> Some(linted[0].message) == first
            }
            &&& typescript_output::lint_failures(ls).len() > 0 ==> linted
                == typescript_output::lint_failures(ls)
        }),
{
}

/// Both outputs of a run are read, the standard output first.
pub proof fn law_both_outputs_are_read(stdout: Seq<char>, stderr: Seq<char>)
    requires
        stdout.len() > 0,
        !stdout.contains('\n'),
        !stdout.contains('\r'),
    ensures
        output_lines(stdout, stderr) == seq![stdout] + split::lines_of(stderr),
{
    reveal_strlit("\n");
    assert("\n"@ =~= seq!['\n']);
    laws::law_lines_come_one_by_one(stdout, stderr);
}

proof fn lemma_text_inside(a: Seq<char>, p: Seq<char>, b: Seq<char>)
    ensures
        find::has_text(a + p + b, p),
{
    let s = a + p + b;
    assert(s.subrange(a.len() as int, a.len() as int + p.len()) =~= p);
    assert(find::occurs_at(s, p, a.len() as int));
}

proof fn lemma_text_in_front(p: Seq<char>, b: Seq<char>)
    ensures
        find::has_prefix(p + b, p),
{
    assert((p + b).subrange(0, p.len() as int) =~= p);
}

/// A line that says that an assertion on two values failed states a failed assertion, whatever
/// stands around it; of the others one that says, in letters of any case, that nothing was
/// unwrapped states a panic, and no other line states a failure.
pub proof fn law_stated_test_failures(a: Seq<char>, b: Seq<char>, line: Seq<char>)
    ensures
        rust_output::test_line_class(a + "assertion `left == right` failed"@ + b) == Some(
            "test.assertion"@,
        ),
        ({
            let asserted = find::has_text(line, "assertion `left == right` failed"@);
            let unwrapped = find::has_text(
                chars::lowercase(line),
                "called `option::unwrap()` on a `none` value"@,
            );
            &&& !asserted && unwrapped ==> rust_output::test_line_class(line) == Some(
                "test.panic_unwrap"@,
            )
            &&& rust_output::test_line_class(line) is None <==> !asserted && !unwrapped
        }),
{
    lemma_text_inside(a, "assertion `left == right` failed"@, b);
}

/// Notes and hints belong to the message before them, with and without the mark that the
/// compiler puts in front.
pub proof fn law_notes_and_hints_are_context(rest: Seq<char>)
    ensures
        rust_output::is_context("help:"@ + rest),
        rust_output::is_context("note:"@ + rest),
        rust_output::is_context("= note:"@ + rest),
        rust_output::is_context("= help:"@ + rest),
{
    lemma_text_in_front("help:"@, rest);
    lemma_text_in_front("note:"@, rest);
    lemma_text_in_front("= note:"@, rest);
    lemma_text_in_front("= help:"@, rest);
}

/// A line begins a message if it begins with an error; in lint output also if it begins with a
/// warning or a note, which in other output it does not.
pub proof fn law_beginnings_of_messages(rest: Seq<char>, command: CargoCommandKind)
    ensures
        rust_output::begins_issue(command, "error"@ + rest),
        rust_output::begins_issue(command, "warning:"@ + rest) <==> command is Clippy,
        rust_output::begins_issue(command, "note:"@ + rest) <==> command is Clippy,
{
    reveal_strlit("error");
    reveal_strlit("warning:");
    reveal_strlit("note:");
    lemma_text_in_front("error"@, rest);
    lemma_text_in_front("warning:"@, rest);
    lemma_text_in_front("note:"@, rest);
    let w = "warning:"@ + rest;
    let n = "note:"@ + rest;
    assert("error"@[0] == 'e');
    if find::has_prefix(w, "error"@) {
        assert(w.subrange(0, 5)[0] == 'w');
    }
    if find::has_prefix(n, "error"@) {
        assert(n.subrange(0, 5)[0] == 'n');
    }
}

/// Messages on delimiters, types, functions, fields, traits and two lints have classes of their
/// own, in this order; any other message has the unknown class of its command.
pub proof fn law_message_classes(command: CargoCommandKind, message: Seq<char>)
    ensures
        ({
            let l = chars::lowercase(message);
            let class = rust_output::error_class(command, message);
            let delimiter = find::has_text(l, "unclosed delimiter"@);
            let types = find::has_text(l, "mismatched types"@);
            let function = find::has_text(l, "cannot find function"@);
            let field = find::has_text(l, "has no field named"@);
            let bound = find::has_text(l, "doesn't implement"@) || find::has_text(
                l,
                "trait bound"@,
            ) || find::has_text(l, "the trait"@);
            &&& class == "parser.unclosed_delimiter"@ <==> delimiter
            &&& class == "compile.type_mismatch"@ <==> !delimiter && types
            &&& class == "compile.missing_function"@ <==> !delimiter && !types && function
            &&& class == "compile.unknown_struct_field"@ <==> !delimiter && !types && !function
                && field
            &&& class == "compile.missing_trait_bound"@ <==> !delimiter && !types && !function
                && !field && bound
        }),
{
    reveal_strlit("parser.unclosed_delimiter");
    reveal_strlit("compile.type_mismatch");
    reveal_strlit("compile.missing_function");
    reveal_strlit("compile.unknown_struct_field");
    reveal_strlit("compile.missing_trait_bound");
    reveal_strlit("lint.clippy_needless_return");
    reveal_strlit("lint.clippy_identity_op");
    reveal_strlit("lint.unknown");
    reveal_strlit("compile.unknown");
    reveal_strlit("unknown");
    assert("parser.unclosed_delimiter"@.len() == 25 && "compile.type_mismatch"@.len() == 21);
    assert("compile.missing_function"@.len() == 24);
    assert("compile.unknown_struct_field"@.len() == 28);
    assert("compile.missing_trait_bound"@.len() == 27);
    assert("lint.clippy_needless_return"@.len() == 27);
    assert("compile.missing_trait_bound"@[0] == 'c' && "lint.clippy_needless_return"@[0] == 'l');
    assert("lint.clippy_identity_op"@.len() == 23 && "lint.unknown"@.len() == 12);
    assert("compile.unknown"@.len() == 15 && "unknown"@.len() == 7);
}

/// Files are scripts by their extensions, whatever they are called.
pub proof fn law_script_files(stem: Seq<char>)
    ensures
        typescript_output::is_script_file(stem + ".ts"@),
        typescript_output::is_script_file(stem + ".tsx"@),
        typescript_output::is_script_file(stem + ".mts"@),
        typescript_output::is_script_file(stem + ".cts"@),
        typescript_output::is_script_file(stem + ".js"@),
        typescript_output::is_script_file(stem + ".jsx"@),
{
    lemma_text_behind(stem, ".ts"@);
    lemma_text_behind(stem, ".tsx"@);
    lemma_text_behind(stem, ".mts"@);
    lemma_text_behind(stem, ".cts"@);
    lemma_text_behind(stem, ".js"@);
    lemma_text_behind(stem, ".jsx"@);
}

proof fn lemma_text_behind(a: Seq<char>, p: Seq<char>)
    ensures
        find::has_suffix(a + p, p),
{
    let s = a + p;
    assert(s.subrange(s.len() - p.len(), s.len() as int) =~= p);
}

/// Test messages that tell what was expected or received are failed assertions, whatever stands
/// around it; of the others those that tell of time that ran out are timeouts.
pub proof fn law_test_message_classes(a: Seq<char>, b: Seq<char>, message: Seq<char>)
    ensures
        typescript_output::test_message_class(a + "expected:"@ + b) == "test.assertion"@,
        typescript_output::test_message_class(a + "received:"@ + b) == "test.assertion"@,
        typescript_output::test_message_class(chars::lowercase(message))
            == typescript_output::test_message_class(message),
        ({
            let l = chars::lowercase(message);
            let asserted = find::has_text(l, "expected:"@) || find::has_text(l, "received:"@)
                || find::has_text(l, "toequal"@);
            let late = find::has_text(l, "timed out"@) || find::has_text(l, "timeout"@);
            typescript_output::test_message_class(message) == "test.timeout"@ <==> !asserted && late
        }),
{
    reveal_strlit("expected:");
    reveal_strlit("received:");
    reveal_strlit("test.assertion");
    reveal_strlit("test.timeout");
    reveal_strlit("test.runtime_type_error");
    reveal_strlit("test.unknown");
    assert("test.assertion"@.len() == 14 && "test.timeout"@.len() == 12);
    assert("test.runtime_type_error"@.len() == 23 && "test.unknown"@.len() == 12);
    assert("test.timeout"@[5] == 't' && "test.unknown"@[5] == 'u');
    let x = chars::lowercase(a);
    let y = chars::lowercase(b);
    assert(chars::lowercase("expected:"@) =~= "expected:"@);
    assert(chars::lowercase("received:"@) =~= "received:"@);
    lemma_text_inside(x, "expected:"@, y);
    lemma_text_inside(x, "received:"@, y);
    assert(chars::lowercase(a + "expected:"@ + b) =~= x + "expected:"@ + y);
    assert(chars::lowercase(a + "received:"@ + b) =~= x + "received:"@ + y);
    assert(chars::lowercase(chars::lowercase(message)) =~= chars::lowercase(message)) by {
        assert forall|c: char| #[trigger] chars::lower(chars::lower(c)) == chars::lower(c) by {}
    }
}

} // verus!
