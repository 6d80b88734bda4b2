//! Failures in the output of cargo.
use crate::failure_parser::command;
use crate::failure_parser::command::{classify_cargo_command, CargoCommandKind};
use crate::failure_parser::report;
use crate::failure_parser::report::{
    FailureStage, FailureTarget, FailureView, ParsedFailure, ParsedFailureReport, ReportView,
    TargetView,
};
use crate::text::chars;
use crate::text::chars::{own, to_lowercase_ascii};
use crate::text::find;
use crate::text::find::{
    contains, contains_char, ends_with, starts_with, trim, trim_end_matches, trim_of,
    trim_start_matches,
};
use crate::text::number;
use crate::text::number::parse_u32;
use crate::text::split;
use crate::text::split::{
    first_nonempty_line, last_word, lines, rsplit_once, rsplit_once_text, split_once,
    split_whitespace,
};
use vstd::prelude::*;
use vstd::string::*;

verus! {

broadcast use {
    chars::lemma_texts_push,
    chars::lemma_texts_empty,
    report::lemma_failures_push,
};

/// The name of the test that a line reports as failed.
pub open spec fn failed_test_name(line: Seq<char>) -> Option<Seq<char>> {
    if find::has_prefix(line, "test "@) && find::has_text(line, " ... FAILED"@) {
        if split::words_of(line).len() > 1 {
            Some(split::words_of(line)[1])
        } else {
            None
        }
    } else if find::has_prefix(line, "---- "@) && find::has_suffix(line, " stdout ----"@) {
        let inner = find::without_suffixes(
            find::without_prefixes(line, "---- "@),
            " stdout ----"@,
        );
        if inner.len() > 0 {
            Some(inner)
        } else {
            None
        }
    } else {
        None
    }
}

/// The number that a text stands for, where it fits in `u32`.
pub open spec fn small_number(s: Seq<char>) -> Option<u32> {
    match number::parsed_number(s, u32::MAX as nat) {
        Some(n) => Some(n as u32),
        None => None,
    }
}

/// The location written as `path:line:column`.
pub open spec fn path_line_column(s: Seq<char>) -> Option<(Seq<char>, u32, u32)> {
    match split::cut_at_last(s, ':') {
        Some(outer) => match split::cut_at_last(outer.0, ':') {
            Some(inner) => match (small_number(inner.1), small_number(outer.1)) {
                (Some(row), Some(col)) => if find::trimmed(inner.0).len() > 0 {
                    Some((find::trimmed(inner.0), row, col))
                } else {
                    None
                },
                _ => None,
            },
            None => None,
        },
        None => None,
    }
}

/// The part of a line of rustc or test output that can hold a location: what follows the
/// last `, `, else the last word.
pub open spec fn location_part(line: Seq<char>) -> Option<Seq<char>> {
    let rest = find::trimmed(find::without_prefixes(find::trimmed(line), "-->"@));
    match split::cut_at_last_text(rest, ", "@) {
        Some(cut) => Some(find::trimmed(cut.1)),
        None => if rest.contains(' ') {
            if split::words_of(rest).len() > 0 {
                Some(split::words_of(rest).last())
            } else {
                None
            }
        } else {
            Some(rest)
        },
    }
}

/// The location that a line of rustc or test output points to.
pub open spec fn rust_location(line: Seq<char>) -> Option<(Seq<char>, u32, u32)> {
    match location_part(line) {
        Some(part) => path_line_column(find::trimmed_of(part, "'\",)("@)),
        None => None,
    }
}

/// The text between the first two backticks, unless it is empty.
pub open spec fn backticked(text: Seq<char>) -> Option<Seq<char>> {
    match split::cut_at(text, '`') {
        Some(outer) => match split::cut_at(outer.1, '`') {
            Some(inner) => if inner.0.len() > 0 {
                Some(inner.0)
            } else {
                None
            },
            None => None,
        },
        None => None,
    }
}

/// Whether a line adds context to the failure before it.
pub open spec fn is_context(line: Seq<char>) -> bool {
    find::has_prefix(line, "help:"@) || find::has_prefix(line, "note:"@) || find::has_prefix(
        line,
        "= note:"@,
    ) || find::has_prefix(line, "= help:"@)
}

/// The class of a failure that no rule knows.
pub open spec fn unknown_class(command: CargoCommandKind) -> Seq<char> {
    match command {
        CargoCommandKind::Clippy => "lint.unknown"@,
        CargoCommandKind::Check => "compile.unknown"@,
        _ => "unknown"@,
    }
}

/// The class of a compiler or lint message.
pub open spec fn error_class(command: CargoCommandKind, message: Seq<char>) -> Seq<char> {
    let l = chars::lowercase(message);
    if find::has_text(l, "unclosed delimiter"@) {
        "parser.unclosed_delimiter"@
    } else if find::has_text(l, "mismatched types"@) {
        "compile.type_mismatch"@
    } else if find::has_text(l, "cannot find function"@) {
        "compile.missing_function"@
    } else if find::has_text(l, "has no field named"@) {
        "compile.unknown_struct_field"@
    } else if find::has_text(l, "doesn't implement"@) || find::has_text(l, "trait bound"@)
        || find::has_text(l, "the trait"@) {
        "compile.missing_trait_bound"@
    } else if find::has_text(l, "unneeded `return` statement"@) || find::has_text(
        l,
        "needless_return"@,
    ) {
        "lint.clippy_needless_return"@
    } else if find::has_text(l, "this operation has no effect"@) || find::has_text(
        l,
        "identity_op"@,
    ) {
        "lint.clippy_identity_op"@
    } else {
        unknown_class(command)
    }
}

/// Whether some failure says that the source did not parse.
pub open spec fn any_parse_failure(failures: Seq<FailureView>) -> bool {
    exists|i: int|
        0 <= i < failures.len() && (find::has_prefix(
            (#[trigger] failures[i]).error_class,
            "parser."@,
        ) || find::has_text(failures[i].message, "unclosed delimiter"@))
}

/// The stage that the failures of a check or lint run belong to.
pub open spec fn stage_of(command: CargoCommandKind, failures: Seq<FailureView>) -> FailureStage {
    match command {
        CargoCommandKind::Clippy => FailureStage::Lint,
        CargoCommandKind::Check => if any_parse_failure(failures) {
            FailureStage::Parse
        } else {
            FailureStage::Compile
        },
        _ => FailureStage::Unknown,
    }
}

/// The first value that is present, else the given text.
pub open spec fn first_of(
    a: Option<Seq<char>>,
    b: Option<Seq<char>>,
    otherwise: Seq<char>,
) -> Seq<char> {
    match a {
        Some(x) => x,
        None => match b {
            Some(y) => y,
            None => otherwise,
        },
    }
}

/// The first filled line of the error output, else of the standard output, else `otherwise`.
pub open spec fn headline(stdout: Seq<char>, stderr: Seq<char>, otherwise: Seq<char>) -> Seq<char> {
    first_of(
        split::first_filled_line(split::lines_of(stderr)),
        split::first_filled_line(split::lines_of(stdout)),
        otherwise,
    )
}

/// What has been read of a test run's output.
#[verifier::ext_equal]
pub struct TestScan {
    pub failures: Seq<FailureView>,
    pub symbol: Option<Seq<char>>,
    pub location: TargetView,
}

/// The class of the test failure that a line states, if it states one.
pub open spec fn test_line_class(line: Seq<char>) -> Option<Seq<char>> {
    if find::has_text(line, "assertion `left == right` failed"@) {
        Some("test.assertion"@)
    } else if find::has_text(
        chars::lowercase(line),
        "called `option::unwrap()` on a `none` value"@,
    ) {
        Some("test.panic_unwrap"@)
    } else {
        None
    }
}

/// What has been read after one more (trimmed) line: a test name and a location are kept
/// for the failures that follow them.
pub open spec fn test_scan_line(st: TestScan, line: Seq<char>) -> TestScan {
    let symbol = match failed_test_name(line) {
        Some(name) => Some(name),
        None => st.symbol,
    };
    let location = match rust_location(line) {
        Some(at) => report::located(st.location, at),
        None => st.location,
    };
    let failures = match test_line_class(line) {
        Some(class) => st.failures.push(
            FailureView {
                error_class: class,
                message: line,
                target: report::named(location, symbol),
            },
        ),
        None => st.failures,
    };
    TestScan { failures, symbol, location }
}

/// What has been read of a test run's output after all its lines.
pub open spec fn test_scan(ls: Seq<Seq<char>>) -> TestScan
    decreases ls.len(),
{
    if ls.len() == 0 {
        TestScan {
            failures: Seq::<FailureView>::empty(),
            symbol: None,
            location: report::no_target(),
        }
    } else {
        test_scan_line(test_scan(ls.drop_last()), find::trimmed(ls.last()))
    }
}

/// Standard output and error output, one after the other.
pub open spec fn both_outputs(stdout: Seq<char>, stderr: Seq<char>) -> Seq<char> {
    stdout + "\n"@ + stderr
}

/// The report on a failed `cargo test`.
pub open spec fn test_report(stdout: Seq<char>, stderr: Seq<char>) -> ReportView {
    let st = test_scan(split::lines_of(both_outputs(stdout, stderr)));
    ReportView {
        command: CargoCommandKind::Test,
        stage: FailureStage::Test,
        failures: if st.failures.len() > 0 {
            st.failures
        } else {
            seq![
                FailureView {
                    error_class: "test.unknown"@,
                    message: headline(stdout, stderr, "test failure"@),
                    target: report::named(st.location, st.symbol),
                },
            ]
        },
    }
}

/// Whether a line begins a new compiler or lint message.
pub open spec fn begins_issue(command: CargoCommandKind, line: Seq<char>) -> bool {
    find::has_prefix(line, "error"@) || (command == CargoCommandKind::Clippy && find::has_prefix(
        line,
        "warning:"@,
    )) || (command == CargoCommandKind::Clippy && find::has_prefix(line, "note:"@))
}

/// A message together with one more line that belongs to it.
pub open spec fn issue_with_line(issue: FailureView, line: Seq<char>) -> FailureView {
    match rust_location(line) {
        Some(at) => FailureView {
            error_class: issue.error_class,
            message: issue.message,
            target: report::located(issue.target, at),
        },
        None => FailureView {
            error_class: issue.error_class,
            message: if is_context(line) {
                issue.message + " "@ + line
            } else {
                issue.message
            },
            target: report::named(
                issue.target,
                match issue.target.symbol {
                    Some(s) => Some(s),
                    None => backticked(line),
                },
            ),
        },
    }
}

/// The message that a line begins.
pub open spec fn new_issue(command: CargoCommandKind, line: Seq<char>) -> FailureView {
    FailureView {
        error_class: error_class(command, line),
        message: line,
        target: report::named(report::no_target(), backticked(line)),
    }
}

/// The messages of a check or lint run: each line that begins a message starts a new one,
/// and any other filled line belongs to the message before it.
pub open spec fn issues(command: CargoCommandKind, ls: Seq<Seq<char>>) -> Seq<FailureView>
    decreases ls.len(),
{
    if ls.len() == 0 {
        Seq::<FailureView>::empty()
    } else {
        let before = issues(command, ls.drop_last());
        let line = find::trimmed(ls.last());
        if line.len() == 0 {
            before
        } else if begins_issue(command, line) {
            before.push(new_issue(command, line))
        } else if before.len() == 0 {
            before
        } else {
            before.drop_last().push(issue_with_line(before.last(), line))
        }
    }
}

/// The report on a failed `cargo check` or `cargo clippy`.
pub open spec fn issue_report(stderr: Seq<char>, command: CargoCommandKind) -> ReportView {
    let found = issues(command, split::lines_of(stderr));
    let failures = if found.len() > 0 {
        found
    } else {
        seq![
            FailureView {
                error_class: unknown_class(command),
                message: first_of(
                    split::first_filled_line(split::lines_of(stderr)),
                    None,
                    "unknown failure"@,
                ),
                target: report::no_target(),
            },
        ]
    };
    ReportView { command, stage: stage_of(command, failures), failures }
}

/// The report on a failed command that is no known verifier.
pub open spec fn unknown_report(stdout: Seq<char>, stderr: Seq<char>) -> ReportView {
    ReportView {
        command: CargoCommandKind::Unknown,
        stage: FailureStage::Unknown,
        failures: seq![
            FailureView {
                error_class: "unknown"@,
                message: headline(stdout, stderr, "unknown cargo failure"@),
                target: report::no_target(),
            },
        ],
    }
}

/// The report on a failed cargo command.
pub open spec fn cargo_report(
    parts: Seq<Seq<char>>,
    stdout: Seq<char>,
    stderr: Seq<char>,
) -> ReportView {
    match command::cargo_kind(parts) {
        CargoCommandKind::Test => test_report(stdout, stderr),
        CargoCommandKind::Clippy => issue_report(stderr, CargoCommandKind::Clippy),
        CargoCommandKind::Check => issue_report(stderr, CargoCommandKind::Check),
        CargoCommandKind::Unknown => unknown_report(stdout, stderr),
    }
}

fn parse_failed_test_name(line: &str) -> (r: Option<String>)
    ensures
        chars::opt_text(r) == failed_test_name(line@),
{
    if starts_with(line, "test ") && contains(line, " ... FAILED") {
        let ws = split_whitespace(line);
        if ws.len() > 1 {
            proof {
                assert(chars::texts(ws@)[1] == ws@[1]@);
            }
            return Some(own(ws[1].as_str()));
        }
        return None;
    }
    if starts_with(line, "---- ") && ends_with(line, " stdout ----") {
        let head = trim_start_matches(line, "---- ");
        let inner = trim_end_matches(head.as_str(), " stdout ----");
        if !inner.as_str().is_empty() {
            return Some(inner);
        }
    }
    None
}

/// Reads a location written as `path:line:column`.
pub fn parse_path_line_column(s: &str) -> (r: Option<(String, u32, u32)>)
    ensures
        report::location_view(r) == path_line_column(s@),
{
    let outer = match rsplit_once(s, ':') {
        Some(p) => p,
        None => {
            return None;
        },
    };
    let inner = match rsplit_once(outer.0.as_str(), ':') {
        Some(p) => p,
        None => {
            return None;
        },
    };
    let path = trim(inner.0.as_str());
    match (parse_u32(inner.1.as_str()), parse_u32(outer.1.as_str())) {
        (Some(row), Some(col)) => {
            if path.as_str().is_empty() {
                None
            } else {
                Some((path, row, col))
            }
        },
        _ => None,
    }
}

fn parse_rust_location(line: &str) -> (r: Option<(String, u32, u32)>)
    ensures
        report::location_view(r) == rust_location(line@),
{
    let first = trim(line);
    let second = trim_start_matches(first.as_str(), "-->");
    let rest = trim(second.as_str());
    let part = match rsplit_once_text(rest.as_str(), ", ") {
        Some(cut) => trim(cut.1.as_str()),
        None => {
            if contains_char(rest.as_str(), ' ') {
                match last_word(rest.as_str()) {
                    Some(w) => w,
                    None => {
                        return None;
                    },
                }
            } else {
                rest
            }
        },
    };
    let bare = trim_of(part.as_str(), "'\",)(");
    parse_path_line_column(bare.as_str())
}

fn extract_symbol(text: &str) -> (r: Option<String>)
    ensures
        chars::opt_text(r) == backticked(text@),
{
    match split_once(text, '`') {
        Some(outer) => match split_once(outer.1.as_str(), '`') {
            Some(inner) => {
                if inner.0.as_str().is_empty() {
                    None
                } else {
                    Some(inner.0)
                }
            },
            None => None,
        },
        None => None,
    }
}

fn should_append_context(line: &str) -> (r: bool)
    ensures
        r == is_context(line@),
{
    starts_with(line, "help:") || starts_with(line, "note:") || starts_with(line, "= note:")
        || starts_with(line, "= help:")
}

fn unknown_class_name(command: CargoCommandKind) -> (r: String)
    ensures
        r@ == unknown_class(command),
{
    match command {
        CargoCommandKind::Clippy => own("lint.unknown"),
        CargoCommandKind::Check => own("compile.unknown"),
        _ => own("unknown"),
    }
}

fn classify_error_class(command: CargoCommandKind, message: &str) -> (r: String)
    ensures
        r@ == error_class(command, message@),
{
    let lower = to_lowercase_ascii(message);
    let l = lower.as_str();
    if contains(l, "unclosed delimiter") {
        own("parser.unclosed_delimiter")
    } else if contains(l, "mismatched types") {
        own("compile.type_mismatch")
    } else if contains(l, "cannot find function") {
        own("compile.missing_function")
    } else if contains(l, "has no field named") {
        own("compile.unknown_struct_field")
    } else if contains(l, "doesn't implement") || contains(l, "trait bound") || contains(
        l,
        "the trait",
    ) {
        own("compile.missing_trait_bound")
    } else if contains(l, "unneeded `return` statement") || contains(l, "needless_return") {
        own("lint.clippy_needless_return")
    } else if contains(l, "this operation has no effect") || contains(l, "identity_op") {
        own("lint.clippy_identity_op")
    } else {
        unknown_class_name(command)
    }
}

fn infer_stage_from_failures(
    command: CargoCommandKind,
    failures: &[ParsedFailure],
) -> (r: FailureStage)
    ensures
        r == stage_of(command, report::failures_view(failures@)),
{
    match command {
        CargoCommandKind::Clippy => FailureStage::Lint,
        CargoCommandKind::Check => {
            let ghost all = report::failures_view(failures@);
            let mut i: usize = 0;
            while i < failures.len()
                invariant
                    command == CargoCommandKind::Check,
                    all == report::failures_view(failures@),
                    i <= failures@.len(),
                    forall|j: int|
                        0 <= j < i ==> !(find::has_prefix(
                            (#[trigger] all[j]).error_class,
                            "parser."@,
                        ) || find::has_text(all[j].message, "unclosed delimiter"@)),
                decreases failures@.len() - i,
            {
                proof {
                    assert(all[i as int] == failures@[i as int]@);
                }
                if starts_with(failures[i].error_class.as_str(), "parser.") || contains(
                    failures[i].message.as_str(),
                    "unclosed delimiter",
                ) {
                    return FailureStage::Parse;
                }
                i = i + 1;
            }
            FailureStage::Compile
        },
        _ => FailureStage::Unknown,
    }
}

fn headline_text(stdout: &str, stderr: &str, otherwise: &str) -> (r: String)
    ensures
        r@ == headline(stdout@, stderr@, otherwise@),
{
    match first_nonempty_line(stderr) {
        Some(m) => m,
        None => match first_nonempty_line(stdout) {
            Some(m) => m,
            None => own(otherwise),
        },
    }
}

/// The first filled line of the text, else `otherwise`.
pub fn first_line_or(text: &str, otherwise: &str) -> (r: String)
    ensures
        r@ == first_of(split::first_filled_line(split::lines_of(text@)), None, otherwise@),
{
    match first_nonempty_line(text) {
        Some(m) => m,
        None => own(otherwise),
    }
}

fn test_failure_class(line: &str) -> (r: Option<String>)
    ensures
        chars::opt_text(r) == test_line_class(line@),
{
    if contains(line, "assertion `left == right` failed") {
        return Some(own("test.assertion"));
    }
    let lower = to_lowercase_ascii(line);
    if contains(lower.as_str(), "called `option::unwrap()` on a `none` value") {
        return Some(own("test.panic_unwrap"));
    }
    None
}

/// Standard output and error output, one after the other.
pub fn combine_outputs(stdout: &str, stderr: &str) -> (r: String)
    ensures
        r@ == both_outputs(stdout@, stderr@),
{
    chars::concat3(stdout, "\n", stderr)
}

fn parse_test_failure(stdout: &str, stderr: &str) -> (r: ParsedFailureReport)
    ensures
        r@ == test_report(stdout@, stderr@),
{
    let combined = combine_outputs(stdout, stderr);
    let ls = lines(combined.as_str());
    let ghost all = split::lines_of(both_outputs(stdout@, stderr@));
    let mut failures: Vec<ParsedFailure> = Vec::new();
    let mut symbol: Option<String> = None;
    let mut location = FailureTarget::default();
    let mut i: usize = 0;
    proof {
        assert(report::failures_view(failures@) =~= Seq::<FailureView>::empty());
        assert(all.take(0) =~= Seq::<Seq<char>>::empty());
    }
    while i < ls.len()
        invariant
            all == chars::texts(ls@),
            i <= ls@.len(),
            test_scan(all.take(i as int)) == (TestScan {
                failures: report::failures_view(failures@),
                symbol: chars::opt_text(symbol),
                location: location@,
            }),
        decreases ls@.len() - i,
    {
        proof {
            assert(all.take(i + 1).drop_last() =~= all.take(i as int));
            assert(all.take(i + 1).last() == ls@[i as int]@);
        }
        let line = trim(ls[i].as_str());
        match parse_failed_test_name(line.as_str()) {
            Some(name) => {
                symbol = Some(name);
            },
            None => {},
        }
        match parse_rust_location(line.as_str()) {
            Some(at) => {
                location = FailureTarget {
                    file_path: Some(at.0),
                    line: Some(at.1),
                    column: Some(at.2),
                    symbol: location.symbol,
                };
            },
            None => {},
        }
        match test_failure_class(line.as_str()) {
            Some(class) => {
                let target = location.with_symbol(&symbol);
                failures.push(ParsedFailure { error_class: class, message: line, target });
            },
            None => {},
        }
        i = i + 1;
    }
    proof {
        assert(all.take(all.len() as int) =~= all);
    }
    if failures.len() == 0 {
        let message = headline_text(stdout, stderr, "test failure");
        let target = location.with_symbol(&symbol);
        failures.push(ParsedFailure { error_class: own("test.unknown"), message, target });
        proof {
            assert(report::failures_view(failures@) =~= test_report(stdout@, stderr@).failures);
        }
    }
    ParsedFailureReport { command: CargoCommandKind::Test, stage: FailureStage::Test, failures }
}

fn absorb_line(issue: ParsedFailure, line: &str) -> (r: ParsedFailure)
    ensures
        r@ == issue_with_line(issue@, line@),
{
    match parse_rust_location(line) {
        Some(at) => ParsedFailure {
            error_class: issue.error_class,
            message: issue.message,
            target: FailureTarget {
                file_path: Some(at.0),
                line: Some(at.1),
                column: Some(at.2),
                symbol: issue.target.symbol,
            },
        },
        None => {
            let symbol = match issue.target.symbol {
                Some(s) => Some(s),
                None => extract_symbol(line),
            };
            let mut message = issue.message;
            if should_append_context(line) {
                message.append(" ");
                message.append(line);
            }
            ParsedFailure {
                error_class: issue.error_class,
                message,
                target: FailureTarget {
                    file_path: issue.target.file_path,
                    line: issue.target.line,
                    column: issue.target.column,
                    symbol,
                },
            }
        },
    }
}

fn starts_issue(command: CargoCommandKind, line: &str) -> (r: bool)
    ensures
        r == begins_issue(command, line@),
{
    let is_clippy = command == CargoCommandKind::Clippy;
    starts_with(line, "error") || (is_clippy && starts_with(line, "warning:")) || (is_clippy
        && starts_with(line, "note:"))
}

fn parse_compile_or_lint_failure(stderr: &str, command: CargoCommandKind) -> (r:
    ParsedFailureReport)
    ensures
        r@ == issue_report(stderr@, command),
{
    let ls = lines(stderr);
    let ghost all = split::lines_of(stderr@);
    let mut failures: Vec<ParsedFailure> = Vec::new();
    let mut i: usize = 0;
    proof {
        assert(report::failures_view(failures@) =~= Seq::<FailureView>::empty());
        assert(all.take(0) =~= Seq::<Seq<char>>::empty());
    }
    while i < ls.len()
        invariant
            all == chars::texts(ls@),
            i <= ls@.len(),
            issues(command, all.take(i as int)) == report::failures_view(failures@),
        decreases ls@.len() - i,
    {
        proof {
            assert(all.take(i + 1).drop_last() =~= all.take(i as int));
            assert(all.take(i + 1).last() == ls@[i as int]@);
        }
        let line = trim(ls[i].as_str());
        i = i + 1;
        if line.as_str().is_empty() {
            continue;
        }
        if starts_issue(command, line.as_str()) {
            failures.push(
                ParsedFailure {
                    error_class: classify_error_class(command, line.as_str()),
                    message: own(line.as_str()),
                    target: FailureTarget {
                        file_path: None,
                        line: None,
                        column: None,
                        symbol: extract_symbol(line.as_str()),
                    },
                },
            );
            continue;
        }
        let ghost before = failures@;
        match failures.pop() {
            Some(last) => {
                proof {
                    assert(report::failures_view(before).drop_last() =~= report::failures_view(
                        failures@,
                    ));
                    assert(report::failures_view(before).last() == last@);
                }
                failures.push(absorb_line(last, line.as_str()));
            },
            None => {},
        }
    }
    proof {
        assert(all.take(all.len() as int) =~= all);
    }
    if failures.len() == 0 {
        failures.push(
            ParsedFailure {
                error_class: unknown_class_name(command),
                message: first_line_or(stderr, "unknown failure"),
                target: FailureTarget::default(),
            },
        );
        proof {
            assert(report::failures_view(failures@) =~= issue_report(stderr@, command).failures);
        }
    }
    let stage = infer_stage_from_failures(command, failures.as_slice());
    ParsedFailureReport { command, stage, failures }
}

/// The report on a failed command that is no known verifier.
pub fn parse_unknown_failure(stdout: &str, stderr: &str) -> (r: ParsedFailureReport)
    ensures
        r@ == unknown_report(stdout@, stderr@),
{
    let message = headline_text(stdout, stderr, "unknown cargo failure");
    let mut failures: Vec<ParsedFailure> = Vec::new();
    failures.push(
        ParsedFailure { error_class: own("unknown"), message, target: FailureTarget::default() },
    );
    proof {
        assert(report::failures_view(failures@) =~= unknown_report(stdout@, stderr@).failures);
    }
    ParsedFailureReport {
        command: CargoCommandKind::Unknown,
        stage: FailureStage::Unknown,
        failures,
    }
}

/// The report on a failed cargo command.
pub fn parse_cargo_failure(verifier_command: &[String], stdout: &str, stderr: &str) -> (r:
    ParsedFailureReport)
    ensures
        r@ == cargo_report(chars::texts(verifier_command@), stdout@, stderr@),
{
    match classify_cargo_command(verifier_command) {
        CargoCommandKind::Test => parse_test_failure(stdout, stderr),
        CargoCommandKind::Clippy => parse_compile_or_lint_failure(
            stderr,
            CargoCommandKind::Clippy,
        ),
        CargoCommandKind::Check => parse_compile_or_lint_failure(stderr, CargoCommandKind::Check),
        CargoCommandKind::Unknown => parse_unknown_failure(stdout, stderr),
    }
}

} // verus!
