//! Failures in the output of TypeScript verifiers.
use crate::failure_parser::command::{CargoCommandKind, VerifierCommandKind};
use crate::failure_parser::report;
use crate::failure_parser::report::{
    FailureStage, FailureTarget, FailureView, ParsedFailure, ParsedFailureReport, ReportView,
    TargetView,
};
use crate::failure_parser::rust_output;
use crate::failure_parser::rust_output::{
    combine_outputs, first_line_or, parse_cargo_failure, parse_unknown_failure,
};
use crate::text::chars;
use crate::text::chars::{concat3, own, same, to_lowercase_ascii};
use crate::text::find;
use crate::text::find::{
    contains, ends_with, starts_with, strip_prefix, trim, trim_of, trim_start_matches,
};
use crate::text::number::parse_u32;
use crate::text::split;
use crate::text::split::{
    first_word, join, lines, rsplit_once, split_char, split_once, split_once_text,
};
use vstd::prelude::*;
use vstd::string::*;

verus! {

broadcast use {
    chars::lemma_texts_push,
    chars::lemma_texts_empty,
    report::lemma_failures_push,
};

/// The location written as `path(line,column)`.
pub open spec fn typescript_location(prefix: Seq<char>) -> Option<(Seq<char>, u32, u32)> {
    match (
        find::last_index_before(prefix, '(', prefix.len() as int),
        find::last_index_before(prefix, ')', prefix.len() as int),
    ) {
        (Some(start), Some(end)) => if end <= start {
            None
        } else {
            let file = find::trimmed(prefix.subrange(0, start));
            let coords = split::pieces(prefix.subrange(start + 1, end), ',');
            if coords.len() < 2 || file.len() == 0 {
                None
            } else {
                match (
                    rust_output::small_number(find::trimmed(coords[0])),
                    rust_output::small_number(find::trimmed(coords[1])),
                ) {
                    (Some(line), Some(column)) => Some((file, line, column)),
                    _ => None,
                }
            }
        },
        _ => None,
    }
}

/// The location, error code and message of a compiler error line.
pub open spec fn typescript_error(line: Seq<char>) -> Option<
    ((Seq<char>, u32, u32), Seq<char>, Seq<char>),
> {
    match split::cut_at_text(line, ": error TS"@) {
        Some(outer) => match split::cut_at(outer.1, ':') {
            Some(inner) => match typescript_location(find::trimmed(outer.0)) {
                Some(at) => Some((at, find::trimmed(inner.0), find::trimmed(inner.1))),
                None => None,
            },
            None => None,
        },
        None => None,
    }
}

/// Whether a path names a TypeScript or JavaScript file.
pub open spec fn is_script_file(file: Seq<char>) -> bool {
    find::has_suffix(file, ".ts"@) || find::has_suffix(file, ".tsx"@) || find::has_suffix(
        file,
        ".mts"@,
    ) || find::has_suffix(file, ".cts"@) || find::has_suffix(file, ".js"@) || find::has_suffix(
        file,
        ".jsx"@,
    )
}

/// The location in a script file that a line of a stack trace or a linter points to; words
/// after the column do not count.
pub open spec fn simple_location(line: Seq<char>) -> Option<(Seq<char>, u32, u32)> {
    let cleaned = find::trimmed_of(
        find::trimmed(find::without_prefixes(find::trimmed(line), "at "@)),
        "(),'\""@,
    );
    match split::cut_at_last(cleaned, ':') {
        Some(outer) => match split::cut_at_last(outer.0, ':') {
            Some(inner) => if split::words_of(outer.1).len() == 0 {
                None
            } else {
                match (
                    rust_output::small_number(inner.1),
                    rust_output::small_number(split::words_of(outer.1)[0]),
                ) {
                    (Some(row), Some(col)) => if is_script_file(find::trimmed(inner.0)) {
                        Some((find::trimmed(inner.0), row, col))
                    } else {
                        None
                    },
                    _ => None,
                }
            },
            None => None,
        },
        None => None,
    }
}

/// The trimmed text between the first two single quotes, unless it is empty.
pub open spec fn quoted_symbol(message: Seq<char>) -> Option<Seq<char>> {
    match split::cut_at(message, '\'') {
        Some(outer) => match split::cut_at(outer.1, '\'') {
            Some(inner) => if find::trimmed(inner.0).len() > 0 {
                Some(find::trimmed(inner.0))
            } else {
                None
            },
            None => None,
        },
        None => None,
    }
}

/// The class of a compiler error.
pub open spec fn typescript_error_class(code: Seq<char>, message: Seq<char>) -> Seq<char> {
    if code == "2304"@ {
        "compile.missing_symbol"@
    } else if code == "2339"@ {
        "compile.missing_property"@
    } else if code == "2322"@ {
        "compile.type_mismatch"@
    } else if code == "2345"@ {
        "compile.invalid_argument_type"@
    } else if find::has_text(chars::lowercase(message), "not assignable"@) {
        "compile.type_mismatch"@
    } else {
        "compile.unknown"@
    }
}

/// The failure that a compiler error line states.
pub open spec fn typescript_failure(line: Seq<char>) -> Option<FailureView> {
    match typescript_error(line) {
        Some(e) => Some(
            FailureView {
                error_class: typescript_error_class(e.1, e.2),
                message: "TS"@ + e.1 + ": "@ + e.2,
                target: report::named(
                    report::located(report::no_target(), e.0),
                    quoted_symbol(e.2),
                ),
            },
        ),
        None => None,
    }
}

/// The failures that the lines state, in order.
pub open spec fn compile_failures(ls: Seq<Seq<char>>) -> Seq<FailureView>
    decreases ls.len(),
{
    if ls.len() == 0 {
        Seq::<FailureView>::empty()
    } else {
        let before = compile_failures(ls.drop_last());
        let line = find::trimmed(ls.last());
        match typescript_failure(line) {
            Some(f) => if line.len() > 0 {
                before.push(f)
            } else {
                before
            },
            None => before,
        }
    }
}

/// The failures of a report, with a stand-in where none was found.
pub open spec fn or_stand_in(
    found: Seq<FailureView>,
    class: Seq<char>,
    combined: Seq<char>,
    otherwise: Seq<char>,
    target: TargetView,
) -> Seq<FailureView> {
    if found.len() > 0 {
        found
    } else {
        seq![
            FailureView {
                error_class: class,
                message: rust_output::first_of(
                    split::first_filled_line(split::lines_of(combined)),
                    None,
                    otherwise,
                ),
                target,
            },
        ]
    }
}

/// The report on a failed type check.
pub open spec fn compile_report(stdout: Seq<char>, stderr: Seq<char>) -> ReportView {
    let combined = rust_output::both_outputs(stdout, stderr);
    ReportView {
        command: CargoCommandKind::Unknown,
        stage: FailureStage::Compile,
        failures: or_stand_in(
            compile_failures(split::lines_of(combined)),
            "compile.unknown"@,
            combined,
            "typescript compile failure"@,
            report::no_target(),
        ),
    }
}

/// The failure that a linter line states, if it names an error or a warning.
pub open spec fn lint_failure(line: Seq<char>) -> Option<FailureView> {
    if find::has_text(line, "error"@) || find::has_text(line, "warning"@) {
        Some(
            FailureView {
                error_class: "lint.unknown"@,
                message: line,
                target: match simple_location(line) {
                    Some(at) => report::located(report::no_target(), at),
                    None => report::no_target(),
                },
            },
        )
    } else {
        None
    }
}

/// The failures that the lines of a linter state, in order.
pub open spec fn lint_failures(ls: Seq<Seq<char>>) -> Seq<FailureView>
    decreases ls.len(),
{
    if ls.len() == 0 {
        Seq::<FailureView>::empty()
    } else {
        let before = lint_failures(ls.drop_last());
        let line = find::trimmed(ls.last());
        match lint_failure(line) {
            Some(f) => if line.len() > 0 {
                before.push(f)
            } else {
                before
            },
            None => before,
        }
    }
}

/// The report on a failed lint run.
pub open spec fn lint_report(stdout: Seq<char>, stderr: Seq<char>) -> ReportView {
    let combined = rust_output::both_outputs(stdout, stderr);
    ReportView {
        command: CargoCommandKind::Unknown,
        stage: FailureStage::Lint,
        failures: or_stand_in(
            lint_failures(split::lines_of(combined)),
            "lint.unknown"@,
            combined,
            "typescript lint failure"@,
            report::no_target(),
        ),
    }
}

/// The test file that a line reports as failed.
pub open spec fn failed_test_file(line: Seq<char>) -> Option<Seq<char>> {
    match find::after_prefix(find::trimmed(line), "FAIL "@) {
        Some(rest) => if split::words_of(rest).len() > 0 {
            Some(split::words_of(rest)[0])
        } else {
            None
        },
        None => None,
    }
}

/// The pieces that are not blank, trimmed.
pub open spec fn filled(parts: Seq<Seq<char>>) -> Seq<Seq<char>>
    decreases parts.len(),
{
    if parts.len() == 0 {
        Seq::<Seq<char>>::empty()
    } else {
        let before = filled(parts.drop_last());
        if find::trimmed(parts.last()).len() > 0 {
            before.push(find::trimmed(parts.last()))
        } else {
            before
        }
    }
}

/// The name of the test that a line reports as failed: the sections after the first `>`.
pub open spec fn failed_script_test(line: Seq<char>) -> Option<Seq<char>> {
    match find::after_prefix(find::trimmed(line), "FAIL "@) {
        Some(rest) => {
            let sections = split::pieces(rest, '>');
            let name = split::joined(
                filled(sections.subrange(1, sections.len() as int)),
                "::"@,
            );
            if name.len() > 0 {
                Some(name)
            } else {
                None
            }
        },
        None => None,
    }
}

/// The trimmed text after a prefix, unless it is blank.
pub open spec fn labelled(line: Seq<char>, label: Seq<char>) -> Option<Seq<char>> {
    match find::after_prefix(line, label) {
        Some(rest) => if find::trimmed(rest).len() > 0 {
            Some(find::trimmed(rest))
        } else {
            None
        },
        None => None,
    }
}

/// The message of a failed test that a line states.
pub open spec fn test_message(line: Seq<char>) -> Option<Seq<char>> {
    let t = find::trimmed(line);
    match labelled(t, "Error:"@) {
        Some(m) => Some(m),
        None => match labelled(t, "AssertionError:"@) {
            Some(m) => Some(m),
            None => if find::has_prefix(t, "Expected:"@) || find::has_prefix(t, "Received:"@) {
                Some(t)
            } else {
                None
            },
        },
    }
}

/// The class of a test failure message.
pub open spec fn test_message_class(message: Seq<char>) -> Seq<char> {
    let l = chars::lowercase(message);
    if find::has_text(l, "expected:"@) || find::has_text(l, "received:"@) || find::has_text(
        l,
        "toequal"@,
    ) {
        "test.assertion"@
    } else if find::has_text(l, "timed out"@) || find::has_text(l, "timeout"@) {
        "test.timeout"@
    } else if find::has_text(l, "cannot read properties of undefined"@) || find::has_text(
        l,
        "is not a function"@,
    ) {
        "test.runtime_type_error"@
    } else {
        "test.unknown"@
    }
}

/// What has been read of a test run's output.
#[verifier::ext_equal]
pub struct ScriptTestScan {
    pub failures: Seq<FailureView>,
    pub symbol: Option<Seq<char>>,
    pub target: TargetView,
}

/// What has been read after one more (trimmed) line.
pub open spec fn script_test_line(st: ScriptTestScan, line: Seq<char>) -> ScriptTestScan {
    if line.len() == 0 {
        st
    } else {
        let in_file = match failed_test_file(line) {
            Some(file) => TargetView {
                file_path: Some(file),
                line: st.target.line,
                column: st.target.column,
                symbol: st.target.symbol,
            },
            None => st.target,
        };
        let target = match simple_location(line) {
            Some(at) => report::located(in_file, at),
            None => in_file,
        };
        let symbol = match failed_script_test(line) {
            Some(s) => Some(s),
            None => st.symbol,
        };
        ScriptTestScan {
            failures: match test_message(line) {
                Some(m) => st.failures.push(
                    FailureView {
                        error_class: test_message_class(m),
                        message: m,
                        target: report::named(target, symbol),
                    },
                ),
                None => st.failures,
            },
            symbol,
            target,
        }
    }
}

/// What has been read of a test run's output after all its lines.
pub open spec fn script_test_scan(ls: Seq<Seq<char>>) -> ScriptTestScan
    decreases ls.len(),
{
    if ls.len() == 0 {
        ScriptTestScan {
            failures: Seq::<FailureView>::empty(),
            symbol: None,
            target: report::no_target(),
        }
    } else {
        script_test_line(script_test_scan(ls.drop_last()), find::trimmed(ls.last()))
    }
}

/// The report on a failed test run.
pub open spec fn script_test_report(stdout: Seq<char>, stderr: Seq<char>) -> ReportView {
    let combined = rust_output::both_outputs(stdout, stderr);
    let st = script_test_scan(split::lines_of(combined));
    ReportView {
        command: CargoCommandKind::Unknown,
        stage: FailureStage::Test,
        failures: or_stand_in(
            st.failures,
            "test.unknown"@,
            combined,
            "typescript test failure"@,
            report::named(st.target, st.symbol),
        ),
    }
}

/// The report on a failed verifier of the given kind.
pub open spec fn verifier_report(
    kind: VerifierCommandKind,
    parts: Seq<Seq<char>>,
    stdout: Seq<char>,
    stderr: Seq<char>,
) -> ReportView {
    match kind {
        VerifierCommandKind::CargoTest => rust_output::cargo_report(parts, stdout, stderr),
        VerifierCommandKind::CargoClippy => rust_output::cargo_report(parts, stdout, stderr),
        VerifierCommandKind::CargoCheck => rust_output::cargo_report(parts, stdout, stderr),
        VerifierCommandKind::TypeScriptCheck => compile_report(stdout, stderr),
        VerifierCommandKind::TypeScriptTest => script_test_report(stdout, stderr),
        VerifierCommandKind::TypeScriptLint => lint_report(stdout, stderr),
        VerifierCommandKind::Unknown => rust_output::unknown_report(stdout, stderr),
    }
}

fn parse_typescript_location(prefix: &str) -> (r: Option<(String, u32, u32)>)
    ensures
        report::location_view(r) == typescript_location(prefix@),
{
    let x = chars::to_chars(prefix);
    let start = match find::last_index_chars(x.as_slice(), '(') {
        Some(i) => i,
        None => {
            return None;
        },
    };
    let end = match find::last_index_chars(x.as_slice(), ')') {
        Some(i) => i,
        None => {
            return None;
        },
    };
    if end <= start {
        return None;
    }
    let before = chars::from_range(x.as_slice(), 0, start);
    let file = trim(before.as_str());
    let inside = chars::from_range(x.as_slice(), start + 1, end);
    let coords = split_char(inside.as_str(), ',');
    if coords.len() < 2 || file.as_str().is_empty() {
        return None;
    }
    proof {
        assert(chars::texts(coords@)[0] == coords@[0]@);
        assert(chars::texts(coords@)[1] == coords@[1]@);
    }
    let first = trim(coords[0].as_str());
    let second = trim(coords[1].as_str());
    match (parse_u32(first.as_str()), parse_u32(second.as_str())) {
        (Some(line), Some(column)) => Some((file, line, column)),
        _ => None,
    }
}

/// The location, code and message of a compiler error line.
pub struct TypeScriptError {
    pub location: (String, u32, u32),
    pub code: String,
    pub message: String,
}

fn parse_typescript_error_line(line: &str) -> (r: Option<TypeScriptError>)
    ensures
        match r {
            Some(e) => typescript_error(line@) == Some(
                (
                    (e.location.0@, e.location.1, e.location.2),
                    e.code@,
                    e.message@,
                ),
            ),
            None => typescript_error(line@) is None,
        },
{
    let outer = match split_once_text(line, ": error TS") {
        Some(p) => p,
        None => {
            return None;
        },
    };
    let inner = match split_once(outer.1.as_str(), ':') {
        Some(p) => p,
        None => {
            return None;
        },
    };
    let prefix = trim(outer.0.as_str());
    match parse_typescript_location(prefix.as_str()) {
        Some(location) => Some(
            TypeScriptError {
                location,
                code: trim(inner.0.as_str()),
                message: trim(inner.1.as_str()),
            },
        ),
        None => None,
    }
}

fn is_script_file_name(file: &str) -> (r: bool)
    ensures
        r == is_script_file(file@),
{
    ends_with(file, ".ts") || ends_with(file, ".tsx") || ends_with(file, ".mts") || ends_with(
        file,
        ".cts",
    ) || ends_with(file, ".js") || ends_with(file, ".jsx")
}

fn parse_simple_file_location(line: &str) -> (r: Option<(String, u32, u32)>)
    ensures
        report::location_view(r) == simple_location(line@),
{
    let first = trim(line);
    let second = trim_start_matches(first.as_str(), "at ");
    let third = trim(second.as_str());
    let cleaned = trim_of(third.as_str(), "(),'\"");
    let outer = match rsplit_once(cleaned.as_str(), ':') {
        Some(p) => p,
        None => {
            return None;
        },
    };
    let inner = match rsplit_once(outer.0.as_str(), ':') {
        Some(p) => p,
        None => {
            return None;
        },
    };
    let word = match first_word(outer.1.as_str()) {
        Some(w) => w,
        None => {
            return None;
        },
    };
    let file = trim(inner.0.as_str());
    match (parse_u32(inner.1.as_str()), parse_u32(word.as_str())) {
        (Some(row), Some(col)) => {
            if is_script_file_name(file.as_str()) {
                Some((file, row, col))
            } else {
                None
            }
        },
        _ => None,
    }
}

fn extract_quoted_symbol(message: &str) -> (r: Option<String>)
    ensures
        chars::opt_text(r) == quoted_symbol(message@),
{
    match split_once(message, '\'') {
        Some(outer) => match split_once(outer.1.as_str(), '\'') {
            Some(inner) => {
                let symbol = trim(inner.0.as_str());
                if symbol.as_str().is_empty() {
                    None
                } else {
                    Some(symbol)
                }
            },
            None => None,
        },
        None => None,
    }
}

fn classify_typescript_compile_error(error_code: &str, message: &str) -> (r: String)
    ensures
        r@ == typescript_error_class(error_code@, message@),
{
    if same(error_code, "2304") {
        own("compile.missing_symbol")
    } else if same(error_code, "2339") {
        own("compile.missing_property")
    } else if same(error_code, "2322") {
        own("compile.type_mismatch")
    } else if same(error_code, "2345") {
        own("compile.invalid_argument_type")
    } else {
        let lower = to_lowercase_ascii(message);
        if contains(lower.as_str(), "not assignable") {
            own("compile.type_mismatch")
        } else {
            own("compile.unknown")
        }
    }
}

fn typescript_failure_of(line: &str) -> (r: Option<ParsedFailure>)
    ensures
        match r {
            Some(f) => typescript_failure(line@) == Some(f@),
            None => typescript_failure(line@) is None,
        },
{
    match parse_typescript_error_line(line) {
        Some(e) => {
            let symbol = extract_quoted_symbol(e.message.as_str());
            let error_class = classify_typescript_compile_error(
                e.code.as_str(),
                e.message.as_str(),
            );
            let mut message = concat3("TS", e.code.as_str(), ": ");
            message.append(e.message.as_str());
            Some(
                ParsedFailure {
                    error_class,
                    message,
                    target: FailureTarget {
                        file_path: Some(e.location.0),
                        line: Some(e.location.1),
                        column: Some(e.location.2),
                        symbol,
                    },
                },
            )
        },
        None => None,
    }
}

fn add_stand_in(
    failures: &mut Vec<ParsedFailure>,
    class: &str,
    combined: &str,
    otherwise: &str,
    target: FailureTarget,
)
    ensures
        report::failures_view(final(failures)@) == or_stand_in(
            report::failures_view(old(failures)@),
            class@,
            combined@,
            otherwise@,
            target@,
        ),
{
    if failures.len() == 0 {
        let message = first_line_or(combined, otherwise);
        failures.push(ParsedFailure { error_class: own(class), message, target });
        proof {
            assert(report::failures_view(failures@) =~= or_stand_in(
                Seq::<FailureView>::empty(),
                class@,
                combined@,
                otherwise@,
                target@,
            ));
        }
    }
}

fn parse_typescript_compile_failure(stdout: &str, stderr: &str) -> (r: ParsedFailureReport)
    ensures
        r@ == compile_report(stdout@, stderr@),
{
    let combined = combine_outputs(stdout, stderr);
    let ls = lines(combined.as_str());
    let ghost all = split::lines_of(combined@);
    let mut failures: Vec<ParsedFailure> = Vec::new();
    let mut i: usize = 0;
    proof {
        assert(report::failures_view(failures@) =~= Seq::<FailureView>::empty());
        assert(all.take(0) =~= Seq::<Seq<char>>::empty());
    }
    while i < ls.len()
        invariant
            all == chars::texts(ls@),
            i <= ls@.len(),
            compile_failures(all.take(i as int)) == report::failures_view(failures@),
        decreases ls@.len() - i,
    {
        proof {
            assert(all.take(i + 1).drop_last() =~= all.take(i as int));
            assert(all.take(i + 1).last() == ls@[i as int]@);
        }
        let line = trim(ls[i].as_str());
        i = i + 1;
        if line.as_str().is_empty() {
            continue;
        }
        match typescript_failure_of(line.as_str()) {
            Some(f) => {
                failures.push(f);
            },
            None => {},
        }
    }
    proof {
        assert(all.take(all.len() as int) =~= all);
    }
    add_stand_in(
        &mut failures,
        "compile.unknown",
        combined.as_str(),
        "typescript compile failure",
        FailureTarget::default(),
    );
    ParsedFailureReport {
        command: CargoCommandKind::Unknown,
        stage: FailureStage::Compile,
        failures,
    }
}

fn lint_failure_of(line: &str) -> (r: Option<ParsedFailure>)
    ensures
        match r {
            Some(f) => lint_failure(line@) == Some(f@),
            None => lint_failure(line@) is None,
        },
{
    if !contains(line, "error") && !contains(line, "warning") {
        return None;
    }
    let target = match parse_simple_file_location(line) {
        Some(at) => FailureTarget {
            file_path: Some(at.0),
            line: Some(at.1),
            column: Some(at.2),
            symbol: None,
        },
        None => FailureTarget::default(),
    };
    Some(ParsedFailure { error_class: own("lint.unknown"), message: own(line), target })
}

fn parse_typescript_lint_failure(stdout: &str, stderr: &str) -> (r: ParsedFailureReport)
    ensures
        r@ == lint_report(stdout@, stderr@),
{
    let combined = combine_outputs(stdout, stderr);
    let ls = lines(combined.as_str());
    let ghost all = split::lines_of(combined@);
    let mut failures: Vec<ParsedFailure> = Vec::new();
    let mut i: usize = 0;
    proof {
        assert(report::failures_view(failures@) =~= Seq::<FailureView>::empty());
        assert(all.take(0) =~= Seq::<Seq<char>>::empty());
    }
    while i < ls.len()
        invariant
            all == chars::texts(ls@),
            i <= ls@.len(),
            lint_failures(all.take(i as int)) == report::failures_view(failures@),
        decreases ls@.len() - i,
    {
        proof {
            assert(all.take(i + 1).drop_last() =~= all.take(i as int));
            assert(all.take(i + 1).last() == ls@[i as int]@);
        }
        let line = trim(ls[i].as_str());
        i = i + 1;
        if line.as_str().is_empty() {
            continue;
        }
        match lint_failure_of(line.as_str()) {
            Some(f) => {
                failures.push(f);
            },
            None => {},
        }
    }
    proof {
        assert(all.take(all.len() as int) =~= all);
    }
    add_stand_in(
        &mut failures,
        "lint.unknown",
        combined.as_str(),
        "typescript lint failure",
        FailureTarget::default(),
    );
    ParsedFailureReport {
        command: CargoCommandKind::Unknown,
        stage: FailureStage::Lint,
        failures,
    }
}

fn parse_failed_test_file(line: &str) -> (r: Option<String>)
    ensures
        chars::opt_text(r) == failed_test_file(line@),
{
    let trimmed = trim(line);
    match strip_prefix(trimmed.as_str(), "FAIL ") {
        Some(rest) => first_word(rest.as_str()),
        None => None,
    }
}

fn filled_parts(parts: &[String], from: usize) -> (r: Vec<String>)
    requires
        from <= parts@.len(),
    ensures
        chars::texts(r@) == filled(
            chars::texts(parts@).subrange(from as int, parts@.len() as int),
        ),
{
    let ghost all = chars::texts(parts@).subrange(from as int, parts@.len() as int);
    let mut out: Vec<String> = Vec::new();
    let mut i: usize = from;
    proof {
        assert(all.take(0) =~= Seq::<Seq<char>>::empty());
    }
    while i < parts.len()
        invariant
            from <= i <= parts@.len(),
            all == chars::texts(parts@).subrange(from as int, parts@.len() as int),
            chars::texts(out@) == filled(all.take(i - from)),
        decreases parts@.len() - i,
    {
        proof {
            assert(all.take(i - from + 1).drop_last() =~= all.take(i - from));
            assert(all.take(i - from + 1).last() == parts@[i as int]@);
        }
        let piece = trim(parts[i].as_str());
        if !piece.as_str().is_empty() {
            out.push(piece);
        }
        i = i + 1;
    }
    proof {
        assert(all.take(all.len() as int) =~= all);
    }
    out
}

proof fn lemma_pieces_not_empty(s: Seq<char>, c: char)
    ensures
        split::pieces(s, c).len() > 0,
{
    find::lemma_index_from(s, c, 0);
}

fn parse_failed_js_test_name(line: &str) -> (r: Option<String>)
    ensures
        chars::opt_text(r) == failed_script_test(line@),
{
    let trimmed = trim(line);
    match strip_prefix(trimmed.as_str(), "FAIL ") {
        Some(rest) => {
            let sections = split_char(rest.as_str(), '>');
            proof {
                lemma_pieces_not_empty(rest@, '>');
            }
            let parts = filled_parts(sections.as_slice(), 1);
            let name = join(parts.as_slice(), "::");
            if name.as_str().is_empty() {
                None
            } else {
                Some(name)
            }
        },
        None => None,
    }
}

fn labelled_text(line: &str, label: &str) -> (r: Option<String>)
    ensures
        chars::opt_text(r) == labelled(line@, label@),
{
    match strip_prefix(line, label) {
        Some(rest) => {
            let message = trim(rest.as_str());
            if message.as_str().is_empty() {
                None
            } else {
                Some(message)
            }
        },
        None => None,
    }
}

fn parse_test_failure_message(line: &str) -> (r: Option<String>)
    ensures
        chars::opt_text(r) == test_message(line@),
{
    let trimmed = trim(line);
    match labelled_text(trimmed.as_str(), "Error:") {
        Some(m) => {
            return Some(m);
        },
        None => {},
    }
    match labelled_text(trimmed.as_str(), "AssertionError:") {
        Some(m) => {
            return Some(m);
        },
        None => {},
    }
    if starts_with(trimmed.as_str(), "Expected:") || starts_with(trimmed.as_str(), "Received:") {
        return Some(trimmed);
    }
    None
}

fn classify_typescript_test_error(message: &str) -> (r: String)
    ensures
        r@ == test_message_class(message@),
{
    let lower = to_lowercase_ascii(message);
    let l = lower.as_str();
    if contains(l, "expected:") || contains(l, "received:") || contains(l, "toequal") {
        own("test.assertion")
    } else if contains(l, "timed out") || contains(l, "timeout") {
        own("test.timeout")
    } else if contains(l, "cannot read properties of undefined") || contains(
        l,
        "is not a function",
    ) {
        own("test.runtime_type_error")
    } else {
        own("test.unknown")
    }
}

fn parse_typescript_test_failure(stdout: &str, stderr: &str) -> (r: ParsedFailureReport)
    ensures
        r@ == script_test_report(stdout@, stderr@),
{
    let combined = combine_outputs(stdout, stderr);
    let ls = lines(combined.as_str());
    let ghost all = split::lines_of(combined@);
    let mut failures: Vec<ParsedFailure> = Vec::new();
    let mut symbol: Option<String> = None;
    let mut target = FailureTarget::default();
    let mut i: usize = 0;
    proof {
        assert(report::failures_view(failures@) =~= Seq::<FailureView>::empty());
        assert(all.take(0) =~= Seq::<Seq<char>>::empty());
    }
    while i < ls.len()
        invariant
            all == chars::texts(ls@),
            i <= ls@.len(),
            script_test_scan(all.take(i as int)) == (ScriptTestScan {
                failures: report::failures_view(failures@),
                symbol: chars::opt_text(symbol),
                target: target@,
            }),
        decreases ls@.len() - i,
    {
        proof {
            assert(all.take(i + 1).drop_last() =~= all.take(i as int));
            assert(all.take(i + 1).last() == ls@[i as int]@);
        }
        let line = trim(ls[i].as_str());
        i = i + 1;
        if line.as_str().is_empty() {
            continue;
        }
        match parse_failed_test_file(line.as_str()) {
            Some(file) => {
                target = FailureTarget {
                    file_path: Some(file),
                    line: target.line,
                    column: target.column,
                    symbol: target.symbol,
                };
            },
            None => {},
        }
        match parse_failed_js_test_name(line.as_str()) {
            Some(name) => {
                symbol = Some(name);
            },
            None => {},
        }
        match parse_simple_file_location(line.as_str()) {
            Some(at) => {
                target = FailureTarget {
                    file_path: Some(at.0),
                    line: Some(at.1),
                    column: Some(at.2),
                    symbol: target.symbol,
                };
            },
            None => {},
        }
        match parse_test_failure_message(line.as_str()) {
            Some(message) => {
                let error_class = classify_typescript_test_error(message.as_str());
                let pointed = target.with_symbol(&symbol);
                failures.push(ParsedFailure { error_class, message, target: pointed });
            },
            None => {},
        }
    }
    proof {
        assert(all.take(all.len() as int) =~= all);
    }
    let pointed = target.with_symbol(&symbol);
    add_stand_in(
        &mut failures,
        "test.unknown",
        combined.as_str(),
        "typescript test failure",
        pointed,
    );
    ParsedFailureReport { command: CargoCommandKind::Unknown, stage: FailureStage::Test, failures }
}

/// The report on a failed verifier.
pub fn parse_verifier_failure(
    verifier_kind: &VerifierCommandKind,
    verifier_command: &[String],
    stdout: &str,
    stderr: &str,
) -> (r: ParsedFailureReport)
    ensures
        r@ == verifier_report(
            *verifier_kind,
            chars::texts(verifier_command@),
            stdout@,
            stderr@,
        ),
{
    match *verifier_kind {
        VerifierCommandKind::CargoTest
        | VerifierCommandKind::CargoClippy
        | VerifierCommandKind::CargoCheck => parse_cargo_failure(verifier_command, stdout, stderr),
        VerifierCommandKind::TypeScriptCheck => parse_typescript_compile_failure(stdout, stderr),
        VerifierCommandKind::TypeScriptTest => parse_typescript_test_failure(stdout, stderr),
        VerifierCommandKind::TypeScriptLint => parse_typescript_lint_failure(stdout, stderr),
        VerifierCommandKind::Unknown => parse_unknown_failure(stdout, stderr),
    }
}

} // verus!
