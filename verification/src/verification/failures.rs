//! Failure reports as JSON, and without secrets.
use crate::failure_parser::command::CargoCommandKind;
use crate::failure_parser::report;
use crate::failure_parser::report::{
    FailureStage, FailureTarget, FailureView, ParsedFailure, ParsedFailureReport, ReportView,
    TargetView,
};
use crate::json;
use crate::json::{field, list, object, text, text_or_null, Json, JsonView};
use crate::text::chars;
use crate::text::chars::{own, own_opt, same};
use crate::text::number::format_u64;
use crate::verification::secrets;
use crate::verification::secrets::{redact_sensitive_text, EnvValue, Masking};
use vstd::prelude::*;

verus! {

broadcast use report::lemma_failures_push;

/// The name of a cargo command.
pub open spec fn cargo_name(k: CargoCommandKind) -> Seq<char> {
    match k {
        CargoCommandKind::Test => "Test"@,
        CargoCommandKind::Clippy => "Clippy"@,
        CargoCommandKind::Check => "Check"@,
        CargoCommandKind::Unknown => "Unknown"@,
    }
}

/// The name of a stage.
pub open spec fn stage_name(s: FailureStage) -> Seq<char> {
    match s {
        FailureStage::Parse => "Parse"@,
        FailureStage::Compile => "Compile"@,
        FailureStage::Test => "Test"@,
        FailureStage::Lint => "Lint"@,
        FailureStage::Unknown => "Unknown"@,
    }
}

fn name_of_cargo(k: CargoCommandKind) -> (r: &'static str)
    ensures
        r@ == cargo_name(k),
{
    match k {
        CargoCommandKind::Test => "Test",
        CargoCommandKind::Clippy => "Clippy",
        CargoCommandKind::Check => "Check",
        CargoCommandKind::Unknown => "Unknown",
    }
}

fn name_of_stage(s: FailureStage) -> (r: &'static str)
    ensures
        r@ == stage_name(s),
{
    match s {
        FailureStage::Parse => "Parse",
        FailureStage::Compile => "Compile",
        FailureStage::Test => "Test",
        FailureStage::Lint => "Lint",
        FailureStage::Unknown => "Unknown",
    }
}

/// A number, or null.
pub open spec fn number_json(n: Option<u32>) -> JsonView {
    match n {
        Some(x) => json::natural(x as nat),
        None => JsonView::Null,
    }
}

/// A target as JSON.
pub open spec fn target_json(t: TargetView) -> JsonView {
    JsonView::Object(
        seq![
            ("file_path"@, json::opt_text(t.file_path)),
            ("line"@, number_json(t.line)),
            ("column"@, number_json(t.column)),
            ("symbol"@, json::opt_text(t.symbol)),
        ],
    )
}

/// A failure as JSON.
pub open spec fn failure_json(f: FailureView) -> JsonView {
    JsonView::Object(
        seq![
            ("error_class"@, JsonView::Text(f.error_class)),
            ("message"@, JsonView::Text(f.message)),
            ("target"@, target_json(f.target)),
        ],
    )
}

/// A report as JSON.
pub open spec fn report_json(r: ReportView) -> JsonView {
    JsonView::Object(
        seq![
            ("command"@, JsonView::Text(cargo_name(r.command))),
            ("stage"@, JsonView::Text(stage_name(r.stage))),
            (
                "failures"@,
                JsonView::List(
                    Seq::new(r.failures.len(), |i: int| failure_json(r.failures[i])),
                ),
            ),
        ],
    )
}

fn number_or_null(n: Option<u32>) -> (r: Json)
    ensures
        r@ == number_json(n),
{
    match n {
        Some(x) => Json::Number(format_u64(x as u64)),
        None => Json::Null,
    }
}

fn failure_to_json(f: &ParsedFailure) -> (r: Json)
    ensures
        r@ == failure_json(f@),
{
    let inner = vec![
        field("file_path", text_or_null(&f.target.file_path)),
        field("line", number_or_null(f.target.line)),
        field("column", number_or_null(f.target.column)),
        field("symbol", text_or_null(&f.target.symbol)),
    ];
    proof {
        assert(json::fields_view(inner@) =~= target_json(f.target@)->Object_0);
    }
    let fields = vec![
        field("error_class", text(f.error_class.as_str())),
        field("message", text(f.message.as_str())),
        field("target", object(inner)),
    ];
    proof {
        assert(json::fields_view(fields@) =~= failure_json(f@)->Object_0);
    }
    object(fields)
}

/// A report as JSON.
pub fn report_to_json(r: &ParsedFailureReport) -> (j: Json)
    ensures
        j@ == report_json(r@),
{
    let mut items: Vec<Json> = Vec::new();
    let mut i: usize = 0;
    while i < r.failures.len()
        invariant
            i <= r.failures@.len(),
            items@.len() == i,
            forall|k: int| 0 <= k < i ==> (#[trigger] items@[k])@ == failure_json(r.failures@[k]@),
        decreases r.failures@.len() - i,
    {
        items.push(failure_to_json(&r.failures[i]));
        i = i + 1;
    }
    let all = list(items);
    proof {
        assert(all@->List_0 =~= report_json(r@)->Object_0[2].1->List_0);
    }
    let fields = vec![
        field("command", text(name_of_cargo(r.command))),
        field("stage", text(name_of_stage(r.stage))),
        field("failures", all),
    ];
    proof {
        assert(json::fields_view(fields@) =~= report_json(r@)->Object_0);
    }
    object(fields)
}

/// An optional text without secrets.
pub open spec fn opt_masked(t: Option<Seq<char>>, env: Seq<(Seq<char>, Seq<char>)>) -> Option<
    Seq<char>,
> {
    match t {
        Some(x) => Some(secrets::masked(Masking::Words, x, env)),
        None => None,
    }
}

/// A failure without secrets.
pub open spec fn failure_masked(f: FailureView, env: Seq<(Seq<char>, Seq<char>)>) -> FailureView {
    FailureView {
        error_class: secrets::masked(Masking::Words, f.error_class, env),
        message: secrets::masked(Masking::Words, f.message, env),
        target: TargetView {
            file_path: opt_masked(f.target.file_path, env),
            line: f.target.line,
            column: f.target.column,
            symbol: opt_masked(f.target.symbol, env),
        },
    }
}

/// Whether masking leaves the names of the command and of the stage alone.
pub open spec fn names_survive(r: ReportView, env: Seq<(Seq<char>, Seq<char>)>) -> bool {
    &&& secrets::masked(Masking::Words, cargo_name(r.command), env) == cargo_name(r.command)
    &&& secrets::masked(Masking::Words, stage_name(r.stage), env) == stage_name(r.stage)
}

/// A report without secrets. Where a secret hides in the name of the command or of the
/// stage, the report could not be read back and stays as it is.
pub open spec fn report_masked(r: ReportView, env: Seq<(Seq<char>, Seq<char>)>) -> ReportView {
    if names_survive(r, env) {
        ReportView {
            command: r.command,
            stage: r.stage,
            failures: Seq::new(r.failures.len(), |i: int| failure_masked(r.failures[i], env)),
        }
    } else {
        r
    }
}

fn mask_opt(t: &Option<String>, env: &[EnvValue]) -> (r: Option<String>)
    ensures
        chars::opt_text(r) == opt_masked(chars::opt_text(*t), secrets::env_view(env@)),
{
    match t {
        Some(x) => Some(redact_sensitive_text(x.as_str(), env)),
        None => None,
    }
}

fn survives(name: &str, env: &[EnvValue]) -> (r: bool)
    ensures
        r == (secrets::masked(Masking::Words, name@, secrets::env_view(env@)) == name@),
{
    same(redact_sensitive_text(name, env).as_str(), name)
}

/// A copy of a report.
pub fn copy_report(r: &ParsedFailureReport) -> (c: ParsedFailureReport)
    ensures
        c@ == r@,
{
    let mut out: Vec<ParsedFailure> = Vec::new();
    let mut i: usize = 0;
    while i < r.failures.len()
        invariant
            i <= r.failures@.len(),
            out@.len() == i,
            forall|k: int| 0 <= k < i ==> (#[trigger] out@[k])@ == r.failures@[k]@,
        decreases r.failures@.len() - i,
    {
        let f = &r.failures[i];
        out.push(
            ParsedFailure {
                error_class: own(f.error_class.as_str()),
                message: own(f.message.as_str()),
                target: FailureTarget {
                    file_path: own_opt(&f.target.file_path),
                    line: f.target.line,
                    column: f.target.column,
                    symbol: own_opt(&f.target.symbol),
                },
            },
        );
        i = i + 1;
    }
    proof {
        assert(report::failures_view(out@) =~= report::failures_view(r.failures@));
    }
    ParsedFailureReport { command: r.command, stage: r.stage, failures: out }
}

/// A report without secrets.
pub fn redact_parsed_failure_report(r: &ParsedFailureReport, env: &[EnvValue]) -> (m:
    ParsedFailureReport)
    ensures
        m@ == report_masked(r@, secrets::env_view(env@)),
{
    if !(survives(name_of_cargo(r.command), env) && survives(name_of_stage(r.stage), env)) {
        return copy_report(r);
    }
    let mut out: Vec<ParsedFailure> = Vec::new();
    let mut i: usize = 0;
    while i < r.failures.len()
        invariant
            i <= r.failures@.len(),
            out@.len() == i,
            forall|k: int|
                0 <= k < i ==> (#[trigger] out@[k])@ == failure_masked(
                    r.failures@[k]@,
                    secrets::env_view(env@),
                ),
        decreases r.failures@.len() - i,
    {
        let f = &r.failures[i];
        out.push(
            ParsedFailure {
                error_class: redact_sensitive_text(f.error_class.as_str(), env),
                message: redact_sensitive_text(f.message.as_str(), env),
                target: FailureTarget {
                    file_path: mask_opt(&f.target.file_path, env),
                    line: f.target.line,
                    column: f.target.column,
                    symbol: mask_opt(&f.target.symbol, env),
                },
            },
        );
        i = i + 1;
    }
    proof {
        assert(report::failures_view(out@) =~= report_masked(
            r@,
            secrets::env_view(env@),
        ).failures);
    }
    ParsedFailureReport { command: r.command, stage: r.stage, failures: out }
}

} // verus!
