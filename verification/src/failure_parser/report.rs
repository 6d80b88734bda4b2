//! Structured failures.
use crate::failure_parser::command::CargoCommandKind;
use crate::text::chars;
use crate::text::chars::own_opt;
use vstd::prelude::*;

verus! {

/// The step of verification that failed.
#[derive(Debug, Clone, Copy, PartialEq, Eq, Structural)]
pub enum FailureStage {
    Parse,
    Compile,
    Test,
    Lint,
    Unknown,
}

/// Where a failure points to.
#[derive(Debug, Clone, PartialEq, Eq)]
pub struct FailureTarget {
    pub file_path: Option<String>,
    pub line: Option<u32>,
    pub column: Option<u32>,
    pub symbol: Option<String>,
}

/// One failure that a verifier reported.
#[derive(Debug, Clone, PartialEq, Eq)]
pub struct ParsedFailure {
    pub error_class: String,
    pub message: String,
    pub target: FailureTarget,
}

/// All failures of one verifier run.
#[derive(Debug, Clone, PartialEq, Eq)]
pub struct ParsedFailureReport {
    pub command: CargoCommandKind,
    pub stage: FailureStage,
    pub failures: Vec<ParsedFailure>,
}

/// What a [`FailureTarget`] stands for.
#[verifier::ext_equal]
pub struct TargetView {
    pub file_path: Option<Seq<char>>,
    pub line: Option<u32>,
    pub column: Option<u32>,
    pub symbol: Option<Seq<char>>,
}

/// What a [`ParsedFailure`] stands for.
#[verifier::ext_equal]
pub struct FailureView {
    pub error_class: Seq<char>,
    pub message: Seq<char>,
    pub target: TargetView,
}

/// What a [`ParsedFailureReport`] stands for.
#[verifier::ext_equal]
pub struct ReportView {
    pub command: CargoCommandKind,
    pub stage: FailureStage,
    pub failures: Seq<FailureView>,
}

impl View for FailureTarget {
    type V = TargetView;

    open spec fn view(&self) -> TargetView {
        TargetView {
            file_path: chars::opt_text(self.file_path),
            line: self.line,
            column: self.column,
            symbol: chars::opt_text(self.symbol),
        }
    }
}

impl View for ParsedFailure {
    type V = FailureView;

    open spec fn view(&self) -> FailureView {
        FailureView {
            error_class: self.error_class@,
            message: self.message@,
            target: self.target@,
        }
    }
}

impl View for ParsedFailureReport {
    type V = ReportView;

    open spec fn view(&self) -> ReportView {
        ReportView {
            command: self.command,
            stage: self.stage,
            failures: failures_view(self.failures@),
        }
    }
}

/// What a sequence of failures stands for.
pub open spec fn failures_view(v: Seq<ParsedFailure>) -> Seq<FailureView> {
    Seq::new(v.len(), |i: int| v[i]@)
}

/// Adding a failure at the end adds what it stands for at the end.
pub broadcast proof fn lemma_failures_push(v: Seq<ParsedFailure>, f: ParsedFailure)
    ensures
        #[trigger] failures_view(v.push(f)) == failures_view(v).push(f@),
{
    assert(failures_view(v.push(f)) =~= failures_view(v).push(f@));
}

/// The target that names nothing.
pub open spec fn no_target() -> TargetView {
    TargetView { file_path: None, line: None, column: None, symbol: None }
}

/// The target with its location replaced.
pub open spec fn located(t: TargetView, at: (Seq<char>, u32, u32)) -> TargetView {
    TargetView {
        file_path: Some(at.0),
        line: Some(at.1),
        column: Some(at.2),
        symbol: t.symbol,
    }
}

/// The target with its symbol replaced.
pub open spec fn named(t: TargetView, symbol: Option<Seq<char>>) -> TargetView {
    TargetView { file_path: t.file_path, line: t.line, column: t.column, symbol }
}

impl Default for FailureTarget {
    fn default() -> (r: Self)
        ensures
            r@ == no_target(),
    {
        FailureTarget { file_path: None, line: None, column: None, symbol: None }
    }
}

impl FailureTarget {
    /// A copy of the location with the given symbol.
    pub fn with_symbol(&self, symbol: &Option<String>) -> (r: FailureTarget)
        ensures
            r@ == named(self@, chars::opt_text(*symbol)),
    {
        FailureTarget {
            file_path: own_opt(&self.file_path),
            line: self.line,
            column: self.column,
            symbol: own_opt(symbol),
        }
    }
}

/// The text of a location `(file, line, column)`.
pub open spec fn location_view(o: Option<(String, u32, u32)>) -> Option<(Seq<char>, u32, u32)> {
    match o {
        Some(p) => Some((p.0@, p.1, p.2)),
        None => None,
    }
}

} // verus!
