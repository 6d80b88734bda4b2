//! Verifying candidates: parse, test, lint, and a critique of what failed.
use crate::engine::error::EngineError;
use crate::engine::settings::VerifyConfig;
use crate::failure_parser::command;
use crate::failure_parser::command::{
    classify_verifier_command, parse_command_parts, VerifierCommandKind,
};
use crate::failure_parser::report::{ParsedFailureReport, ReportView};
use crate::failure_parser::typescript_output;
use crate::failure_parser::typescript_output::parse_verifier_failure;
use crate::repo::rust_symbols;
use crate::repo::rust_symbols::parses_cleanly;
use crate::sorting;
use crate::text::chars;
use crate::text::chars::{concat2, concat3, own, same};
use crate::text::find;
use crate::text::find::{contains_char, trim};
use crate::text::number;
use crate::text::number::format_i64;
use crate::text::split;
use crate::text::split::join;
use crate::verification::grounding;
use crate::verification::invocation;
use crate::verification::invocation::{
    parse_allowlisted_verifier_invocation, InvocationView, VerifierInvocation,
};
use crate::verification::workspace;
use crate::verification::workspace::path_extension;
use vstd::prelude::*;
use vstd::string::*;

verus! {

broadcast use chars::lemma_texts_push, chars::lemma_texts_empty;

/// What a verifier command printed and how it ended.
#[derive(Debug, Clone, PartialEq, Eq)]
pub struct VerifierCommandResult {
    pub command: String,
    pub success: bool,
    pub exit_code: Option<i32>,
    pub stdout: String,
    pub stderr: String,
    pub parsed_failure: Option<ParsedFailureReport>,
}

/// What a [`VerifierCommandResult`] stands for.
#[verifier::ext_equal]
pub struct CommandView {
    pub command: Seq<char>,
    pub success: bool,
    pub exit_code: Option<i32>,
    pub stdout: Seq<char>,
    pub stderr: Seq<char>,
    pub failure: Option<ReportView>,
}

impl View for VerifierCommandResult {
    type V = CommandView;

    open spec fn view(&self) -> CommandView {
        CommandView {
            command: self.command@,
            success: self.success,
            exit_code: self.exit_code,
            stdout: self.stdout@,
            stderr: self.stderr@,
            failure: grounding::opt_report(self.parsed_failure),
        }
    }
}

/// What is said of a command that failed: what it printed as an error, else what it printed,
/// else how it ended.
pub open spec fn summary_of(c: CommandView) -> Seq<char> {
    if find::trimmed(c.stderr).len() > 0 {
        find::trimmed(c.stderr)
    } else if find::trimmed(c.stdout).len() > 0 {
        find::trimmed(c.stdout)
    } else {
        match c.exit_code {
            Some(code) => "command exited with status "@ + number::decimal_int(code as int),
            None => "command exited without a status code"@,
        }
    }
}

impl VerifierCommandResult {
    /// What is said of the command if it failed.
    pub fn failure_summary(&self) -> (r: String)
        ensures
            r@ == summary_of(self@),
    {
        let stderr = trim(self.stderr.as_str());
        if !stderr.as_str().is_empty() {
            return stderr;
        }
        let stdout = trim(self.stdout.as_str());
        if !stdout.as_str().is_empty() {
            return stdout;
        }
        match self.exit_code {
            Some(code) => concat2(
                "command exited with status ",
                format_i64(code as i64).as_str(),
            ),
            None => own("command exited without a status code"),
        }
    }
}

/// A command that may run: its text, its words, and the words taken apart.
#[derive(Debug)]
pub struct AdmittedCommand {
    pub command: String,
    pub parts: Vec<String>,
    pub invocation: VerifierInvocation,
}

/// Why a command may not run; `None` if it may.
pub open spec fn objection(cmd: Seq<char>) -> Option<Seq<char>> {
    let s = find::trimmed(cmd);
    if s.len() == 0 {
        Some("empty command"@)
    } else if s.contains('\0') {
        Some("command contains NUL byte"@)
    } else {
        match invocation::invocation(command::command_words(s)) {
            Ok(_) => None,
            Err(e) => Some(e),
        }
    }
}

/// Takes a command apart that may run, or says why it may not.
pub fn admit_command(cmd: &str) -> (r: Result<AdmittedCommand, EngineError>)
    ensures
        match r {
            Ok(a) => objection(cmd@) is None && a.command@ == find::trimmed(cmd@) && chars::texts(
                a.parts@,
            ) == command::command_words(find::trimmed(cmd@)) && invocation::invocation(
                command::command_words(find::trimmed(cmd@)),
            ) == Ok::<InvocationView, Seq<char>>(a.invocation@),
            Err(e) => e matches EngineError::VerificationFailed { reason } && objection(cmd@)
                == Some(reason@),
        },
{
    let trimmed = trim(cmd);
    if trimmed.as_str().is_empty() {
        return Err(EngineError::VerificationFailed { reason: own("empty command") });
    }
    if contains_char(trimmed.as_str(), '\0') {
        return Err(
            EngineError::VerificationFailed { reason: own("command contains NUL byte") },
        );
    }
    let parts = parse_command_parts(trimmed.as_str());
    match parse_allowlisted_verifier_invocation(parts.as_slice()) {
        Ok(i) => Ok(AdmittedCommand { command: trimmed, parts, invocation: i }),
        Err(reason) => Err(EngineError::VerificationFailed { reason }),
    }
}

/// The failure that a run of a command reports.
pub open spec fn failure_of(
    parts: Seq<Seq<char>>,
    success: bool,
    stdout: Seq<char>,
    stderr: Seq<char>,
) -> Option<ReportView> {
    let kind = command::verifier_kind(parts);
    if success || kind == VerifierCommandKind::Unknown {
        None
    } else {
        Some(typescript_output::verifier_report(kind, parts, stdout, stderr))
    }
}

/// The result of a command that ran.
pub fn command_result(
    command_text: &str,
    parts: &[String],
    success: bool,
    exit_code: Option<i32>,
    stdout: String,
    stderr: String,
) -> (r: VerifierCommandResult)
    ensures
        r@ == (CommandView {
            command: command_text@,
            success,
            exit_code,
            stdout: stdout@,
            stderr: stderr@,
            failure: failure_of(chars::texts(parts@), success, stdout@, stderr@),
        }),
{
    let kind = classify_verifier_command(parts);
    let parsed_failure = if success || kind == VerifierCommandKind::Unknown {
        None
    } else {
        Some(parse_verifier_failure(&kind, parts, stdout.as_str(), stderr.as_str()))
    };
    VerifierCommandResult {
        command: own(command_text),
        success,
        exit_code,
        stdout,
        stderr,
        parsed_failure,
    }
}

/// Whether a file parses: every file does but Rust files whose syntax tree holds an error or
/// that have none.
pub open spec fn parses(path: Seq<char>, source: Seq<char>) -> bool {
    workspace::extension_of(path) == Some("rs"@) ==> rust_symbols::rust_nodes(source) is Some
        && !rust_symbols::rust_has_error(source)
}

/// Whether a file parses.
pub fn check_parse(path: &str, source: &str) -> (r: bool)
    requires
        rust_symbols::fits_parser(source@),
    ensures
        r == parses(path@, source@),
{
    let is_rust = match path_extension(path) {
        Some(e) => same(e.as_str(), "rs"),
        None => false,
    };
    if !is_rust {
        return true;
    }
    match parses_cleanly(source) {
        Some(clean) => clean,
        None => false,
    }
}

/// What verification found.
#[derive(Debug, Clone, PartialEq, Eq)]
pub struct VerifyResult {
    pub parse_ok: bool,
    pub test_ok: bool,
    pub lint_ok: bool,
    pub critique: Option<String>,
    pub command_results: Vec<VerifierCommandResult>,
    pub errors: Vec<String>,
}

/// What a [`VerifyResult`] stands for.
#[verifier::ext_equal]
pub struct ResultView {
    pub parse_ok: bool,
    pub test_ok: bool,
    pub lint_ok: bool,
    pub critique: Option<Seq<char>>,
    pub commands: Seq<CommandView>,
    pub errors: Seq<Seq<char>>,
}

impl View for VerifyResult {
    type V = ResultView;

    open spec fn view(&self) -> ResultView {
        ResultView {
            parse_ok: self.parse_ok,
            test_ok: self.test_ok,
            lint_ok: self.lint_ok,
            critique: chars::opt_text(self.critique),
            commands: sorting::views(self.command_results@),
            errors: chars::texts(self.errors@),
        }
    }
}

/// Whether all checks passed.
pub open spec fn passed(r: ResultView) -> bool {
    r.parse_ok && r.test_ok && r.lint_ok
}

impl VerifyResult {
    /// Whether all checks passed.
    pub fn is_ok(&self) -> (r: bool)
        ensures
            r == passed(self@),
    {
        self.parse_ok && self.test_ok && self.lint_ok
    }
}

/// The result before any check.
pub open spec fn unchecked() -> ResultView {
    ResultView {
        parse_ok: true,
        test_ok: true,
        lint_ok: true,
        critique: None,
        commands: Seq::empty(),
        errors: Seq::empty(),
    }
}

/// A file with its content.
#[derive(Debug, Clone, PartialEq, Eq)]
pub struct FileState {
    pub path: String,
    pub content: String,
}

/// What a list of files stands for: the path and the content of each.
pub open spec fn files_view(v: Seq<FileState>) -> Seq<(Seq<char>, Seq<char>)> {
    Seq::new(v.len(), |i: int| (v[i].path@, v[i].content@))
}

/// What is said of a file that does not parse.
pub open spec fn parse_note(path: Seq<char>, in_workspace: bool) -> Seq<char> {
    if in_workspace {
        "tree-sitter parse produced errors for "@ + path
    } else {
        "tree-sitter parse produced errors"@
    }
}

/// What is said of the files of which `clean` says that they do not parse.
pub open spec fn parse_notes(
    files: Seq<(Seq<char>, Seq<char>)>,
    clean: Seq<bool>,
    in_workspace: bool,
) -> Seq<Seq<char>>
    decreases files.len(),
{
    if files.len() == 0 {
        Seq::empty()
    } else {
        let n = files.len() - 1;
        let front = parse_notes(files.drop_last(), clean, in_workspace);
        if clean[n] {
            front
        } else {
            front.push(parse_note(files.last().0, in_workspace))
        }
    }
}

/// The result of the parse check.
pub open spec fn parse_checked(notes: Seq<Seq<char>>) -> ResultView {
    ResultView { parse_ok: notes.len() == 0, errors: notes, ..unchecked() }
}

/// The result of the parse check. `clean` says of each file whether it parses.
pub fn after_parse(files: &[FileState], clean: &[bool], in_workspace: bool) -> (r: VerifyResult)
    requires
        files@.len() == clean@.len(),
    ensures
        r@ == parse_checked(parse_notes(files_view(files@), clean@, in_workspace)),
{
    let ghost all = files_view(files@);
    let mut errors: Vec<String> = Vec::new();
    let mut i: usize = 0;
    proof {
        assert(all.take(0) =~= Seq::<(Seq<char>, Seq<char>)>::empty());
    }
    while i < files.len()
        invariant
            all == files_view(files@),
            files@.len() == clean@.len(),
            i <= files@.len(),
            chars::texts(errors@) == parse_notes(all.take(i as int), clean@, in_workspace),
        decreases files@.len() - i,
    {
        proof {
            assert(all.take(i + 1).drop_last() =~= all.take(i as int));
            assert(all.take(i + 1).last() == (files@[i as int].path@, files@[i as int].content@));
        }
        if !clean[i] {
            errors.push(
                if in_workspace {
                    concat2("tree-sitter parse produced errors for ", files[i].path.as_str())
                } else {
                    own("tree-sitter parse produced errors")
                },
            );
        }
        i = i + 1;
    }
    proof {
        assert(all.take(all.len() as int) =~= all);
        assert(chars::texts(errors@).len() == errors@.len());
    }
    let r = VerifyResult {
        parse_ok: errors.len() == 0,
        test_ok: true,
        lint_ok: true,
        critique: None,
        command_results: Vec::new(),
        errors,
    };
    proof {
        assert(r@.commands =~= Seq::<CommandView>::empty());
    }
    r
}

/// Whether each file parses.
pub open spec fn all_parses(files: Seq<(Seq<char>, Seq<char>)>) -> Seq<bool> {
    Seq::new(files.len(), |i: int| parses(files[i].0, files[i].1))
}

fn check_all(files: &[FileState]) -> (r: Vec<bool>)
    requires
        forall|i: int|
            0 <= i < files@.len() ==> rust_symbols::fits_parser((#[trigger] files@[i]).content@),
    ensures
        r@ == all_parses(files_view(files@)),
{
    let mut out: Vec<bool> = Vec::new();
    let mut i: usize = 0;
    while i < files.len()
        invariant
            forall|i: int|
                0 <= i < files@.len() ==> rust_symbols::fits_parser(
                    (#[trigger] files@[i]).content@,
                ),
            i <= files@.len(),
            out@.len() == i,
            forall|j: int|
                0 <= j < i ==> #[trigger] out@[j] == parses(files@[j].path@, files@[j].content@),
        decreases files@.len() - i,
    {
        out.push(check_parse(files[i].path.as_str(), files[i].content.as_str()));
        i = i + 1;
    }
    proof {
        assert(out@ =~= all_parses(files_view(files@)));
    }
    out
}

/// The steps of verification, in order.
#[derive(Debug, Clone, Copy, PartialEq, Eq, Structural)]
pub enum VerifyStage {
    Write,
    Test,
    Lint,
    Critique,
    Finished,
}

/// What has to be done next.
#[derive(Debug, Clone, PartialEq, Eq)]
pub enum VerifyAction {
    /// Write the candidate.
    Write,
    /// Run the given command.
    Run(String),
    /// Ask for a critique, with a system message and a user message.
    Ask { system: String, user: String },
    Finish,
}

/// What was done.
#[derive(Debug, Clone, PartialEq, Eq)]
pub enum VerifyEvent {
    Written,
    /// The command ran.
    Ran(VerifierCommandResult),
    /// The command could not be run.
    NotRun(String),
    /// The critique, if there is one.
    Critique(Option<String>),
}

/// What a [`VerifyEvent`] stands for.
#[verifier::ext_equal]
pub enum EventView {
    Written,
    Ran(CommandView),
    NotRun(Seq<char>),
    Critique(Option<Seq<char>>),
}

impl View for VerifyEvent {
    type V = EventView;

    open spec fn view(&self) -> EventView {
        match *self {
            VerifyEvent::Written => EventView::Written,
            VerifyEvent::Ran(c) => EventView::Ran(c@),
            VerifyEvent::NotRun(e) => EventView::NotRun(e@),
            VerifyEvent::Critique(c) => EventView::Critique(chars::opt_text(c)),
        }
    }
}

/// A verification that is under way.
#[derive(Debug)]
pub struct VerifyRun {
    pub config: VerifyConfig,
    /// Whether a workspace is verified that already holds the candidates.
    pub in_workspace: bool,
    /// Whether a critique may be asked for.
    pub may_ask: bool,
    /// The code that a critique is shown.
    pub code: String,
    pub stage: VerifyStage,
    pub result: VerifyResult,
}

/// What verification goes by.
#[verifier::ext_equal]
pub struct Terms {
    pub test: Option<Seq<char>>,
    pub lint: Option<Seq<char>>,
    pub in_workspace: bool,
    /// Whether a critique is asked for if a check failed.
    pub critique: bool,
}

/// The stage that follows: tests, lint and critique come as far as they are wanted.
pub open spec fn stage_after(t: Terms, s: VerifyStage, r: ResultView) -> VerifyStage {
    if s == VerifyStage::Write && t.test is Some {
        VerifyStage::Test
    } else if (s == VerifyStage::Write || s == VerifyStage::Test) && t.lint is Some {
        VerifyStage::Lint
    } else if s != VerifyStage::Critique && s != VerifyStage::Finished && t.critique && !passed(
        r,
    ) {
        VerifyStage::Critique
    } else {
        VerifyStage::Finished
    }
}

/// What is added to a note on a workspace.
pub open spec fn place(in_workspace: bool) -> Seq<char> {
    if in_workspace {
        " in workspace: "@
    } else {
        ": "@
    }
}

/// The result after a command of the given stage.
pub open spec fn with_command(r: ResultView, s: VerifyStage, in_workspace: bool, e: EventView) ->
    ResultView {
    let test = s == VerifyStage::Test;
    match e {
        EventView::Ran(c) => {
            let said = (if test {
                "tests failed"@
            } else {
                "lint failed"@
            }) + place(in_workspace) + summary_of(c);
            ResultView {
                test_ok: r.test_ok && !(test && !c.success),
                lint_ok: r.lint_ok && !(!test && !c.success),
                commands: r.commands.push(c),
                errors: if c.success {
                    r.errors
                } else {
                    r.errors.push(said)
                },
                ..r
            }
        },
        EventView::NotRun(why) => {
            let said = (if test {
                "test command failed"@
            } else {
                "lint command failed"@
            }) + place(in_workspace) + why;
            ResultView {
                test_ok: r.test_ok && !test,
                lint_ok: r.lint_ok && test,
                errors: r.errors.push(said),
                ..r
            }
        },
        _ => r,
    }
}

/// The result after an event.
pub open spec fn result_after(t: Terms, s: VerifyStage, r: ResultView, e: EventView) -> ResultView {
    match s {
        VerifyStage::Test => with_command(r, s, t.in_workspace, e),
        VerifyStage::Lint => with_command(r, s, t.in_workspace, e),
        VerifyStage::Critique => match e {
            EventView::Critique(c) => ResultView { critique: c, ..r },
            _ => r,
        },
        _ => r,
    }
}

/// Whether an event answers the action of a stage.
pub open spec fn answers(s: VerifyStage, e: EventView) -> bool {
    match s {
        VerifyStage::Write => e is Written,
        VerifyStage::Test => e is Ran || e is NotRun,
        VerifyStage::Lint => e is Ran || e is NotRun,
        VerifyStage::Critique => e is Critique,
        VerifyStage::Finished => false,
    }
}

/// What a critique is told and asked.
pub open spec fn critique_request(code: Seq<char>, errors: Seq<Seq<char>>) -> Seq<char> {
    "Code:\n```\n"@ + code + "\n```\n\nErrors:\n"@ + split::joined(errors, "\n"@)
}

/// How long a critique can be, in tokens.
pub const CRITIQUE_MAX_TOKENS: u32 = 2048;

/// What a critic is told to be.
pub const CRITIQUE_SYSTEM_PROMPT: &'static str = "You are a code review agent. Analyze the following code that failed verification and suggest fixes. Respond with a brief critique.";

fn push_command(
    r: &mut VerifyResult,
    is_test: bool,
    in_workspace: bool,
    event: VerifyEvent,
)
    requires
        event is Ran || event is NotRun,
    ensures
        final(r)@ == with_command(
            old(r)@,
            if is_test {
                VerifyStage::Test
            } else {
                VerifyStage::Lint
            },
            in_workspace,
            event@,
        ),
{
    let at = if in_workspace {
        " in workspace: "
    } else {
        ": "
    };
    let ghost before = r.command_results@;
    match event {
        VerifyEvent::Ran(c) => {
            let success = c.success;
            let summary = c.failure_summary();
            let ghost cv = c@;
            r.command_results.push(c);
            proof {
                assert(sorting::views(r.command_results@) =~= sorting::views(before).push(cv));
            }
            if !success {
                if is_test {
                    r.test_ok = false;
                    r.errors.push(concat3("tests failed", at, summary.as_str()));
                } else {
                    r.lint_ok = false;
                    r.errors.push(concat3("lint failed", at, summary.as_str()));
                }
            }
        },
        VerifyEvent::NotRun(why) => {
            if is_test {
                r.test_ok = false;
                r.errors.push(concat3("test command failed", at, why.as_str()));
            } else {
                r.lint_ok = false;
                r.errors.push(concat3("lint command failed", at, why.as_str()));
            }
        },
        _ => {},
    }
}

impl VerifyRun {
    /// What the verification goes by.
    pub open spec fn terms(&self) -> Terms {
        Terms {
            test: if self.config.test_after_write {
                Some(self.config.test_command@)
            } else {
                None
            },
            lint: if self.config.lint_after_write {
                Some(self.config.lint_command@)
            } else {
                None
            },
            in_workspace: self.in_workspace,
            critique: self.may_ask && self.config.mercury2_critique_on_failure,
        }
    }

    fn next_stage(&self, from: VerifyStage) -> (r: VerifyStage)
        ensures
            r == stage_after(self.terms(), from, self.result@),
    {
        if from == VerifyStage::Write && self.config.test_after_write {
            VerifyStage::Test
        } else if (from == VerifyStage::Write || from == VerifyStage::Test)
            && self.config.lint_after_write {
            VerifyStage::Lint
        } else if from != VerifyStage::Critique && from != VerifyStage::Finished && self.may_ask
            && self.config.mercury2_critique_on_failure && !self.result.is_ok() {
            VerifyStage::Critique
        } else {
            VerifyStage::Finished
        }
    }

    /// Begins the verification of one file, which is still to be written.
    pub fn of_file(config: &VerifyConfig, path: &str, content: &str, may_ask: bool) -> (r:
        VerifyRun)
        requires
            rust_symbols::fits_parser(content@),
        ensures
            r.stage == VerifyStage::Write,
            r.code@ == content@,
            r.terms() == (Terms {
                test: if config.test_after_write {
                    Some(config.test_command@)
                } else {
                    None
                },
                lint: if config.lint_after_write {
                    Some(config.lint_command@)
                } else {
                    None
                },
                in_workspace: false,
                critique: may_ask && config.mercury2_critique_on_failure,
            }),
            r.result@ == parse_checked(
                if config.parse_before_write && !parses(path@, content@) {
                    seq!["tree-sitter parse produced errors"@]
                } else {
                    Seq::empty()
                },
            ),
    {
        let mut files: Vec<FileState> = Vec::new();
        let mut clean: Vec<bool> = Vec::new();
        if config.parse_before_write {
            files.push(FileState { path: own(path), content: own(content) });
            clean.push(check_parse(path, content));
        }
        let result = after_parse(files.as_slice(), clean.as_slice(), false);
        proof {
            let fv = files_view(files@);
            if config.parse_before_write {
                assert(fv.drop_last() =~= Seq::<(Seq<char>, Seq<char>)>::empty());
                assert(parse_notes(fv.drop_last(), clean@, false) =~= Seq::<Seq<char>>::empty());
                if !parses(path@, content@) {
                    assert(parse_notes(fv, clean@, false) =~= seq![
                        "tree-sitter parse produced errors"@,
                    ]);
                }
            } else {
                assert(fv =~= Seq::<(Seq<char>, Seq<char>)>::empty());
            }
        }
        VerifyRun {
            config: config.copy(),
            in_workspace: false,
            may_ask,
            code: own(content),
            stage: VerifyStage::Write,
            result,
        }
    }

    /// Begins the verification of a workspace that holds the given files.
    pub fn of_workspace(config: &VerifyConfig, files: &[FileState], may_ask: bool) -> (r: VerifyRun)
        requires
            forall|i: int|
                0 <= i < files@.len() ==> rust_symbols::fits_parser(
                    (#[trigger] files@[i]).content@,
                ),
        ensures
            r.code@ == changed_code(files_view(files@)),
            r.terms() == (Terms {
                test: if config.test_after_write {
                    Some(config.test_command@)
                } else {
                    None
                },
                lint: if config.lint_after_write {
                    Some(config.lint_command@)
                } else {
                    None
                },
                in_workspace: true,
                critique: may_ask && config.mercury2_critique_on_failure,
            }),
            r.result@ == parse_checked(
                if config.parse_before_write {
                    parse_notes(
                        files_view(files@),
                        all_parses(files_view(files@)),
                        true,
                    )
                } else {
                    Seq::empty()
                },
            ),
            r.stage == stage_after(r.terms(), VerifyStage::Write, r.result@),
    {
        let none: Vec<FileState> = Vec::new();
        let no_flags: Vec<bool> = Vec::new();
        let result = if config.parse_before_write {
            let clean = check_all(files);
            after_parse(files, clean.as_slice(), true)
        } else {
            proof {
                assert(files_view(none@) =~= Seq::<(Seq<char>, Seq<char>)>::empty());
            }
            after_parse(none.as_slice(), no_flags.as_slice(), true)
        };
        let mut run = VerifyRun {
            config: config.copy(),
            in_workspace: true,
            may_ask,
            code: show_files(files),
            stage: VerifyStage::Write,
            result,
        };
        run.stage = run.next_stage(VerifyStage::Write);
        run
    }

    /// What has to be done next.
    pub fn action(&self) -> (r: VerifyAction)
        ensures
            match self.stage {
                VerifyStage::Write => r is Write,
                VerifyStage::Test => r matches VerifyAction::Run(c) && c@
                    == self.config.test_command@,
                VerifyStage::Lint => r matches VerifyAction::Run(c) && c@
                    == self.config.lint_command@,
                VerifyStage::Critique => r matches VerifyAction::Ask { system, user } && system@
                    == CRITIQUE_SYSTEM_PROMPT@ && user@ == critique_request(
                    self.code@,
                    self.result@.errors,
                ),
                VerifyStage::Finished => r is Finish,
            },
    {
        match self.stage {
            VerifyStage::Write => VerifyAction::Write,
            VerifyStage::Test => VerifyAction::Run(own(self.config.test_command.as_str())),
            VerifyStage::Lint => VerifyAction::Run(own(self.config.lint_command.as_str())),
            VerifyStage::Critique => {
                let mut user = concat3("Code:\n```\n", self.code.as_str(), "\n```\n\nErrors:\n");
                user.append(join(self.result.errors.as_slice(), "\n").as_str());
                VerifyAction::Ask { system: own(CRITIQUE_SYSTEM_PROMPT), user }
            },
            VerifyStage::Finished => VerifyAction::Finish,
        }
    }

    /// Takes note of what was done, and goes on to the next stage.
    pub fn advance(&mut self, event: VerifyEvent)
        requires
            answers(old(self).stage, event@),
        ensures
            final(self).config == old(self).config,
            final(self).in_workspace == old(self).in_workspace,
            final(self).may_ask == old(self).may_ask,
            final(self).code == old(self).code,
            final(self).terms() == old(self).terms(),
            final(self).result@ == result_after(
                old(self).terms(),
                old(self).stage,
                old(self).result@,
                event@,
            ),
            final(self).stage == stage_after(
                old(self).terms(),
                old(self).stage,
                final(self).result@,
            ),
    {
        let stage = self.stage;
        let in_workspace = self.in_workspace;
        match stage {
            VerifyStage::Test => {
                push_command(&mut self.result, true, in_workspace, event);
            },
            VerifyStage::Lint => {
                push_command(&mut self.result, false, in_workspace, event);
            },
            VerifyStage::Critique => {
                match event {
                    VerifyEvent::Critique(c) => {
                        self.result.critique = c;
                    },
                    _ => {},
                }
            },
            _ => {},
        }
        self.stage = self.next_stage(stage);
    }
}

/// The files as a critique is shown them.
pub open spec fn shown_files(files: Seq<(Seq<char>, Seq<char>)>) -> Seq<Seq<char>> {
    Seq::new(files.len(), |i: int| "// "@ + files[i].0 + "\n"@ + files[i].1)
}

/// The files as a critique is shown them.
pub open spec fn changed_code(files: Seq<(Seq<char>, Seq<char>)>) -> Seq<char> {
    split::joined(shown_files(files), "\n\n"@)
}

fn show_files(files: &[FileState]) -> (r: String)
    ensures
        r@ == changed_code(files_view(files@)),
{
    let mut out: Vec<String> = Vec::new();
    let mut i: usize = 0;
    while i < files.len()
        invariant
            i <= files@.len(),
            out@.len() == i,
            forall|j: int|
                0 <= j < i ==> (#[trigger] out@[j])@ == "// "@ + files@[j].path@ + "\n"@
                    + files@[j].content@,
        decreases files@.len() - i,
    {
        let mut s = concat3("// ", files[i].path.as_str(), "\n");
        s.append(files[i].content.as_str());
        out.push(s);
        i = i + 1;
    }
    proof {
        assert(chars::texts(out@) =~= shown_files(files_view(files@)));
    }
    join(out.as_slice(), "\n\n")
}

/// How many actions are left at most.
pub open spec fn actions_left(s: VerifyStage) -> nat {
    match s {
        VerifyStage::Write => 4,
        VerifyStage::Test => 3,
        VerifyStage::Lint => 2,
        VerifyStage::Critique => 1,
        VerifyStage::Finished => 0,
    }
}

/// Every event brings the end nearer, so verification ends.
pub proof fn law_verification_ends(t: Terms, s: VerifyStage, r: ResultView)
    requires
        s != VerifyStage::Finished,
    ensures
        actions_left(stage_after(t, s, r)) < actions_left(s),
{
}

/// Whether a result has notes exactly if something in it failed.
pub open spec fn notes_match(r: ResultView) -> bool {
    passed(r) <==> r.errors.len() == 0
}

/// A result passes if and only if it has no errors, at every stage.
pub proof fn law_errors_mean_failure(t: Terms, s: VerifyStage, r: ResultView, e: EventView)
    requires
        notes_match(r),
        answers(s, e),
    ensures
        notes_match(result_after(t, s, r, e)),
{
}

/// The result of the parse check has errors if and only if it fails.
pub proof fn law_parse_errors_mean_failure(notes: Seq<Seq<char>>)
    ensures
        notes_match(parse_checked(notes)),
{
}

/// A check that failed is never forgotten.
pub proof fn law_failures_stay(t: Terms, s: VerifyStage, r: ResultView, e: EventView)
    requires
        !passed(r),
    ensures
        !passed(result_after(t, s, r, e)),
{
}

/// Whether a command ran and succeeded.
pub open spec fn went_well(e: EventView) -> bool {
    match e {
        EventView::Ran(c) => c.success,
        _ => false,
    }
}

/// A test or lint command that failed, or that could not be run, fails its own check and with
/// it the whole result, and says so in one more error.
pub proof fn law_failed_commands_fail(t: Terms, s: VerifyStage, r: ResultView, e: EventView)
    requires
        s == VerifyStage::Test || s == VerifyStage::Lint,
        answers(s, e),
        !went_well(e),
    ensures
        !passed(result_after(t, s, r, e)),
        s == VerifyStage::Test ==> !result_after(t, s, r, e).test_ok,
        s == VerifyStage::Test ==> result_after(t, s, r, e).lint_ok == r.lint_ok,
        s == VerifyStage::Lint ==> !result_after(t, s, r, e).lint_ok,
        s == VerifyStage::Lint ==> result_after(t, s, r, e).test_ok == r.test_ok,
        result_after(t, s, r, e).errors.len() == r.errors.len() + 1,
        result_after(t, s, r, e).errors.drop_last() == r.errors,
{
    assert(result_after(t, s, r, e).errors.drop_last() =~= r.errors);
}

/// The error that a failed command leaves begins with the check that it belongs to and ends
/// with what the command has to say.
pub proof fn law_errors_say_what_failed(t: Terms, s: VerifyStage, r: ResultView, e: EventView)
    requires
        s == VerifyStage::Test || s == VerifyStage::Lint,
        answers(s, e),
        !went_well(e),
    ensures
        s == VerifyStage::Test ==> find::has_prefix(
            result_after(t, s, r, e).errors.last(),
            "test"@,
        ),
        s == VerifyStage::Lint ==> find::has_prefix(
            result_after(t, s, r, e).errors.last(),
            "lint"@,
        ),
        e matches EventView::Ran(c) ==> find::has_suffix(
            result_after(t, s, r, e).errors.last(),
            summary_of(c),
        ),
        e matches EventView::NotRun(why) ==> find::has_suffix(
            result_after(t, s, r, e).errors.last(),
            why,
        ),
{
    reveal_strlit("test");
    reveal_strlit("lint");
    reveal_strlit("tests failed");
    reveal_strlit("lint failed");
    reveal_strlit("test command failed");
    reveal_strlit("lint command failed");
    let said = result_after(t, s, r, e).errors.last();
    assert(said.take(4) =~= (if s == VerifyStage::Test {
        "test"@
    } else {
        "lint"@
    }));
    match e {
        EventView::Ran(c) => {
            assert(said.skip(said.len() - summary_of(c).len()) =~= summary_of(c));
        },
        EventView::NotRun(why) => {
            assert(said.skip(said.len() - why.len()) =~= why);
        },
        _ => {},
    }
}

/// A command that succeeded changes no verdict and adds no error.
pub proof fn law_successful_commands_fail_nothing(
    t: Terms,
    s: VerifyStage,
    r: ResultView,
    e: EventView,
)
    requires
        went_well(e),
    ensures
        passed(result_after(t, s, r, e)) == passed(r),
        result_after(t, s, r, e).parse_ok == r.parse_ok,
        result_after(t, s, r, e).test_ok == r.test_ok,
        result_after(t, s, r, e).lint_ok == r.lint_ok,
        result_after(t, s, r, e).errors == r.errors,
{
}

/// Every command that ran is recorded, after those that ran before it; nothing else is.
pub proof fn law_commands_are_recorded(t: Terms, s: VerifyStage, r: ResultView, e: EventView)
    requires
        answers(s, e),
    ensures
        e matches EventView::Ran(c) ==> result_after(t, s, r, e).commands == r.commands.push(c),
        e !is Ran ==> result_after(t, s, r, e).commands == r.commands,
{
}

/// Writing and asking for a critique decide nothing; a critique is kept as it was given.
pub proof fn law_only_commands_decide(t: Terms, s: VerifyStage, r: ResultView, e: EventView)
    requires
        answers(s, e),
        s == VerifyStage::Write || s == VerifyStage::Critique,
    ensures
        passed(result_after(t, s, r, e)) == passed(r),
        result_after(t, s, r, e).errors == r.errors,
        e matches EventView::Critique(c) ==> result_after(t, s, r, e).critique == c,
        e !is Critique ==> result_after(t, s, r, e).critique == r.critique,
{
}

/// Whether a verification with the given terms passes a stage.
pub open spec fn wants(t: Terms, s: VerifyStage) -> bool {
    match s {
        VerifyStage::Test => t.test is Some,
        VerifyStage::Lint => t.lint is Some,
        VerifyStage::Critique => t.critique,
        _ => true,
    }
}

/// A stage is entered only where it is wanted, and tests and lint are never passed over where
/// they are; a critique is asked for exactly if it is wanted and some check failed.
pub proof fn law_wanted_stages_come(t: Terms, s: VerifyStage, r: ResultView)
    requires
        s != VerifyStage::Finished,
    ensures
        wants(t, stage_after(t, s, r)),
        forall|k: VerifyStage|
            #![trigger actions_left(k)]
            actions_left(stage_after(t, s, r)) < actions_left(k) < actions_left(s) ==> !wants(t, k)
                || (k == VerifyStage::Critique && passed(r)),
        stage_after(t, s, r) == VerifyStage::Critique ==> !passed(r),
{
}

/// As many notes are made as files do not parse; so the parse check passes exactly if every
/// file parses.
pub proof fn law_parse_check_reads_every_file(
    files: Seq<(Seq<char>, Seq<char>)>,
    clean: Seq<bool>,
    in_workspace: bool,
)
    requires
        files.len() == clean.len(),
    ensures
        parse_notes(files, clean, in_workspace).len() == clean.filter(|c: bool| !c).len(),
        passed(parse_checked(parse_notes(files, clean, in_workspace))) <==> forall|i: int|
            0 <= i < clean.len() ==> #[trigger] clean[i],
        forall|i: int|
            0 <= i < files.len() && !#[trigger] clean[i] ==> parse_notes(
                files,
                clean,
                in_workspace,
            ).contains(parse_note(files[i].0, in_workspace)),
    decreases files.len(),
{
    if files.len() > 0 {
        let n = files.len() - 1;
        let front = parse_notes(files.drop_last(), clean.drop_last(), in_workspace);
        let all = parse_notes(files, clean, in_workspace);
        law_parse_check_reads_every_file(files.drop_last(), clean.drop_last(), in_workspace);
        lemma_notes_of_front(files.drop_last(), clean, clean.drop_last(), in_workspace);
        lemma_filter_last(clean);
        assert(clean == clean.drop_last().push(clean[n]));
        if !clean[n] {
            assert(all[front.len() as int] == parse_note(files[n].0, in_workspace));
        }
        assert forall|i: int| 0 <= i < files.len() && !#[trigger] clean[i] implies all.contains(
            parse_note(files[i].0, in_workspace),
        ) by {
            if i < n {
                assert(!clean.drop_last()[i]);
                assert(front.contains(parse_note(files.drop_last()[i].0, in_workspace)));
                let j = choose|j: int|
                    0 <= j < front.len() && front[j] == parse_note(files[i].0, in_workspace);
                assert(all[j] == front[j]);
            }
        }
        if forall|i: int| 0 <= i < clean.len() ==> #[trigger] clean[i] {
            assert forall|i: int| 0 <= i < n implies #[trigger] clean.drop_last()[i] by {
                assert(clean[i]);
            }
        }
        if all.len() == 0 {
            assert(clean[n]);
            assert forall|i: int| 0 <= i < clean.len() implies #[trigger] clean[i] by {
                if i < n {
                    assert(clean.drop_last()[i]);
                }
            }
        }
    } else {
        reveal(Seq::filter);
        assert(clean.filter(|c: bool| !c).len() == 0);
    }
}

proof fn lemma_filter_last(clean: Seq<bool>)
    requires
        clean.len() > 0,
    ensures
        clean.filter(|c: bool| !c).len() == clean.drop_last().filter(|c: bool| !c).len() + (
        if clean.last() {
            0int
        } else {
            1
        }),
{
    reveal(Seq::filter);
}

proof fn lemma_notes_of_front(
    files: Seq<(Seq<char>, Seq<char>)>,
    a: Seq<bool>,
    b: Seq<bool>,
    in_workspace: bool,
)
    requires
        files.len() <= a.len(),
        files.len() <= b.len(),
        forall|i: int| 0 <= i < files.len() ==> a[i] == b[i],
    ensures
        parse_notes(files, a, in_workspace) == parse_notes(files, b, in_workspace),
    decreases files.len(),
{
    if files.len() > 0 {
        lemma_notes_of_front(files.drop_last(), a, b, in_workspace);
    }
}

/// What is said of a failed command is what it printed as an error, and only if that is blank
/// what it printed otherwise, and only if both are blank how it ended.
pub proof fn law_failures_are_summed_up(c: CommandView)
    ensures
        find::trimmed(c.stderr).len() > 0 ==> summary_of(c) == find::trimmed(c.stderr),
        find::trimmed(c.stderr).len() == 0 && find::trimmed(c.stdout).len() > 0 ==> summary_of(c)
            == find::trimmed(c.stdout),
        find::trimmed(c.stderr).len() == 0 && find::trimmed(c.stdout).len() == 0 ==> (
        c.exit_code matches Some(code) ==> find::has_suffix(
            summary_of(c),
            number::decimal_int(code as int),
        )),
        summary_of(c).len() > 0,
{
    reveal_strlit("command exited with status ");
    reveal_strlit("command exited without a status code");
    if let Some(code) = c.exit_code {
        let d = number::decimal_int(code as int);
        let s = "command exited with status "@ + d;
        assert(s.subrange(s.len() - d.len(), s.len() as int) =~= d);
    }
}

/// A run reports a failure exactly if it failed and its command is a known verifier.
pub proof fn law_failed_verifiers_report(
    parts: Seq<Seq<char>>,
    success: bool,
    stdout: Seq<char>,
    stderr: Seq<char>,
)
    ensures
        failure_of(parts, success, stdout, stderr) is Some <==> !success && command::verifier_kind(
            parts,
        ) != VerifierCommandKind::Unknown,
{
}

/// A command may run exactly if it is filled, holds no zero character, and is a verifier that
/// is allowed.
pub proof fn law_commands_that_may_run(cmd: Seq<char>)
    ensures
        objection(cmd) is None <==> find::trimmed(cmd).len() > 0 && !find::trimmed(cmd).contains(
            '\0',
        ) && invocation::invocation(command::command_words(find::trimmed(cmd))) is Ok,
{
}

/// A critique is shown the code and every error.
pub proof fn law_critiques_are_shown_all(code: Seq<char>, errors: Seq<Seq<char>>)
    ensures
        find::has_text(critique_request(code, errors), code),
        find::has_suffix(critique_request(code, errors), split::joined(errors, "\n"@)),
{
    let s = critique_request(code, errors);
    let at = "Code:\n```\n"@.len() as int;
    let e = split::joined(errors, "\n"@);
    assert(s.subrange(at, at + code.len()) =~= code);
    assert(find::occurs_at(s, code, at));
    assert(s.subrange(s.len() - e.len(), s.len() as int) =~= e);
}

/// Only Rust files can fail to parse, and they do exactly if they have no tree or one that holds
/// an error.
pub proof fn law_only_rust_files_can_fail_to_parse(path: Seq<char>, source: Seq<char>)
    ensures
        workspace::extension_of(path) != Some("rs"@) ==> parses(path, source),
        workspace::extension_of(path) == Some("rs"@) ==> (parses(path, source)
            <==> rust_symbols::rust_nodes(source) is Some && !rust_symbols::rust_has_error(source)),
{
}

} // verus!
