//! Watched commands and how they are repaired.
use crate::engine::settings::VerifyConfig;
use crate::failure_parser::command;
use crate::failure_parser::report;
use crate::failure_parser::{
    classify_cargo_command, classify_verifier_command, contains_shell_composition,
    parse_command_parts, parse_verifier_failure, repo_native_tool_surface, CargoCommandKind,
    ParsedFailureReport, VerifierCommandKind,
};
use crate::failure_parser::tools;
use crate::failure_parser::typescript_output;
use crate::json;
use crate::json::{field, integer_or_null, object, text, Json, JsonView};
use crate::repo::path;
use crate::repo::path::should_skip_watch_path;
use crate::text::chars;
use crate::text::chars::{concat2, concat3, from_range, own, to_chars};
use crate::text::find;
use crate::text::find::trim;
use crate::text::number;
use crate::text::number::format_i64;
use crate::text::split;
use crate::text::split::join;
use crate::verification::failures;
use crate::verification::failures::report_to_json;
use crate::verification::secrets;
use crate::verification::secrets::{redact_secrets, EnvValue, Masking};
use vstd::prelude::*;
use vstd::string::*;

verus! {

broadcast use chars::lemma_texts_push, chars::lemma_texts_empty;

/// What a Rust verifier checks.
#[derive(Debug, Clone, Copy, PartialEq, Eq, Structural)]
pub enum RustRepairMode {
    /// That the code builds or passes its tests.
    TestLike,
    /// That the code is free of lints.
    Lint,
}

/// A command that a repair is to make pass.
#[derive(Debug, Clone, PartialEq, Eq)]
pub struct RustRepairTarget {
    pub verifier_command: String,
    pub mode: RustRepairMode,
}

/// What a repair is to make pass: the command without space around it, and what it checks.
pub open spec fn repair_target(line: Seq<char>) -> Option<(Seq<char>, RustRepairMode)> {
    let t = find::trimmed(line);
    if t.len() == 0 || command::composes(t) {
        None
    } else {
        match command::cargo_kind(command::command_words(t)) {
            CargoCommandKind::Test | CargoCommandKind::Check => Some((t, RustRepairMode::TestLike)),
            CargoCommandKind::Clippy => Some((t, RustRepairMode::Lint)),
            CargoCommandKind::Unknown => None,
        }
    }
}

/// What a target stands for.
pub open spec fn target_view(t: Option<RustRepairTarget>) -> Option<(Seq<char>, RustRepairMode)> {
    match t {
        Some(x) => Some((x.verifier_command@, x.mode)),
        None => None,
    }
}

/// What a repair is to make pass, if the command is a plain Rust verifier.
pub fn classify_rust_repair_command(command: &str) -> (r: Option<RustRepairTarget>)
    ensures
        target_view(r) == repair_target(command@),
{
    let trimmed = trim(command);
    if trimmed.as_str().is_empty() || contains_shell_composition(trimmed.as_str()) {
        return None;
    }
    let parts = parse_command_parts(trimmed.as_str());
    let mode = match classify_cargo_command(parts.as_slice()) {
        CargoCommandKind::Test | CargoCommandKind::Check => RustRepairMode::TestLike,
        CargoCommandKind::Clippy => RustRepairMode::Lint,
        CargoCommandKind::Unknown => {
            return None;
        },
    };
    Some(RustRepairTarget { verifier_command: trimmed, mode })
}

/// How a repair is verified: by the watched command alone.
pub fn build_watch_verify_config(base: &VerifyConfig, target: &RustRepairTarget) -> (r: VerifyConfig)
    ensures
        r.parse_before_write == base.parse_before_write,
        r.mercury2_critique_on_failure == base.mercury2_critique_on_failure,
        r.test_after_write == (target.mode is TestLike),
        r.lint_after_write == (target.mode is Lint),
        r.test_command@ == if target.mode is TestLike {
            target.verifier_command@
        } else {
            base.test_command@
        },
        r.lint_command@ == if target.mode is Lint {
            target.verifier_command@
        } else {
            base.lint_command@
        },
{
    let mut config = base.copy();
    match target.mode {
        RustRepairMode::TestLike => {
            config.test_after_write = true;
            config.test_command = own(target.verifier_command.as_str());
            config.lint_after_write = false;
        },
        RustRepairMode::Lint => {
            config.test_after_write = false;
            config.lint_after_write = true;
            config.lint_command = own(target.verifier_command.as_str());
        },
    }
    config
}

/// An output without space around it, cut to the given length.
pub open spec fn shortened(output: Seq<char>, max: nat) -> Seq<char> {
    let t = find::trimmed(output);
    if t.len() <= max {
        t
    } else {
        t.take(max as int) + "\n...[truncated]"@
    }
}

/// An output without space around it, cut to the given length.
pub fn truncate_watch_output(output: &str, max_chars: usize) -> (r: String)
    ensures
        r@ == shortened(output@, max_chars as nat),
{
    let trimmed = trim(output);
    let x = to_chars(trimmed.as_str());
    if x.len() <= max_chars {
        return trimmed;
    }
    let head = from_range(x.as_slice(), 0, max_chars);
    proof {
        assert(head@ =~= trimmed@.take(max_chars as int));
    }
    concat2(head.as_str(), "\n...[truncated]")
}

/// One run of a watched command.
#[derive(Debug)]
pub struct WatchCommandResult {
    pub command: String,
    pub success: bool,
    pub exit_code: Option<i32>,
    pub stdout: String,
    pub stderr: String,
    pub parsed_failure: Option<ParsedFailureReport>,
}

/// What a [`WatchCommandResult`] stands for.
#[verifier::ext_equal]
pub struct ResultView {
    pub command: Seq<char>,
    pub success: bool,
    pub exit_code: Option<i32>,
    pub stdout: Seq<char>,
    pub stderr: Seq<char>,
    pub failure: Option<report::ReportView>,
}

/// What an optional report stands for.
pub open spec fn opt_report(r: Option<ParsedFailureReport>) -> Option<report::ReportView> {
    match r {
        Some(x) => Some(x@),
        None => None,
    }
}

impl View for WatchCommandResult {
    type V = ResultView;

    open spec fn view(&self) -> ResultView {
        ResultView {
            command: self.command@,
            success: self.success,
            exit_code: self.exit_code,
            stdout: self.stdout@,
            stderr: self.stderr@,
            failure: opt_report(self.parsed_failure),
        }
    }
}

/// The failures in the output of a command, if it is a known verifier.
pub open spec fn watch_failure(
    parts: Seq<Seq<char>>,
    stdout: Seq<char>,
    stderr: Seq<char>,
) -> Option<report::ReportView> {
    let kind = command::verifier_kind(parts);
    if kind is Unknown {
        None
    } else {
        Some(typescript_output::verifier_report(kind, parts, stdout, stderr))
    }
}

/// The failures in the output of a command, if it is a known verifier.
pub fn parse_supported_watch_failure(command_parts: &[String], stdout: &str, stderr: &str) -> (r:
    Option<ParsedFailureReport>)
    ensures
        opt_report(r) == watch_failure(chars::texts(command_parts@), stdout@, stderr@),
{
    let kind = classify_verifier_command(command_parts);
    match kind {
        VerifierCommandKind::Unknown => None,
        _ => Some(parse_verifier_failure(&kind, command_parts, stdout, stderr)),
    }
}

/// What is known of a run: its texts without secrets, and its failures if it failed.
pub open spec fn run_result(
    parts: Seq<Seq<char>>,
    success: bool,
    exit_code: Option<i32>,
    stdout: Seq<char>,
    stderr: Seq<char>,
    env: Seq<(Seq<char>, Seq<char>)>,
) -> ResultView {
    ResultView {
        command: secrets::masked(Masking::Lines, split::joined(parts, " "@), env),
        success,
        exit_code,
        stdout: secrets::masked(Masking::Lines, stdout, env),
        stderr: secrets::masked(Masking::Lines, stderr, env),
        failure: if success {
            None
        } else {
            watch_failure(parts, stdout, stderr)
        },
    }
}

/// What is known of a run: its texts without secrets, and its failures if it failed.
pub fn watch_command_result(
    command_parts: &[String],
    success: bool,
    exit_code: Option<i32>,
    stdout: &str,
    stderr: &str,
    env: &[EnvValue],
) -> (r: WatchCommandResult)
    ensures
        r@ == run_result(
            chars::texts(command_parts@),
            success,
            exit_code,
            stdout@,
            stderr@,
            secrets::env_view(env@),
        ),
{
    let parsed_failure = if success {
        None
    } else {
        parse_supported_watch_failure(command_parts, stdout, stderr)
    };
    WatchCommandResult {
        command: redact_secrets(join(command_parts, " ").as_str(), env),
        success,
        exit_code,
        stdout: redact_secrets(stdout, env),
        stderr: redact_secrets(stderr, env),
        parsed_failure,
    }
}

/// A report in JSON, or null.
pub open spec fn report_or_null(r: Option<report::ReportView>) -> JsonView {
    match r {
        Some(x) => failures::report_json(x),
        None => JsonView::Null,
    }
}

/// A report in JSON, or null.
pub fn failure_or_null(r: &Option<ParsedFailureReport>) -> (j: Json)
    ensures
        j@ == report_or_null(opt_report(*r)),
{
    match r {
        Some(x) => report_to_json(x),
        None => Json::Null,
    }
}

/// A run in JSON.
pub open spec fn result_json(r: ResultView) -> JsonView {
    JsonView::Object(
        seq![
            ("command"@, JsonView::Text(r.command)),
            ("success"@, JsonView::Bool(r.success)),
            ("exit_code"@, json::opt_integer(r.exit_code)),
            ("stdout"@, JsonView::Text(r.stdout)),
            ("stderr"@, JsonView::Text(r.stderr)),
            ("parsed_failure"@, report_or_null(r.failure)),
        ],
    )
}

impl WatchCommandResult {
    /// The run in JSON.
    pub fn to_json(&self) -> (r: Json)
        ensures
            r@ == result_json(self@),
    {
        let fields = vec![
            field("command", text(self.command.as_str())),
            field("success", Json::Bool(self.success)),
            field("exit_code", integer_or_null(self.exit_code)),
            field("stdout", text(self.stdout.as_str())),
            field("stderr", text(self.stderr.as_str())),
            field("parsed_failure", failure_or_null(&self.parsed_failure)),
        ];
        proof {
            assert(json::fields_view(fields@) =~= result_json(self@)->Object_0);
        }
        object(fields)
    }
}

/// How a run ended.
pub open spec fn exit_text(code: Option<i32>, missing: Seq<char>) -> Seq<char> {
    match code {
        Some(x) => number::decimal_int(x as int),
        None => missing,
    }
}

/// How a run ended.
pub fn describe_exit(code: Option<i32>, missing: &str) -> (r: String)
    ensures
        r@ == exit_text(code, missing@),
{
    match code {
        Some(x) => format_i64(x as i64),
        None => own(missing),
    }
}

/// A section of a description; a section without text is left out.
pub open spec fn section(head: Seq<char>, body: Seq<char>) -> Seq<char> {
    if body.len() == 0 {
        Seq::empty()
    } else {
        head + body + "\n"@
    }
}

/// The line of a tool.
pub open spec fn tool_line(t: (Seq<char>, Seq<char>)) -> Seq<char> {
    "- "@ + t.0 + ": "@ + t.1
}

/// The lines of the tools.
pub open spec fn tool_lines(tools: Seq<(Seq<char>, Seq<char>)>) -> Seq<Seq<char>> {
    Seq::new(tools.len(), |i: int| tool_line(tools[i]))
}

/// What a repair is asked to do.
pub open spec fn repair_description(
    line: Seq<char>,
    r: ResultView,
    parsed: Option<Seq<char>>,
    env: Seq<(Seq<char>, Seq<char>)>,
) -> Seq<char> {
    "Repair the repository so the Rust verifier command `"@ + secrets::masked(
        Masking::Lines,
        line,
        env,
    ) + "` succeeds.\nExit code: "@ + exit_text(r.exit_code, "unknown"@)
        + ".\nFocus only on the changes needed to make that command pass.\n"@ + section(
        "\nCommand stderr:\n"@,
        shortened(r.stderr, 6000),
    ) + section("\nCommand stdout:\n"@, shortened(r.stdout, 4000)) + (match parsed {
        Some(p) => "\nStructured parsed failure:\n"@ + p + "\n"@,
        None => Seq::<char>::empty(),
    }) + section(
        "\nRepo-native tool surface available to grounding and repair loop:\n"@,
        split::joined(tool_lines(tools::tool_surface()), "\n"@),
    )
}

fn append_section(s: &mut String, head: &str, body: &str)
    ensures
        final(s)@ == old(s)@ + section(head@, body@),
{
    let ghost before = s@;
    if !body.is_empty() {
        let part = concat3(head, body, "\n");
        s.append(part.as_str());
    }
    proof {
        assert(s@ =~= before + section(head@, body@));
    }
}

fn list_tools() -> (r: String)
    ensures
        r@ == split::joined(tool_lines(tools::tool_surface()), "\n"@),
{
    let surface = repo_native_tool_surface();
    let ghost all = tool_lines(tools::tool_surface());
    let mut out: Vec<String> = Vec::new();
    let mut i: usize = 0;
    while i < surface.len()
        invariant
            tools::tools_view(surface@) == tools::tool_surface(),
            all == tool_lines(tools::tool_surface()),
            i <= surface@.len(),
            out@.len() == i,
            forall|j: int| 0 <= j < i ==> (#[trigger] out@[j])@ == all[j],
        decreases surface@.len() - i,
    {
        let t = &surface[i];
        let mut s = concat3("- ", t.name, ": ");
        s.append(t.description);
        proof {
            assert(tools::tools_view(surface@)[i as int] == (t.name@, t.description@));
        }
        out.push(s);
        i = i + 1;
    }
    proof {
        assert(chars::texts(out@) =~= all);
    }
    join(out.as_slice(), "\n")
}

/// What a repair is asked to do, given the failures of the run as text.
pub fn build_watch_repair_description(
    command: &str,
    result: &WatchCommandResult,
    parsed_failure: &Option<String>,
    env: &[EnvValue],
) -> (r: String)
    ensures
        r@ == repair_description(
            command@,
            result@,
            chars::opt_text(*parsed_failure),
            secrets::env_view(env@),
        ),
{
    let shown = redact_secrets(command, env);
    let mut d = concat3(
        "Repair the repository so the Rust verifier command `",
        shown.as_str(),
        "` succeeds.\nExit code: ",
    );
    d.append(describe_exit(result.exit_code, "unknown").as_str());
    d.append(".\nFocus only on the changes needed to make that command pass.\n");
    append_section(
        &mut d,
        "\nCommand stderr:\n",
        truncate_watch_output(result.stderr.as_str(), 6000).as_str(),
    );
    append_section(
        &mut d,
        "\nCommand stdout:\n",
        truncate_watch_output(result.stdout.as_str(), 4000).as_str(),
    );
    let ghost before = d@;
    match parsed_failure {
        Some(p) => {
            let part = concat3("\nStructured parsed failure:\n", p.as_str(), "\n");
            d.append(part.as_str());
        },
        None => {},
    }
    proof {
        assert(d@ =~= before + (match chars::opt_text(*parsed_failure) {
            Some(p) => "\nStructured parsed failure:\n"@ + p + "\n"@,
            None => Seq::<char>::empty(),
        }));
    }
    append_section(
        &mut d,
        "\nRepo-native tool surface available to grounding and repair loop:\n",
        list_tools().as_str(),
    );
    d
}

/// Whether a file is not watched: version control, build products and what this program keeps.
pub open spec fn unwatched(path: Seq<char>) -> bool {
    path::in_directory(path, ".git"@) || path::in_directory(path, "target"@) || path::in_directory(
        path,
        ".mercury"@,
    )
}

/// When a file was changed last, and how long it is.
#[derive(Debug, Clone, Copy, PartialEq, Eq, Structural)]
pub struct RepoFileFingerprint {
    pub modified_unix_nanos: u128,
    pub len: u64,
}

/// The watched files of a project, in order.
#[derive(Debug, Clone, PartialEq, Eq)]
pub struct RepoWatchSnapshot {
    pub files: Vec<(String, RepoFileFingerprint)>,
}

/// What a list of files stands for.
pub open spec fn files_view(v: Seq<(String, RepoFileFingerprint)>) -> Seq<
    (Seq<char>, RepoFileFingerprint),
> {
    Seq::new(v.len(), |i: int| (v[i].0@, v[i].1))
}

impl View for RepoWatchSnapshot {
    type V = Seq<(Seq<char>, RepoFileFingerprint)>;

    open spec fn view(&self) -> Seq<(Seq<char>, RepoFileFingerprint)> {
        files_view(self.files@)
    }
}

/// The files that are watched.
pub open spec fn watched(s: Seq<(Seq<char>, RepoFileFingerprint)>) -> Seq<
    (Seq<char>, RepoFileFingerprint),
>
    decreases s.len(),
{
    if s.len() == 0 {
        Seq::empty()
    } else if unwatched(s.last().0) {
        watched(s.drop_last())
    } else {
        watched(s.drop_last()).push(s.last())
    }
}

impl RepoWatchSnapshot {
    /// The watched ones of the given files.
    pub fn of_files(files: Vec<(String, RepoFileFingerprint)>) -> (r: RepoWatchSnapshot)
        ensures
            r@ == watched(files_view(files@)),
    {
        let ghost all = files_view(files@);
        let mut kept: Vec<(String, RepoFileFingerprint)> = Vec::new();
        let mut i: usize = 0;
        proof {
            assert(files_view(kept@) =~= watched(all.take(0)));
        }
        while i < files.len()
            invariant
                all == files_view(files@),
                i <= files@.len(),
                files_view(kept@) == watched(all.take(i as int)),
            decreases files@.len() - i,
        {
            let f = &files[i];
            proof {
                assert(all.take(i + 1).drop_last() =~= all.take(i as int));
                assert(all.take(i + 1).last() == (f.0@, f.1));
            }
            if !should_skip_watch_path(f.0.as_str()) {
                let ghost before = kept@;
                kept.push((own(f.0.as_str()), f.1));
                proof {
                    assert(files_view(kept@) =~= files_view(before).push((f.0@, f.1)));
                }
            }
            i = i + 1;
        }
        proof {
            assert(all.take(all.len() as int) =~= all);
        }
        RepoWatchSnapshot { files: kept }
    }

    /// Whether the files differ from those seen before.
    pub fn differs(&self, before: &RepoWatchSnapshot) -> (r: bool)
        ensures
            r == (self@ != before@),
    {
        let n: usize = self.files.len();
        if n != before.files.len() {
            proof {
                assert(self@.len() != before@.len());
            }
            return true;
        }
        let mut i: usize = 0;
        while i < n
            invariant
                n == self.files@.len(),
                n == before.files@.len(),
                i <= n,
                forall|j: int| 0 <= j < i ==> #[trigger] self@[j] == before@[j],
            decreases n - i,
        {
            let a = &self.files[i];
            let b = &before.files[i];
            if !(chars::same(a.0.as_str(), b.0.as_str()) && a.1 == b.1) {
                proof {
                    assert(self@[i as int] != before@[i as int]);
                }
                return true;
            }
            i = i + 1;
        }
        proof {
            assert(self@ =~= before@);
        }
        false
    }
}

proof fn lemma_watched(s: Seq<(Seq<char>, RepoFileFingerprint)>, k: int)
    requires
        0 <= k < watched(s).len(),
    ensures
        !unwatched(watched(s)[k].0),
        s.contains(watched(s)[k]),
    decreases s.len(),
{
    let front = s.drop_last();
    if k < watched(front).len() {
        lemma_watched(front, k);
        let i = choose|i: int| 0 <= i < front.len() && front[i] == watched(front)[k];
        assert(s[i] == watched(s)[k]);
    } else {
        assert(s[s.len() - 1] == watched(s)[k]);
    }
}

proof fn lemma_watched_append(
    s: Seq<(Seq<char>, RepoFileFingerprint)>,
    t: Seq<(Seq<char>, RepoFileFingerprint)>,
)
    ensures
        watched(s + t) == watched(s) + watched(t),
    decreases t.len(),
{
    if t.len() == 0 {
        assert(s + t =~= s);
        assert(watched(s) + watched(t) =~= watched(s));
    } else {
        lemma_watched_append(s, t.drop_last());
        assert((s + t).drop_last() =~= s + t.drop_last());
        assert((s + t).last() == t.last());
        if !unwatched(t.last().0) {
            assert((watched(s) + watched(t.drop_last())).push(t.last()) =~= watched(s) + watched(
                t.drop_last(),
            ).push(t.last()));
        }
    }
}

/// A file that is not watched changes nothing in what is seen, wherever it stands.
pub proof fn law_unwatched_files_are_not_seen(
    before: Seq<(Seq<char>, RepoFileFingerprint)>,
    file: (Seq<char>, RepoFileFingerprint),
    after: Seq<(Seq<char>, RepoFileFingerprint)>,
)
    requires
        unwatched(file.0),
    ensures
        watched(before.push(file) + after) == watched(before + after),
{
    assert(before.push(file).drop_last() =~= before);
    lemma_watched_append(before.push(file), after);
    lemma_watched_append(before, after);
}

/// What is seen are watched files of the project.
pub proof fn law_only_watched_files_are_seen(s: Seq<(Seq<char>, RepoFileFingerprint)>, k: int)
    requires
        0 <= k < watched(s).len(),
    ensures
        !unwatched(watched(s)[k].0),
        s.contains(watched(s)[k]),
{
    lemma_watched(s, k);
}

/// The command of a target is plain: it is not composed of several commands.
pub proof fn law_repair_targets_are_plain(line: Seq<char>)
    ensures
        repair_target(line) is Some ==> {
            &&& !command::composes(repair_target(line).unwrap().0)
            &&& repair_target(line).unwrap().0 == find::trimmed(line)
        },
{
}

} // verus!
