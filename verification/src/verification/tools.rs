//! The tools of a repair: what they take and what they give.
use crate::api::types;
use crate::api::types::{ArgsView, ToolArgs, ToolCall, ToolDefinition, ToolFunctionDefinition};
use crate::failure_parser::tools;
use crate::failure_parser::tools::repo_native_tool_surface;
use crate::failure_parser::typescript_output::parse_verifier_failure;
use crate::failure_parser::typescript_output;
use crate::json;
use crate::json::{count, field, integer_or_null, list, object, text, text_list, Json, JsonView};
use crate::text::bytes;
use crate::text::chars;
use crate::text::chars::{concat2, own, own_opt, same};
use crate::text::find;
use crate::text::find::trim;
use crate::text::split;
use crate::text::split::lines;
use crate::verification::failures;
use crate::verification::failures::report_to_json;
use crate::verification::invocation;
use crate::verification::invocation::{
    name_of_kind, parse_allowlisted_verifier_invocation, parse_allowlisted_verifier_parts,
    InvocationView, VerifierInvocation,
};
use crate::verification::policy;
use crate::verification::policy::{
    build_tool_error_output, injected_keys, redact_all, verifier_audit_json, verifier_policy_json,
    ContextView, ToolContext, VerifierAuditEntry,
};
use crate::verification::secrets;
use crate::verification::secrets::{redact_sensitive_text, redact_sensitive_value, Masking};
use crate::verification::workspace;
use crate::verification::workspace::{
    normalized_relative, parse_ripgrep_match, resolve_relative_path, MatchView, SearchMatch,
};
use vstd::prelude::*;

verus! {

broadcast use chars::lemma_texts_push, chars::lemma_texts_empty;

/// The tool that reads a file.
pub const READ_FILE_TOOL: &'static str = "read_file";

/// The tool that searches for a symbol.
pub const SEARCH_SYMBOL_TOOL: &'static str = "search_symbol";

/// The tool that runs a verifier command.
pub const RUN_TESTS_TOOL: &'static str = "run_tests";

/// The tool that writes a file of the workspace.
pub const APPLY_PATCH_TEMP_TOOL: &'static str = "apply_patch_temp";

/// The tool that shows what differs from the project.
pub const GIT_DIFF_TOOL: &'static str = "git_diff";

/// The tool that makes the workspace a copy of the project again.
pub const ROLLBACK_CANDIDATE_TOOL: &'static str = "rollback_candidate";

/// A schema of texts, of at least one character if `filled`.
pub open spec fn text_schema(filled: bool) -> JsonView {
    if filled {
        JsonView::Object(
            seq![
                ("type"@, JsonView::Text("string"@)),
                ("minLength"@, JsonView::Number("1"@)),
            ],
        )
    } else {
        JsonView::Object(seq![("type"@, JsonView::Text("string"@))])
    }
}

/// The properties of the arguments of a tool.
pub open spec fn properties(name: Seq<char>) -> Seq<(Seq<char>, JsonView)> {
    if name == "read_file"@ {
        seq![("path"@, text_schema(true))]
    } else if name == "search_symbol"@ {
        seq![("query"@, text_schema(true))]
    } else if name == "run_tests"@ {
        seq![("command"@, text_schema(true))]
    } else if name == "apply_patch_temp"@ {
        seq![("path"@, text_schema(true)), ("content"@, text_schema(false))]
    } else if name == "git_diff"@ {
        seq![("path"@, text_schema(false))]
    } else {
        Seq::empty()
    }
}

/// The arguments that a tool cannot do without.
pub open spec fn needed(name: Seq<char>) -> Seq<Seq<char>> {
    if name == "read_file"@ {
        seq!["path"@]
    } else if name == "search_symbol"@ {
        seq!["query"@]
    } else if name == "run_tests"@ {
        seq!["command"@]
    } else if name == "apply_patch_temp"@ {
        seq!["path"@, "content"@]
    } else {
        Seq::empty()
    }
}

/// The schema of the arguments of a tool.
pub open spec fn parameters(name: Seq<char>) -> JsonView {
    let head = seq![
        ("type"@, JsonView::Text("object"@)),
        ("additionalProperties"@, JsonView::Bool(false)),
        ("properties"@, JsonView::Object(properties(name))),
    ];
    JsonView::Object(
        if needed(name).len() > 0 {
            head.push(("required"@, json::text_items(needed(name))))
        } else {
            head
        },
    )
}

fn text_schema_json(filled: bool) -> (r: Json)
    ensures
        r@ == text_schema(filled),
{
    if filled {
        let fields = vec![
            field("type", text("string")),
            field("minLength", Json::Number(own("1"))),
        ];
        proof {
            assert(json::fields_view(fields@) =~= text_schema(true)->Object_0);
        }
        object(fields)
    } else {
        let fields = vec![field("type", text("string"))];
        proof {
            assert(json::fields_view(fields@) =~= text_schema(false)->Object_0);
        }
        object(fields)
    }
}

fn property_fields(name: &str) -> (r: Vec<(String, Json)>)
    ensures
        json::fields_view(r@) == properties(name@),
{
    let r = if same(name, "read_file") {
        vec![field("path", text_schema_json(true))]
    } else if same(name, "search_symbol") {
        vec![field("query", text_schema_json(true))]
    } else if same(name, "run_tests") {
        vec![field("command", text_schema_json(true))]
    } else if same(name, "apply_patch_temp") {
        vec![field("path", text_schema_json(true)), field("content", text_schema_json(false))]
    } else if same(name, "git_diff") {
        vec![field("path", text_schema_json(false))]
    } else {
        Vec::new()
    };
    proof {
        assert(json::fields_view(r@) =~= properties(name@));
    }
    r
}

fn needed_names(name: &str) -> (r: Vec<String>)
    ensures
        chars::texts(r@) == needed(name@),
{
    let r = if same(name, "read_file") {
        vec![own("path")]
    } else if same(name, "search_symbol") {
        vec![own("query")]
    } else if same(name, "run_tests") {
        vec![own("command")]
    } else if same(name, "apply_patch_temp") {
        vec![own("path"), own("content")]
    } else {
        Vec::new()
    };
    proof {
        assert(chars::texts(r@) =~= needed(name@));
    }
    r
}

/// The schema of the arguments of a tool.
pub fn tool_parameters(name: &str) -> (r: Json)
    ensures
        r@ == parameters(name@),
{
    let required = needed_names(name);
    let mut fields = vec![
        field("type", text("object")),
        field("additionalProperties", Json::Bool(false)),
        field("properties", object(property_fields(name))),
    ];
    proof {
        assert(chars::texts(required@).len() == required@.len());
    }
    if required.len() > 0 {
        fields.push(field("required", text_list(required.as_slice())));
    }
    proof {
        assert(json::fields_view(fields@) =~= parameters(name@)->Object_0);
    }
    object(fields)
}

/// Whether a definition offers a tool.
pub open spec fn offers(d: ToolDefinition, name: Seq<char>, description: Seq<char>) -> bool {
    &&& d.kind@ == "function"@
    &&& d.function.name@ == name
    &&& d.function.description matches Some(t) && t@ == description
    &&& d.function.parameters@ == parameters(name)
}

/// The definitions of all tools of a repair.
pub fn mercury_repair_tools() -> (r: Vec<ToolDefinition>)
    ensures
        r@.len() == tools::tool_surface().len(),
        forall|i: int|
            0 <= i < r@.len() ==> offers(
                #[trigger] r@[i],
                tools::tool_surface()[i].0,
                tools::tool_surface()[i].1,
            ),
{
    let surface = repo_native_tool_surface();
    let mut out: Vec<ToolDefinition> = Vec::new();
    let mut i: usize = 0;
    proof {
        assert(tools::tools_view(surface@).len() == surface@.len());
    }
    while i < surface.len()
        invariant
            tools::tools_view(surface@) == tools::tool_surface(),
            i <= surface@.len(),
            out@.len() == i,
            forall|k: int|
                0 <= k < i ==> offers(
                    #[trigger] out@[k],
                    tools::tool_surface()[k].0,
                    tools::tool_surface()[k].1,
                ),
        decreases surface@.len() - i,
    {
        let t = surface[i];
        proof {
            assert(tools::tools_view(surface@)[i as int] == (t.name@, t.description@));
        }
        out.push(
            ToolDefinition {
                kind: own("function"),
                function: ToolFunctionDefinition {
                    name: own(t.name),
                    description: Some(own(t.description)),
                    parameters: tool_parameters(t.name),
                },
            },
        );
        i = i + 1;
    }
    out
}

/// What a tool call asks for.
#[derive(Debug)]
pub enum ToolRequest {
    /// Read the file `at`, which is shown as `path`.
    ReadFile { at: String, path: String },
    SearchSymbol { query: String },
    RunTests { command: String, parts: Vec<String>, invocation: VerifierInvocation },
    /// Write `content` to the file `at`, which is shown as `path`.
    ApplyPatch { at: String, path: String, content: String },
    /// Show what differs between `left` and `right`.
    GitDiff { left: String, right: String, relative: Option<String> },
    Rollback,
}

/// What a [`ToolRequest`] stands for.
#[verifier::ext_equal]
pub enum RequestView {
    ReadFile { at: Seq<char>, path: Seq<char> },
    SearchSymbol { query: Seq<char> },
    RunTests { command: Seq<char>, parts: Seq<Seq<char>>, invocation: InvocationView },
    ApplyPatch { at: Seq<char>, path: Seq<char>, content: Seq<char> },
    GitDiff { left: Seq<char>, right: Seq<char>, relative: Option<Seq<char>> },
    Rollback,
}

impl View for ToolRequest {
    type V = RequestView;

    open spec fn view(&self) -> RequestView {
        match *self {
            ToolRequest::ReadFile { at, path } => RequestView::ReadFile { at: at@, path: path@ },
            ToolRequest::SearchSymbol { query } => RequestView::SearchSymbol { query: query@ },
            ToolRequest::RunTests { command, parts, invocation } => RequestView::RunTests {
                command: command@,
                parts: chars::texts(parts@),
                invocation: invocation@,
            },
            ToolRequest::ApplyPatch { at, path, content } => RequestView::ApplyPatch {
                at: at@,
                path: path@,
                content: content@,
            },
            ToolRequest::GitDiff { left, right, relative } => RequestView::GitDiff {
                left: left@,
                right: right@,
                relative: chars::opt_text(relative),
            },
            ToolRequest::Rollback => RequestView::Rollback,
        }
    }
}

/// The path that an argument means inside the workspace.
pub open spec fn in_workspace(c: ContextView, path: Seq<char>) -> Result<Seq<char>, Seq<char>> {
    workspace::resolved(c.workspace, path, c.cwd)
}

/// What a call to read a file asks for.
pub open spec fn read_request(c: ContextView, args: ArgsView) -> Result<RequestView, Seq<char>> {
    match args.path {
        None => Err("missing path"@),
        Some(path) => match in_workspace(c, path) {
            Err(e) => Err(e),
            Ok(at) => Ok(RequestView::ReadFile { at, path: workspace::below(c.workspace, at) }),
        },
    }
}

/// What a call to run a command asks for.
pub open spec fn run_request(args: ArgsView) -> Result<RequestView, Seq<char>> {
    match args.command {
        None => Err("missing command"@),
        Some(given) => {
            let line = find::trimmed(given);
            if line.len() == 0 {
                Err("missing command"@)
            } else {
                match invocation::allowed_words(line) {
                    Err(e) => Err(e),
                    Ok(parts) => match invocation::invocation(parts) {
                        Err(e) => Err(e),
                        Ok(i) => Ok(
                            RequestView::RunTests { command: line, parts, invocation: i },
                        ),
                    },
                }
            }
        },
    }
}

/// What a call to write a file asks for.
pub open spec fn patch_request(c: ContextView, args: ArgsView) -> Result<RequestView, Seq<char>> {
    match (args.path, args.content) {
        (None, _) => Err("missing path"@),
        (_, None) => Err("missing content"@),
        (Some(path), Some(content)) => match in_workspace(c, path) {
            Err(e) => Err(e),
            Ok(at) => Ok(
                RequestView::ApplyPatch { at, path: workspace::below(c.workspace, at), content },
            ),
        },
    }
}

/// What a call to show differences asks for.
pub open spec fn diff_request(c: ContextView, args: ArgsView) -> Result<RequestView, Seq<char>> {
    let path = args.path;
    match path {
        Some(p) if p.len() > 0 => match workspace::resolved(c.project, p, c.cwd) {
            Err(e) => Err(e),
            Ok(left) => match in_workspace(c, p) {
                Err(e) => Err(e),
                Ok(right) => Ok(RequestView::GitDiff { left, right, relative: path }),
            },
        },
        _ => Ok(RequestView::GitDiff { left: c.project, right: c.workspace, relative: path }),
    }
}

/// What a tool call asks for, or why it cannot be done.
pub open spec fn request(c: ContextView, name: Seq<char>, args: ArgsView) -> Result<
    RequestView,
    Seq<char>,
> {
    if name == "read_file"@ {
        read_request(c, args)
    } else if name == "search_symbol"@ {
        match args.query {
            None => Err("missing query"@),
            Some(query) => Ok(RequestView::SearchSymbol { query }),
        }
    } else if name == "run_tests"@ {
        run_request(args)
    } else if name == "apply_patch_temp"@ {
        patch_request(c, args)
    } else if name == "git_diff"@ {
        diff_request(c, args)
    } else if name == "rollback_candidate"@ {
        Ok(RequestView::Rollback)
    } else {
        Err("unknown tool: "@ + name)
    }
}

/// What a result with a request stands for.
pub open spec fn request_view(r: Result<ToolRequest, String>) -> Result<RequestView, Seq<char>> {
    match r {
        Ok(x) => Ok(x@),
        Err(e) => Err(e@),
    }
}

fn request_read(c: &ToolContext, args: &ToolArgs) -> (r: Result<ToolRequest, String>)
    ensures
        request_view(r) == read_request(c@, args@),
{
    let path = match own_opt(&args.path) {
        Some(p) => p,
        None => {
            return Err(own("missing path"));
        },
    };
    match resolve_relative_path(c.workspace_root.as_str(), path.as_str(), c.cwd.as_str()) {
        Ok(at) => {
            let path = normalized_relative(c.workspace_root.as_str(), at.as_str());
            Ok(ToolRequest::ReadFile { at, path })
        },
        Err(e) => Err(e),
    }
}

fn request_run(args: &ToolArgs) -> (r: Result<ToolRequest, String>)
    ensures
        request_view(r) == run_request(args@),
{
    let given = match own_opt(&args.command) {
        Some(p) => p,
        None => {
            return Err(own("missing command"));
        },
    };
    let line = trim(given.as_str());
    if line.as_str().is_empty() {
        return Err(own("missing command"));
    }
    let parts = match parse_allowlisted_verifier_parts(line.as_str()) {
        Ok(p) => p,
        Err(e) => {
            return Err(e);
        },
    };
    match parse_allowlisted_verifier_invocation(parts.as_slice()) {
        Ok(invocation) => Ok(ToolRequest::RunTests { command: line, parts, invocation }),
        Err(e) => Err(e),
    }
}

fn request_patch(c: &ToolContext, args: &ToolArgs) -> (r: Result<ToolRequest, String>)
    ensures
        request_view(r) == patch_request(c@, args@),
{
    let path = match own_opt(&args.path) {
        Some(p) => p,
        None => {
            return Err(own("missing path"));
        },
    };
    let content = match own_opt(&args.content) {
        Some(p) => p,
        None => {
            return Err(own("missing content"));
        },
    };
    match resolve_relative_path(c.workspace_root.as_str(), path.as_str(), c.cwd.as_str()) {
        Ok(at) => {
            let path = normalized_relative(c.workspace_root.as_str(), at.as_str());
            Ok(ToolRequest::ApplyPatch { at, path, content })
        },
        Err(e) => Err(e),
    }
}

fn request_diff(c: &ToolContext, args: &ToolArgs) -> (r: Result<ToolRequest, String>)
    ensures
        request_view(r) == diff_request(c@, args@),
{
    let path = own_opt(&args.path);
    let filled = match &path {
        Some(p) => !p.as_str().is_empty(),
        None => false,
    };
    if filled {
        match &path {
            Some(p) => {
                let left = match resolve_relative_path(
                    c.project_root.as_str(),
                    p.as_str(),
                    c.cwd.as_str(),
                ) {
                    Ok(x) => x,
                    Err(e) => {
                        return Err(e);
                    },
                };
                let right = match resolve_relative_path(
                    c.workspace_root.as_str(),
                    p.as_str(),
                    c.cwd.as_str(),
                ) {
                    Ok(x) => x,
                    Err(e) => {
                        return Err(e);
                    },
                };
                return Ok(ToolRequest::GitDiff { left, right, relative: own_opt(&path) });
            },
            None => {},
        }
    }
    Ok(
        ToolRequest::GitDiff {
            left: own(c.project_root.as_str()),
            right: own(c.workspace_root.as_str()),
            relative: path,
        },
    )
}

/// What a tool call asks for, or why it cannot be done.
pub fn plan_tool_call(c: &ToolContext, name: &str, args: &ToolArgs) -> (r: Result<ToolRequest, String>)
    ensures
        request_view(r) == request(c@, name@, args@),
{
    if same(name, READ_FILE_TOOL) {
        request_read(c, args)
    } else if same(name, SEARCH_SYMBOL_TOOL) {
        match own_opt(&args.query) {
            Some(query) => Ok(ToolRequest::SearchSymbol { query }),
            None => Err(own("missing query")),
        }
    } else if same(name, RUN_TESTS_TOOL) {
        request_run(args)
    } else if same(name, APPLY_PATCH_TEMP_TOOL) {
        request_patch(c, args)
    } else if same(name, GIT_DIFF_TOOL) {
        request_diff(c, args)
    } else if same(name, ROLLBACK_CANDIDATE_TOOL) {
        Ok(ToolRequest::Rollback)
    } else {
        Err(concat2("unknown tool: ", name))
    }
}

/// What is given back for a file that was read.
pub fn read_file_output(path: &str, content: &str) -> (r: Json)
    ensures
        r@ == JsonView::Object(
            seq![("path"@, JsonView::Text(path@)), ("content"@, JsonView::Text(content@))],
        ),
{
    let fields = vec![field("path", text(path)), field("content", text(content))];
    proof {
        assert(json::fields_view(fields@) =~= seq![
            ("path"@, JsonView::Text(path@)),
            ("content"@, JsonView::Text(content@)),
        ]);
    }
    object(fields)
}

/// A match as JSON.
pub open spec fn match_json(m: MatchView) -> JsonView {
    JsonView::Object(
        seq![
            ("path"@, JsonView::Text(m.path)),
            ("line"@, json::natural(m.line)),
            (
                "column"@,
                match m.column {
                    Some(n) => json::natural(n),
                    None => JsonView::Null,
                },
            ),
            ("text"@, JsonView::Text(m.text)),
        ],
    )
}

/// The matches that the first `n` lines of search output tell of.
pub open spec fn found(ls: Seq<Seq<char>>, n: int, root: Seq<char>) -> Seq<JsonView>
    decreases n,
{
    if n <= 0 {
        Seq::empty()
    } else {
        let front = found(ls, n - 1, root);
        match workspace::match_of(ls[n - 1], root, usize::MAX as nat) {
            Some(m) => front.push(match_json(m)),
            None => front,
        }
    }
}

/// How many lines of search output are read.
pub open spec fn read_lines(n: nat) -> int {
    if n > 50 {
        50
    } else {
        n as int
    }
}

fn match_to_json(m: &SearchMatch) -> (r: Json)
    ensures
        r@ == match_json(m@),
{
    let column = match m.column {
        Some(n) => count(n),
        None => Json::Null,
    };
    let fields = vec![
        field("path", text(m.path.as_str())),
        field("line", count(m.line)),
        field("column", column),
        field("text", text(m.text.as_str())),
    ];
    proof {
        assert(json::fields_view(fields@) =~= match_json(m@)->Object_0);
    }
    object(fields)
}

/// What is given back for a search: the matches that the first fifty lines of its output
/// tell of.
pub fn search_output(c: &ToolContext, query: &str, stdout: &str) -> (r: Json)
    ensures
        r@ == JsonView::Object(
            seq![
                ("query"@, JsonView::Text(query@)),
                (
                    "matches"@,
                    JsonView::List(
                        found(
                            split::lines_of(stdout@),
                            read_lines(split::lines_of(stdout@).len()),
                            c@.workspace,
                        ),
                    ),
                ),
            ],
        ),
{
    let ls = lines(stdout);
    let ghost all = chars::texts(ls@);
    let n: usize = if ls.len() > 50 {
        50
    } else {
        ls.len()
    };
    let mut out: Vec<Json> = Vec::new();
    let mut i: usize = 0;
    proof {
        assert(all.len() == ls@.len());
        assert(json::items_view(out@) =~= Seq::<JsonView>::empty());
    }
    while i < n
        invariant
            all == chars::texts(ls@),
            i <= n <= ls@.len(),
            json::items_view(out@) == found(all, i as int, c@.workspace),
        decreases n - i,
    {
        proof {
            assert(all[i as int] == ls@[i as int]@);
        }
        match parse_ripgrep_match(ls[i].as_str(), c.workspace_root.as_str()) {
            Some(m) => {
                let ghost before = out@;
                out.push(match_to_json(&m));
                proof {
                    assert(json::items_view(out@) =~= json::items_view(before).push(
                        match_json(m@),
                    ));
                }
            },
            None => {},
        }
        i = i + 1;
    }
    let ghost items = json::items_view(out@);
    let fields = vec![field("query", text(query)), field("matches", list(out))];
    proof {
        assert(json::fields_view(fields@) =~= seq![
            ("query"@, JsonView::Text(query@)),
            ("matches"@, JsonView::List(items)),
        ]);
    }
    object(fields)
}

/// What is given back for a file that was written.
pub fn patch_output(path: &str, content: &str) -> (r: Json)
    ensures
        r@ == JsonView::Object(
            seq![
                ("path"@, JsonView::Text(path@)),
                ("bytes_written"@, json::natural(bytes::byte_len(content@))),
            ],
        ),
{
    let fields = vec![
        field("path", text(path)),
        field("bytes_written", count(bytes::count_bytes(content))),
    ];
    proof {
        assert(json::fields_view(fields@) =~= seq![
            ("path"@, JsonView::Text(path@)),
            ("bytes_written"@, json::natural(bytes::byte_len(content@))),
        ]);
    }
    object(fields)
}

/// What is given back for a difference.
pub fn diff_output(diff: &str, path: &Option<String>) -> (r: Json)
    ensures
        r@ == JsonView::Object(
            seq![
                ("diff"@, JsonView::Text(diff@)),
                ("path"@, json::opt_text(chars::opt_text(*path))),
            ],
        ),
{
    let fields = vec![field("diff", text(diff)), field("path", json::text_or_null(path))];
    proof {
        assert(json::fields_view(fields@) =~= seq![
            ("diff"@, JsonView::Text(diff@)),
            ("path"@, json::opt_text(chars::opt_text(*path))),
        ]);
    }
    object(fields)
}

/// What is given back once the workspace is a copy of the project again.
pub fn rollback_output(c: &ToolContext) -> (r: Json)
    ensures
        r@ == JsonView::Object(seq![("workspace_root"@, JsonView::Text(c@.workspace))]),
{
    let fields = vec![field("workspace_root", text(c.workspace_root.as_str()))];
    proof {
        assert(json::fields_view(fields@) =~= seq![
            ("workspace_root"@, JsonView::Text(c@.workspace)),
        ]);
    }
    object(fields)
}

/// What a command printed and how it ended.
#[derive(Debug, Clone, PartialEq, Eq)]
pub struct CommandRun {
    pub success: bool,
    pub exit_code: Option<i32>,
    pub stdout: String,
    pub stderr: String,
    pub stdout_bytes: usize,
    pub stderr_bytes: usize,
}

/// The failure that a run reports, as JSON without secrets.
pub open spec fn failure_shown(
    c: ContextView,
    i: InvocationView,
    parts: Seq<Seq<char>>,
    run: CommandRun,
) -> JsonView {
    secrets::masked_json(
        Masking::Words,
        if run.success {
            JsonView::Null
        } else {
            failures::report_json(
                typescript_output::verifier_report(i.kind, parts, run.stdout@, run.stderr@),
            )
        },
        c.secrets,
    )
}

/// Whether a run passed or failed.
pub open spec fn decision(run: CommandRun) -> Seq<char> {
    if run.success {
        "passed"@
    } else {
        "failed"@
    }
}

/// What is given back for a command that ran.
pub open spec fn run_output(
    c: ContextView,
    line: Seq<char>,
    parts: Seq<Seq<char>>,
    i: InvocationView,
    run: CommandRun,
) -> JsonView {
    JsonView::Object(
        seq![
            ("command"@, JsonView::Text(policy::shown(c, line))),
            ("command_parts"@, json::text_items(policy::all_shown(c, parts))),
            ("kind"@, JsonView::Text(invocation::kind_name(i.kind))),
            ("success"@, JsonView::Bool(run.success)),
            ("exit_code"@, json::opt_integer(run.exit_code)),
            ("stdout"@, JsonView::Text(policy::shown(c, run.stdout@))),
            ("stderr"@, JsonView::Text(policy::shown(c, run.stderr@))),
            ("stdout_bytes"@, json::natural(run.stdout_bytes as nat)),
            ("stderr_bytes"@, json::natural(run.stderr_bytes as nat)),
            ("parsed_failure"@, failure_shown(c, i, parts, run)),
            ("policy"@, policy::policy(c, Some(i), i.kind, policy::injected_names(c, Some(i)))),
            (
                "audit"@,
                JsonView::Object(
                    seq![
                        ("event"@, JsonView::Text("verifier_command_completed"@)),
                        ("tool"@, JsonView::Text("run_tests"@)),
                        ("decision"@, JsonView::Text(decision(run))),
                        ("command"@, JsonView::Text(policy::shown(c, line))),
                        ("command_kind"@, JsonView::Text(invocation::kind_name(i.kind))),
                        ("exit_code"@, json::opt_integer(run.exit_code)),
                        ("rejection_reason"@, JsonView::Null),
                        ("ci"@, JsonView::Bool(c.mode.ci)),
                        ("noninteractive"@, JsonView::Bool(c.mode.noninteractive)),
                        ("isolation_mode"@, JsonView::Text(policy::isolation(c))),
                        ("workspace_isolated"@, JsonView::Bool(!policy::is_project_root(c))),
                    ],
                ),
            ),
        ],
    )
}

/// What is given back for a command that ran.
pub fn run_tests_output(
    c: &ToolContext,
    command_line: &str,
    parts: &[String],
    inv: VerifierInvocation,
    run: &CommandRun,
) -> (r: Json)
    ensures
        r@ == run_output(c@, command_line@, chars::texts(parts@), inv@, *run),
{
    let kind = inv.command_kind;
    let ghost iv = inv@;
    let report = if run.success {
        Json::Null
    } else {
        report_to_json(
            &parse_verifier_failure(&kind, parts, run.stdout.as_str(), run.stderr.as_str()),
        )
    };
    let failure = redact_sensitive_value(&report, c.secrets.as_slice());
    let some = Some(inv);
    let keys = injected_keys(c, &some);
    let entry = VerifierAuditEntry {
        event: own("verifier_command_completed"),
        tool: own("run_tests"),
        command: own(command_line),
        command_kind: kind,
        decision: own(
            if run.success {
                "passed"
            } else {
                "failed"
            },
        ),
        exit_code: run.exit_code,
        rejection_reason: None,
    };
    let fields = vec![
        field("command", Json::Text(redact_sensitive_text(command_line, c.secrets.as_slice()))),
        field("command_parts", text_list(redact_all(c, parts).as_slice())),
        field("kind", text(name_of_kind(kind))),
        field("success", Json::Bool(run.success)),
        field("exit_code", integer_or_null(run.exit_code)),
        field("stdout", Json::Text(redact_sensitive_text(run.stdout.as_str(), c.secrets.as_slice()))),
        field("stderr", Json::Text(redact_sensitive_text(run.stderr.as_str(), c.secrets.as_slice()))),
        field("stdout_bytes", count(run.stdout_bytes)),
        field("stderr_bytes", count(run.stderr_bytes)),
        field("parsed_failure", failure),
        field("policy", verifier_policy_json(c, &some, kind, keys.as_slice())),
        field("audit", verifier_audit_json(c, &entry)),
    ];
    proof {
        let want = run_output(c@, command_line@, chars::texts(parts@), iv, *run);
        assert(policy::audit(c@, entry)->Object_0 =~= want->Object_0[11].1->Object_0);
        assert(json::fields_view(fields@) =~= want->Object_0);
    }
    object(fields)
}

/// What came of a tool call.
#[derive(Debug)]
pub struct RepoToolResult {
    pub tool_call_id: Option<String>,
    pub name: String,
    pub success: bool,
    pub output: Json,
}

/// The result of a tool call: what it gave back, or why it failed, without secrets.
pub fn tool_result(
    c: &ToolContext,
    tool_call_id: Option<String>,
    name: &str,
    args: &ToolArgs,
    outcome: Result<Json, String>,
) -> (r: RepoToolResult)
    ensures
        r.tool_call_id == tool_call_id,
        r.name@ == name@,
        r.success == (outcome is Ok),
        match outcome {
            Ok(output) => r.output@ == secrets::masked_json(
                Masking::Words,
                output@,
                c@.secrets,
            ),
            Err(error) => r.output@ == secrets::masked_json(
                Masking::Words,
                policy::error_output(c@, name@, args@, error@),
                c@.secrets,
            ),
        },
{
    match outcome {
        Ok(output) => RepoToolResult {
            tool_call_id,
            name: own(name),
            success: true,
            output: redact_sensitive_value(&output, c.secrets.as_slice()),
        },
        Err(error) => {
            let output = build_tool_error_output(c, name, args, error.as_str());
            RepoToolResult {
                tool_call_id,
                name: own(name),
                success: false,
                output: redact_sensitive_value(&output, c.secrets.as_slice()),
            }
        },
    }
}

/// What is given back for a call whose arguments are no JSON.
pub open spec fn invalid_arguments(error: Seq<char>) -> JsonView {
    JsonView::Object(
        seq![
            (
                "error"@,
                JsonView::Text("invalid tool arguments: JSON parse error: "@ + error),
            ),
        ],
    )
}

/// What a call of a model asks for with its arguments, or its result if the arguments are no
/// JSON.
pub fn open_tool_call(c: &ToolContext, call: &ToolCall) -> (r: Result<
    (ToolArgs, Result<ToolRequest, String>),
    RepoToolResult,
>)
    ensures
        match r {
            Ok(p) => {
                &&& json::json_refusal(call.function.arguments@) is None
                &&& p.0@ == types::args_of(call.function.arguments@)
                &&& request_view(p.1) == request(c@, call.function.name@, p.0@)
            },
            Err(x) => {
                &&& json::json_refusal(call.function.arguments@) is Some
                &&& chars::opt_text(x.tool_call_id) == Some(call.id@)
                &&& x.name@ == call.function.name@
                &&& !x.success
                &&& x.output@ == secrets::masked_json(
                    Masking::Words,
                    invalid_arguments(json::json_refusal(call.function.arguments@).unwrap()),
                    c@.secrets,
                )
            },
        },
{
    match call.function.parse_arguments() {
        Ok(args) => {
            let plan = plan_tool_call(c, call.function.name.as_str(), &args);
            Ok((args, plan))
        },
        Err(e) => {
            let message = concat2("invalid tool arguments: ", e.to_string().as_str());
            let fields = vec![field("error", text(message.as_str()))];
            proof {
                let m = json::json_refusal(call.function.arguments@).unwrap();
                assert(message@ =~= "invalid tool arguments: JSON parse error: "@ + m) by {
                    reveal_strlit("invalid tool arguments: ");
                    reveal_strlit("JSON parse error: ");
                    reveal_strlit("invalid tool arguments: JSON parse error: ");
                    assert("invalid tool arguments: "@ + "JSON parse error: "@
                        =~= "invalid tool arguments: JSON parse error: "@);
                }
                assert(json::fields_view(fields@) =~= invalid_arguments(m)->Object_0);
            }
            let output = object(fields);
            Err(
                RepoToolResult {
                    tool_call_id: Some(own(call.id.as_str())),
                    name: own(call.function.name.as_str()),
                    success: false,
                    output: redact_sensitive_value(&output, c.secrets.as_slice()),
                },
            )
        },
    }
}

/// A command runs only if it may: it holds no shell composition and runs a known verifier.
pub proof fn law_tools_run_only_allowed_commands(c: ContextView, args: ArgsView)
    ensures
        request(c, "run_tests"@, args) matches Ok(r) ==> (r matches RequestView::RunTests {
            command,
            parts,
            invocation: i,
        } && invocation::allowed_words(command) == Ok::<Seq<Seq<char>>, Seq<char>>(parts)
            && invocation::invocation(parts) == Ok::<InvocationView, Seq<char>>(i)),
{
    reveal_strlit("run_tests");
    reveal_strlit("read_file");
    reveal_strlit("search_symbol");
    assert("run_tests"@[1] != "read_file"@[1]);
    assert("run_tests"@.len() != "search_symbol"@.len());
}

/// A file is read or written only inside the workspace.
pub proof fn law_tools_stay_in_workspace(c: ContextView, name: Seq<char>, args: ArgsView)
    ensures
        request(c, name, args) matches Ok(RequestView::ReadFile { at, .. }) ==> exists|
            p: Seq<char>,
        | #[trigger] in_workspace(c, p) == Ok::<Seq<char>, Seq<char>>(at),
        request(c, name, args) matches Ok(RequestView::ApplyPatch { at, .. }) ==> exists|
            p: Seq<char>,
        | #[trigger] in_workspace(c, p) == Ok::<Seq<char>, Seq<char>>(at),
{
    let p = args.path;
    if p is Some {
        assert(in_workspace(c, p->0) == in_workspace(c, p->0));
    }
}

} // verus!
