//! Edits of single files.
use crate::api::types::ReasoningEffort;
use crate::repo::path;
use crate::repo::path::{PathEntry, RepoRelativePath};
use crate::text::chars;
use crate::text::chars::{concat2, concat3, own, same, to_lowercase_ascii};
use crate::text::number;
use crate::text::number::{format_usize, parse_u32};
use crate::text::pad;
use crate::text::pad::pad_left;
use crate::text::split;
use crate::text::split::{join, lines, rsplit_once};
use vstd::prelude::*;
use vstd::string::*;

verus! {

broadcast use chars::lemma_texts_push, chars::lemma_texts_empty;

/// The effort that a word stands for.
pub open spec fn named_effort(s: Seq<char>) -> Option<ReasoningEffort> {
    let w = chars::lowercase(s);
    if w == "instant"@ {
        Some(ReasoningEffort::Instant)
    } else if w == "low"@ {
        Some(ReasoningEffort::Low)
    } else if w == "medium"@ || w == "med"@ {
        Some(ReasoningEffort::Medium)
    } else if w == "high"@ {
        Some(ReasoningEffort::High)
    } else {
        None
    }
}

/// The effort that a word stands for.
pub fn parse_reasoning_effort(s: &str) -> (r: Option<ReasoningEffort>)
    ensures
        r == named_effort(s@),
{
    let lower = to_lowercase_ascii(s);
    let w = lower.as_str();
    if same(w, "instant") {
        Some(ReasoningEffort::Instant)
    } else if same(w, "low") {
        Some(ReasoningEffort::Low)
    } else if same(w, "medium") || same(w, "med") {
        Some(ReasoningEffort::Medium)
    } else if same(w, "high") {
        Some(ReasoningEffort::High)
    } else {
        None
    }
}

/// The file and the line that a text names: the line follows the last colon, and is the first
/// if none is named.
pub open spec fn file_and_line(input: Seq<char>) -> (Seq<char>, nat) {
    match split::cut_at_last(input, ':') {
        Some(p) => match number::parsed_number(p.1, u32::MAX as nat) {
            Some(n) => (p.0, n),
            None => (input, 1),
        },
        None => (input, 1),
    }
}

/// The file and the line that a text names: the line follows the last colon, and is the first
/// if none is named.
pub fn split_file_line(input: &str) -> (r: (String, u32))
    ensures
        (r.0@, r.1 as nat) == file_and_line(input@),
{
    match rsplit_once(input, ':') {
        Some(p) => match parse_u32(p.1.as_str()) {
            Some(n) => (p.0, n),
            None => (own(input), 1),
        },
        None => (own(input), 1),
    }
}

/// The reason why a path is refused, if it is.
pub open spec fn path_refusal(
    input: Seq<char>,
    root: Seq<char>,
    entries: Seq<path::EntryView>,
) -> Option<Seq<char>> {
    match path::refusal(input) {
        Some(reason) => Some(
            "invalid file path `"@ + input + "`: invalid repo-relative path `"@ + input + "`: "@
                + reason,
        ),
        None => match path::resolved(root, path::normal_form(input), entries) {
            Ok(_) => None,
            Err(reason) => Some(
                "file path `"@ + input
                    + "` must stay within the repository root: invalid repo-relative path `"@
                    + path::normal_form(input) + "`: "@ + reason,
            ),
        },
    }
}

/// Whether enough is known of what stands on the way of a path.
pub open spec fn is_probed(input: Seq<char>, entries: Seq<PathEntry>) -> bool {
    path::refusal(input) is None ==> entries.len() >= split::pieces(
        path::normal_form(input),
        '/',
    ).len()
}

/// Accepts a path of the command line if it stays in the project, given what stands on its way.
pub fn parse_cli_repo_relative_path(input: &str, root: &str, entries: &[PathEntry]) -> (r: Result<
    RepoRelativePath,
    String,
>)
    requires
        is_probed(input@, entries@),
    ensures
        match r {
            Ok(p) => path_refusal(input@, root@, path::entries_view(entries@)) is None && p@
                == path::normal_form(input@),
            Err(e) => path_refusal(input@, root@, path::entries_view(entries@)) == Some(e@),
        },
{
    let relative = match RepoRelativePath::new(input) {
        Ok(p) => p,
        Err(e) => {
            let mut s = concat3("invalid file path `", input, "`: ");
            s.append(e.to_string().as_str());
            proof {
                let reason = path::refusal(input@).unwrap();
                assert(s@ =~= "invalid file path `"@ + input@
                    + "`: invalid repo-relative path `"@ + input@ + "`: "@ + reason) by {
                    reveal_strlit("`: ");
                    reveal_strlit("invalid repo-relative path `");
                    reveal_strlit("`: invalid repo-relative path `");
                    assert("`: "@ + "invalid repo-relative path `"@
                        =~= "`: invalid repo-relative path `"@);
                }
            }
            return Err(s);
        },
    };
    match relative.ensure_within_root(root, entries) {
        Ok(_) => Ok(relative),
        Err(e) => {
            let mut s = concat3(
                "file path `",
                input,
                "` must stay within the repository root: ",
            );
            s.append(e.to_string().as_str());
            proof {
                let normal = path::normal_form(input@);
                let reason = path::resolved(root@, normal, path::entries_view(entries@))->Err_0;
                assert(s@ =~= "file path `"@ + input@
                    + "` must stay within the repository root: invalid repo-relative path `"@
                    + normal + "`: "@ + reason) by {
                    reveal_strlit("` must stay within the repository root: ");
                    reveal_strlit("invalid repo-relative path `");
                    reveal_strlit(
                        "` must stay within the repository root: invalid repo-relative path `",
                    );
                    assert("` must stay within the repository root: "@
                        + "invalid repo-relative path `"@
                        =~= "` must stay within the repository root: invalid repo-relative path `"@);
                }
            }
            Err(s)
        },
    }
}

/// Accepts a file and a line of the command line if the file stays in the project, given what
/// stands on its way.
pub fn parse_file_line(input: &str, root: &str, entries: &[PathEntry]) -> (r: Result<
    (RepoRelativePath, u32),
    String,
>)
    requires
        is_probed(file_and_line(input@).0, entries@),
    ensures
        match r {
            Ok(p) => {
                &&& path_refusal(
                    file_and_line(input@).0,
                    root@,
                    path::entries_view(entries@),
                ) is None
                &&& p.0@ == path::normal_form(file_and_line(input@).0)
                &&& p.1 == file_and_line(input@).1
            },
            Err(e) => path_refusal(
                file_and_line(input@).0,
                root@,
                path::entries_view(entries@),
            ) == Some(e@),
        },
{
    let (file, line) = split_file_line(input);
    match parse_cli_repo_relative_path(file.as_str(), root, entries) {
        Ok(p) => Ok((p, line)),
        Err(e) => Err(e),
    }
}

/// A line with its number; the highlighted one is marked.
pub open spec fn numbered(all: Seq<Seq<char>>, n: int, highlight: int) -> Seq<char> {
    (if n == highlight {
        ">"@
    } else {
        " "@
    }) + pad::padded_left(number::decimal(n as nat), 4) + " | "@ + all[n - 1]
}

/// The lines from one to another with their numbers.
pub open spec fn numbered_lines(
    all: Seq<Seq<char>>,
    start: int,
    end: int,
    highlight: int,
) -> Seq<Seq<char>> {
    Seq::new((end - start + 1) as nat, |i: int| numbered(all, start + i, highlight))
}

/// A window of a file with the numbers of its lines.
pub open spec fn numbered_window(
    label: Seq<char>,
    all: Seq<Seq<char>>,
    start: int,
    end: int,
    highlight: int,
) -> Seq<char> {
    label + ":"@ + number::decimal(start as nat) + "-"@ + number::decimal(end as nat) + "\n"@
        + split::joined(numbered_lines(all, start, end, highlight), "\n"@)
}

/// A window of a file with the numbers of its lines.
pub fn render_numbered_context_window(
    file_label: &str,
    all: &[String],
    start_line: usize,
    end_line: usize,
    highlight_line: usize,
) -> (r: String)
    requires
        1 <= start_line <= end_line <= all@.len(),
    ensures
        r@ == numbered_window(
            file_label@,
            chars::texts(all@),
            start_line as int,
            end_line as int,
            highlight_line as int,
        ),
{
    let ghost ls = chars::texts(all@);
    let ghost wanted = numbered_lines(
        ls,
        start_line as int,
        end_line as int,
        highlight_line as int,
    );
    let n: usize = all.len();
    let mut body: Vec<String> = Vec::new();
    let mut k: usize = start_line - 1;
    while k < end_line
        invariant
            1 <= start_line <= k + 1 <= end_line + 1,
            end_line <= n,
            n == all@.len(),
            ls == chars::texts(all@),
            wanted == numbered_lines(
                ls,
                start_line as int,
                end_line as int,
                highlight_line as int,
            ),
            body@.len() == k + 1 - start_line,
            forall|j: int| 0 <= j < body@.len() ==> (#[trigger] body@[j])@ == wanted[j],
        decreases end_line - k,
    {
        k = k + 1;
        let marker = if k == highlight_line {
            ">"
        } else {
            " "
        };
        let mut s = concat2(marker, pad_left(format_usize(k).as_str(), 4).as_str());
        s.append(" | ");
        s.append(all[k - 1].as_str());
        proof {
            assert(ls[k - 1] == all@[k - 1]@);
            assert(wanted[k - start_line] == numbered(ls, k as int, highlight_line as int));
        }
        body.push(s);
    }
    proof {
        assert(chars::texts(body@) =~= wanted);
    }
    let mut r = concat3(file_label, ":", format_usize(start_line).as_str());
    r.append("-");
    r.append(format_usize(end_line).as_str());
    r.append("\n");
    r.append(join(body.as_slice(), "\n").as_str());
    r
}

fn sublist(all: &[String], from: usize, to: usize) -> (r: Vec<String>)
    requires
        from <= to <= all@.len(),
    ensures
        chars::texts(r@) == chars::texts(all@).subrange(from as int, to as int),
{
    let mut out: Vec<String> = Vec::new();
    let mut k: usize = from;
    while k < to
        invariant
            from <= k <= to <= all@.len(),
            out@.len() == k - from,
            forall|j: int| 0 <= j < out@.len() ==> (#[trigger] out@[j])@ == all@[from + j]@,
        decreases to - k,
    {
        out.push(own(all[k].as_str()));
        k = k + 1;
    }
    proof {
        assert(chars::texts(out@) =~= chars::texts(all@).subrange(from as int, to as int));
    }
    out
}

/// The lines from one to another as one text.
pub fn join_line_window(all: &[String], start_line: usize, end_line: usize) -> (r: String)
    requires
        1 <= start_line <= end_line <= all@.len(),
    ensures
        r@ == split::joined(
            chars::texts(all@).subrange(start_line - 1, end_line as int),
            "\n"@,
        ),
{
    join(sublist(all, start_line - 1, end_line).as_slice(), "\n")
}

/// What the editor is shown of a file.
#[derive(Debug, Clone, PartialEq, Eq)]
pub struct NextEditCliContext {
    pub current_file_path: String,
    pub code_to_edit: String,
    pub cursor: String,
    pub recent_snippets: String,
}

/// What a [`NextEditCliContext`] stands for.
#[verifier::ext_equal]
pub struct ContextView {
    pub path: Seq<char>,
    pub code: Seq<char>,
    pub cursor: Seq<char>,
    pub snippets: Seq<char>,
}

impl View for NextEditCliContext {
    type V = ContextView;

    open spec fn view(&self) -> ContextView {
        ContextView {
            path: self.current_file_path@,
            code: self.code_to_edit@,
            cursor: self.cursor@,
            snippets: self.recent_snippets@,
        }
    }
}

/// The line of a file that is nearest to the wanted one.
pub open spec fn nearest_line(wanted: int, count: int) -> int {
    if wanted < 1 {
        1
    } else if wanted > count {
        count
    } else {
        wanted
    }
}

/// The first line of a window.
pub open spec fn window_start(line: int, reach: int) -> int {
    if line - reach < 1 {
        1
    } else {
        line - reach
    }
}

/// The last line of a window.
pub open spec fn window_end(line: int, reach: int, count: int) -> int {
    if line + reach > count {
        count
    } else {
        line + reach
    }
}

/// What the editor is shown of a file: the lines next to the wanted one to edit, and more of
/// them to read.
pub open spec fn edit_context(file: Seq<char>, content: Seq<char>, wanted: int) -> ContextView {
    let all = split::lines_of(content);
    let n = all.len() as int;
    if n == 0 {
        ContextView {
            path: file,
            code: Seq::empty(),
            cursor: "1:1"@,
            snippets: file + ":1-1\n>   1 | "@,
        }
    } else {
        let line = nearest_line(wanted, n);
        let start = window_start(line, 3);
        ContextView {
            path: file,
            code: split::joined(all.subrange(start - 1, window_end(line, 3, n)), "\n"@),
            cursor: number::decimal((line - start + 1) as nat) + ":1"@,
            snippets: numbered_window(
                file,
                all,
                window_start(line, 8),
                window_end(line, 8, n),
                line,
            ),
        }
    }
}

fn find_window(line: usize, reach: usize, count: usize) -> (r: (usize, usize))
    requires
        1 <= line <= count,
        reach <= 8,
    ensures
        r.0 == window_start(line as int, reach as int),
        r.1 == window_end(line as int, reach as int, count as int),
{
    let start: usize = if line <= reach {
        1
    } else {
        line - reach
    };
    let end: usize = if count - line < reach {
        count
    } else {
        line + reach
    };
    (start, end)
}

/// What the editor is shown of a file: the lines next to the wanted one to edit, and more of
/// them to read.
pub fn build_next_edit_cli_context(
    relative_path: &RepoRelativePath,
    content: &str,
    requested_line: u32,
) -> (r: NextEditCliContext)
    ensures
        r@ == edit_context(relative_path@, content@, requested_line as int),
{
    let relative = relative_path.as_str();
    let all = lines(content);
    let n: usize = all.len();
    proof {
        assert(split::lines_of(content@).len() == n);
    }
    if n == 0 {
        let code_to_edit = String::new();
        proof {
            assert(code_to_edit@ =~= Seq::<char>::empty());
        }
        return NextEditCliContext {
            current_file_path: own(relative),
            code_to_edit,
            cursor: own("1:1"),
            recent_snippets: concat2(relative, ":1-1\n>   1 | "),
        };
    }
    let wanted: u64 = requested_line as u64;
    let line: usize = if wanted < 1 {
        1
    } else if wanted > n as u64 {
        n
    } else {
        requested_line as usize
    };
    let (focus_start, focus_end) = find_window(line, 3, n);
    let (recent_start, recent_end) = find_window(line, 8, n);
    NextEditCliContext {
        current_file_path: own(relative),
        code_to_edit: join_line_window(all.as_slice(), focus_start, focus_end),
        cursor: concat2(format_usize(line - focus_start + 1).as_str(), ":1"),
        recent_snippets: render_numbered_context_window(
            relative,
            all.as_slice(),
            recent_start,
            recent_end,
            line,
        ),
    }
}

/// The text up to a line and the text behind it.
pub open spec fn cut_behind(content: Seq<char>, line: int) -> (Seq<char>, Seq<char>) {
    let all = split::lines_of(content);
    let k = if line > all.len() {
        all.len() as int
    } else {
        line
    };
    (
        split::joined(all.subrange(0, k), "\n"@),
        split::joined(all.subrange(k, all.len() as int), "\n"@),
    )
}

/// The text up to a line and the text behind it.
pub fn split_at_line(content: &str, line: u32) -> (r: (String, String))
    ensures
        (r.0@, r.1@) == cut_behind(content@, line as int),
{
    let all = lines(content);
    let n: usize = all.len();
    proof {
        assert(split::lines_of(content@).len() == n);
    }
    let k: usize = if line as u64 > n as u64 {
        n
    } else {
        line as usize
    };
    (
        join(sublist(all.as_slice(), 0, k).as_slice(), "\n"),
        join(sublist(all.as_slice(), k, n).as_slice(), "\n"),
    )
}

/// What happens to a file that was edited.
#[derive(Debug, Clone, Copy, PartialEq, Eq, Structural)]
pub enum EditFate {
    /// It is only shown.
    Show,
    /// It is written without verification.
    WriteUnverified,
    /// It is verified, and written if it passes.
    Verify,
}

/// What happens to a file that was edited.
pub fn edit_fate(dry_run: bool, force: bool) -> (r: EditFate)
    ensures
        r == (if dry_run {
            EditFate::Show
        } else if force {
            EditFate::WriteUnverified
        } else {
            EditFate::Verify
        }),
{
    if dry_run {
        EditFate::Show
    } else if force {
        EditFate::WriteUnverified
    } else {
        EditFate::Verify
    }
}

/// What a question is asked with.
pub open spec fn ask_system(constitution: Seq<char>) -> Seq<char> {
    "You are Mercury CLI's assistant. Answer questions about the codebase.\n\n"@ + constitution
}

/// How long the answer to a question can be, in tokens.
pub const ASK_MAX_TOKENS: u32 = 4096;

/// What a question is asked with.
pub fn ask_system_prompt(constitution: &str) -> (r: String)
    ensures
        r@ == ask_system(constitution@),
{
    concat2(
        "You are Mercury CLI's assistant. Answer questions about the codebase.\n\n",
        constitution,
    )
}

/// A question with what is known of the project.
pub open spec fn ask_user(query: Seq<char>, map: Seq<char>) -> Seq<char> {
    "Question: "@ + query + "\n\nRepository context:\n"@ + map
}

/// A question with what is known of the project.
pub fn ask_user_prompt(query: &str, repo_context: &str) -> (r: String)
    ensures
        r@ == ask_user(query@, repo_context@),
{
    let mut s = concat3("Question: ", query, "\n\nRepository context:\n");
    s.append(repo_context);
    s
}

/// The line that is edited lies in the window that is shown, and the cursor stands on it.
pub proof fn law_cursor_is_in_window(wanted: int, count: int)
    requires
        count >= 1,
    ensures
        ({
            let line = nearest_line(wanted, count);
            let start = window_start(line, 3);
            let end = window_end(line, 3, count);
            &&& 1 <= start <= line <= end <= count
            &&& end - start <= 6
            &&& window_start(line, 8) <= start
            &&& end <= window_end(line, 8, count)
        }),
{
}

/// Cutting a file at a line loses no line and moves none.
pub proof fn law_cut_keeps_all_lines(content: Seq<char>, line: int)
    requires
        0 <= line,
    ensures
        exists|k: int|
            0 <= k <= split::lines_of(content).len() && cut_behind(content, line) == (
                split::joined(#[trigger] split::lines_of(content).subrange(0, k), "\n"@),
                split::joined(
                    split::lines_of(content).subrange(k, split::lines_of(content).len() as int),
                    "\n"@,
                ),
            ) && split::lines_of(content).subrange(0, k) + split::lines_of(content).subrange(
                k,
                split::lines_of(content).len() as int,
            ) == split::lines_of(content),
{
    let all = split::lines_of(content);
    let k = if line > all.len() {
        all.len() as int
    } else {
        line
    };
    assert(all.subrange(0, k) + all.subrange(k, all.len() as int) =~= all);
}

} // verus!
