//! Paths inside a workspace.
use crate::text::chars;
use crate::text::chars::{concat2, concat3, from_range, own, same, to_chars};
use crate::text::find;
use crate::text::find::{ends_with, index_chars, starts_with, starts_with_char};
use crate::text::number;
use crate::text::number::parse_usize;
use crate::text::split;
use crate::text::split::{join, rsplit_once, split_once};
use vstd::prelude::*;
use vstd::string::*;

verus! {

broadcast use chars::lemma_texts_push, chars::lemma_texts_empty;

/// Where the part of a path that begins at `i` ends.
pub open spec fn part_end(s: Seq<char>, i: int) -> int {
    match find::index_from(s, '/', i) {
        Some(e) => e,
        None => s.len() as int,
    }
}

/// The parts of a path from position `i` on, as where each begins and ends. Empty parts and
/// single dots are left out.
pub open spec fn spans_from(s: Seq<char>, i: int) -> Seq<(int, int)>
    decreases s.len() - i,
{
    if i < 0 || i >= s.len() {
        Seq::empty()
    } else if s[i] == '/' {
        spans_from(s, i + 1)
    } else {
        let e = part_end(s, i);
        if i < e <= s.len() {
            if s.subrange(i, e) == "."@ {
                spans_from(s, e)
            } else {
                seq![(i, e)] + spans_from(s, e)
            }
        } else {
            Seq::empty()
        }
    }
}

/// The parts of a path.
pub open spec fn parts_of(s: Seq<char>) -> Seq<Seq<char>> {
    let spans = spans_from(s, 0);
    Seq::new(spans.len(), |k: int| s.subrange(spans[k].0, spans[k].1))
}

/// What a list of spans stands for.
pub open spec fn span_view(v: Seq<(usize, usize)>) -> Seq<(int, int)> {
    Seq::new(v.len(), |i: int| (v[i].0 as int, v[i].1 as int))
}

/// Whether the spans lie within a text of the given length.
pub open spec fn within(v: Seq<(int, int)>, n: nat) -> bool {
    forall|i: int| 0 <= i < v.len() ==> 0 <= (#[trigger] v[i]).0 <= v[i].1 <= n
}

fn spans(x: &[char]) -> (r: Vec<(usize, usize)>)
    ensures
        span_view(r@) == spans_from(x@, 0),
        within(span_view(r@), x@.len()),
{
    let n: usize = x.len();
    let mut out: Vec<(usize, usize)> = Vec::new();
    let mut i: usize = 0;
    let dot = to_chars(".");
    proof {
        assert(span_view(out@) + spans_from(x@, 0) =~= spans_from(x@, 0));
    }
    while i < n
        invariant
            n == x@.len(),
            i <= n,
            dot@ == "."@,
            span_view(out@) + spans_from(x@, i as int) == spans_from(x@, 0),
            within(span_view(out@), x@.len()),
        decreases n - i,
    {
        if x[i] == '/' {
            i = i + 1;
        } else {
            proof {
                find::lemma_index_from(x@, '/', i as int);
            }
            let e: usize = match index_chars(x, '/', i) {
                Some(e) => e,
                None => n,
            };
            proof {
                assert(e > i);
            }
            let word = from_range(x, i, e);
            if !same(word.as_str(), ".") {
                let ghost before = out@;
                out.push((i, e));
                proof {
                    assert(span_view(out@) =~= span_view(before).push((i as int, e as int)));
                    assert(span_view(before) + (seq![(i as int, e as int)] + spans_from(
                        x@,
                        e as int,
                    )) =~= span_view(out@) + spans_from(x@, e as int));
                }
            }
            i = e;
        }
    }
    proof {
        assert(span_view(out@) + Seq::<(int, int)>::empty() =~= span_view(out@));
    }
    out
}

/// Takes a path apart.
pub fn path_parts(path: &str) -> (r: Vec<String>)
    ensures
        chars::texts(r@) == parts_of(path@),
{
    let x = to_chars(path);
    let s = spans(x.as_slice());
    let mut out: Vec<String> = Vec::new();
    let mut i: usize = 0;
    while i < s.len()
        invariant
            x@ == path@,
            span_view(s@) == spans_from(x@, 0),
            within(span_view(s@), x@.len()),
            i <= s@.len(),
            out@.len() == i,
            forall|j: int| 0 <= j < i ==> (#[trigger] out@[j])@ == parts_of(path@)[j],
        decreases s@.len() - i,
    {
        proof {
            assert(span_view(s@)[i as int] == (s@[i as int].0 as int, s@[i as int].1 as int));
        }
        out.push(from_range(x.as_slice(), s[i].0, s[i].1));
        i = i + 1;
    }
    proof {
        assert(span_view(s@).len() == s@.len());
        assert(chars::texts(out@) =~= parts_of(path@));
    }
    out
}

/// Whether a path begins at the root.
pub open spec fn is_absolute(path: Seq<char>) -> bool {
    find::begins(path, '/')
}

/// The parts that remain when each `..` takes away the part before it; `None` if there is
/// none to take away.
pub open spec fn walked(start: Seq<Seq<char>>, parts: Seq<Seq<char>>) -> Option<Seq<Seq<char>>>
    decreases parts.len(),
{
    if parts.len() == 0 {
        Some(start)
    } else {
        match walked(start, parts.drop_last()) {
            None => None,
            Some(at) => if parts.last() != ".."@ {
                Some(at.push(parts.last()))
            } else if at.len() == 0 {
                None
            } else {
                Some(at.drop_last())
            },
        }
    }
}

/// The parts of a path from the root on; a relative path begins in `cwd`.
pub open spec fn normal_parts(path: Seq<char>, cwd: Seq<char>) -> Option<Seq<Seq<char>>> {
    walked(
        if is_absolute(path) {
            Seq::empty()
        } else {
            parts_of(cwd)
        },
        parts_of(path),
    )
}

/// What a result with parts stands for.
pub open spec fn parts_view(r: Result<Vec<String>, String>) -> Result<Seq<Seq<char>>, Seq<char>> {
    match r {
        Ok(v) => Ok(chars::texts(v@)),
        Err(e) => Err(e@),
    }
}

/// The parts of a path from the root on, or why there are none.
pub open spec fn normal_form(path: Seq<char>, cwd: Seq<char>) -> Result<Seq<Seq<char>>, Seq<char>> {
    match normal_parts(path, cwd) {
        Some(p) => Ok(p),
        None => Err("failed to normalize path: "@ + path),
    }
}

/// The parts of a path from the root on.
pub fn normalize_path(path: &str, cwd: &str) -> (r: Result<Vec<String>, String>)
    ensures
        parts_view(r) == normal_form(path@, cwd@),
{
    let parts = path_parts(path);
    let mut at: Vec<String> = if starts_with_char(path, '/') {
        Vec::new()
    } else {
        path_parts(cwd)
    };
    let ghost start = chars::texts(at@);
    let ghost all = chars::texts(parts@);
    let mut i: usize = 0;
    proof {
        assert(all.take(0) =~= Seq::<Seq<char>>::empty());
    }
    while i < parts.len()
        invariant
            all == chars::texts(parts@),
            all == parts_of(path@),
            start == (if is_absolute(path@) {
                Seq::<Seq<char>>::empty()
            } else {
                parts_of(cwd@)
            }),
            i <= parts@.len(),
            walked(start, all.take(i as int)) == Some(chars::texts(at@)),
        decreases parts@.len() - i,
    {
        proof {
            assert(all.take(i + 1).drop_last() =~= all.take(i as int));
            assert(all.take(i + 1).last() == parts@[i as int]@);
        }
        if same(parts[i].as_str(), "..") {
            let ghost before = at@;
            proof {
                assert(chars::texts(before).len() == before.len());
            }
            match at.pop() {
                Some(_) => {
                    proof {
                        assert(chars::texts(at@) =~= chars::texts(before).drop_last());
                    }
                },
                None => {
                    proof {
                        lemma_walk_fails(start, all, i + 1);
                    }
                    return Err(concat2("failed to normalize path: ", path));
                },
            }
        } else {
            at.push(own(parts[i].as_str()));
        }
        i = i + 1;
    }
    proof {
        assert(all.take(all.len() as int) =~= all);
    }
    Ok(at)
}

proof fn lemma_walk_fails(start: Seq<Seq<char>>, parts: Seq<Seq<char>>, n: int)
    requires
        0 <= n <= parts.len(),
        walked(start, parts.take(n)) is None,
    ensures
        walked(start, parts) is None,
    decreases parts.len() - n,
{
    if n < parts.len() {
        assert(parts.take(n + 1).drop_last() =~= parts.take(n));
        lemma_walk_fails(start, parts, n + 1);
    } else {
        assert(parts.take(n) =~= parts);
    }
}

/// A path continued by another; an absolute path stands for itself.
pub open spec fn continued(root: Seq<char>, relative: Seq<char>) -> Seq<char> {
    if is_absolute(relative) {
        relative
    } else if root.len() == 0 || find::has_suffix(root, "/"@) {
        root + relative
    } else {
        root + "/"@ + relative
    }
}

/// Continues a path by another.
pub fn join_path(root: &str, relative: &str) -> (r: String)
    ensures
        r@ == continued(root@, relative@),
{
    if starts_with_char(relative, '/') {
        own(relative)
    } else if root.is_empty() || ends_with(root, "/") {
        concat2(root, relative)
    } else {
        concat3(root, "/", relative)
    }
}

/// Whether a path leads into another, part by part.
pub open spec fn leads_into(path: Seq<Seq<char>>, root: Seq<Seq<char>>) -> bool {
    root.len() <= path.len() && path.take(root.len() as int) == root
}

fn has_parts(path: &[String], root: &[String]) -> (r: bool)
    ensures
        r == leads_into(chars::texts(path@), chars::texts(root@)),
{
    let ghost a = chars::texts(path@);
    let ghost b = chars::texts(root@);
    if root.len() > path.len() {
        return false;
    }
    let mut i: usize = 0;
    while i < root.len()
        invariant
            a == chars::texts(path@),
            b == chars::texts(root@),
            i <= root@.len() <= path@.len(),
            forall|j: int| 0 <= j < i ==> #[trigger] a[j] == b[j],
        decreases root@.len() - i,
    {
        proof {
            assert(a[i as int] == path@[i as int]@);
            assert(b[i as int] == root@[i as int]@);
        }
        if !same(path[i].as_str(), root[i].as_str()) {
            proof {
                assert(a.take(b.len() as int)[i as int] != b[i as int]);
            }
            return false;
        }
        i = i + 1;
    }
    proof {
        assert(a.take(b.len() as int) =~= b);
    }
    true
}

/// The text of a path from the root on.
pub open spec fn rooted(parts: Seq<Seq<char>>) -> Seq<char> {
    "/"@ + split::joined(parts, "/"@)
}

/// The path that a relative path means inside a root, or why it means none.
pub open spec fn resolved(root: Seq<char>, relative: Seq<char>, cwd: Seq<char>) -> Result<
    Seq<char>,
    Seq<char>,
> {
    match normal_form(continued(root, relative), cwd) {
        Err(e) => Err(e),
        Ok(path) => match normal_form(root, cwd) {
            Err(e) => Err(e),
            Ok(base) => if leads_into(path, base) {
                Ok(rooted(path))
            } else {
                Err("path escapes workspace: "@ + relative)
            },
        },
    }
}

/// What a result with a text stands for.
pub open spec fn text_view(r: Result<String, String>) -> Result<Seq<char>, Seq<char>> {
    match r {
        Ok(v) => Ok(v@),
        Err(e) => Err(e@),
    }
}

/// The path that a relative path means inside a root.
pub fn resolve_relative_path(root: &str, relative: &str, cwd: &str) -> (r: Result<String, String>)
    ensures
        text_view(r) == resolved(root@, relative@, cwd@),
{
    let candidate = join_path(root, relative);
    let path = match normalize_path(candidate.as_str(), cwd) {
        Ok(p) => p,
        Err(e) => {
            return Err(e);
        },
    };
    let base = match normalize_path(root, cwd) {
        Ok(p) => p,
        Err(e) => {
            return Err(e);
        },
    };
    if !has_parts(path.as_slice(), base.as_slice()) {
        return Err(concat2("path escapes workspace: ", relative));
    }
    Ok(concat2("/", join(path.as_slice(), "/").as_str()))
}

/// Whether a path begins with a single dot as its first part.
pub open spec fn begins_with_dot(path: Seq<char>) -> bool {
    path == "."@ || find::has_prefix(path, "./"@)
}

/// The parts of a path with the single dot that it begins with, if it does.
pub open spec fn steps_of(path: Seq<char>) -> Seq<Seq<char>> {
    if begins_with_dot(path) {
        seq!["."@] + parts_of(path)
    } else {
        parts_of(path)
    }
}

/// Where the steps of a path begin and end.
pub open spec fn step_spans(path: Seq<char>) -> Seq<(int, int)> {
    if begins_with_dot(path) {
        seq![(0int, 1int)] + spans_from(path, 0)
    } else {
        spans_from(path, 0)
    }
}

/// The rest of a path after its first `n` steps.
pub open spec fn after_steps(path: Seq<char>, n: nat) -> Seq<char> {
    let s = step_spans(path);
    if n < s.len() {
        path.subrange(s[n as int].0, s.last().1)
    } else {
        Seq::empty()
    }
}

/// A path without the root that it leads into; any other path stays as it is.
pub open spec fn below(root: Seq<char>, path: Seq<char>) -> Seq<char> {
    if is_absolute(root) == is_absolute(path) && leads_into(steps_of(path), steps_of(root)) {
        after_steps(path, steps_of(root).len())
    } else {
        path
    }
}

fn is_led_by_dot(path: &str) -> (r: bool)
    ensures
        r == begins_with_dot(path@),
{
    same(path, ".") || starts_with(path, "./")
}

/// Takes a path apart; a single dot that it begins with is kept.
fn path_steps(path: &str) -> (r: Vec<String>)
    ensures
        chars::texts(r@) == steps_of(path@),
{
    let mut parts = path_parts(path);
    if !is_led_by_dot(path) {
        return parts;
    }
    let ghost rest = parts@;
    let mut out: Vec<String> = Vec::new();
    out.push(own("."));
    out.append(&mut parts);
    proof {
        assert(chars::texts(out@) =~= seq!["."@] + chars::texts(rest));
    }
    out
}

proof fn lemma_spans_ascend(s: Seq<char>, i: int)
    requires
        0 <= i,
    ensures
        forall|j: int|
            0 <= j < spans_from(s, i).len() ==> i <= (#[trigger] spans_from(s, i)[j]).0
                <= spans_from(s, i)[j].1 <= s.len(),
        forall|j: int, k: int|
            0 <= j <= k < spans_from(s, i).len() ==> (#[trigger] spans_from(s, i)[j]).0
                <= (#[trigger] spans_from(s, i)[k]).1,
    decreases s.len() - i,
{
    if i < s.len() {
        if s[i] == '/' {
            lemma_spans_ascend(s, i + 1);
            assert(spans_from(s, i) == spans_from(s, i + 1));
        } else {
            let e = part_end(s, i);
            if i < e <= s.len() {
                lemma_spans_ascend(s, e);
                let rest = spans_from(s, e);
                if s.subrange(i, e) != "."@ {
                    let all = seq![(i, e)] + rest;
                    assert forall|j: int| 0 <= j < all.len() implies i <= (#[trigger] all[j]).0
                        <= all[j].1 <= s.len() by {
                        if j > 0 {
                            assert(all[j] == rest[j - 1]);
                        }
                    }
                    assert forall|j: int, k: int| 0 <= j <= k < all.len() implies (
                    #[trigger] all[j]).0 <= (#[trigger] all[k]).1 by {
                        if j > 0 {
                            assert(all[j] == rest[j - 1]);
                            assert(all[k] == rest[k - 1]);
                        } else if k > 0 {
                            assert(all[k] == rest[k - 1]);
                        }
                    }
                    assert(spans_from(s, i) == all);
                } else {
                    assert(spans_from(s, i) == rest);
                }
            }
        }
    }
}

fn all_step_spans(path: &str, x: &[char]) -> (r: Vec<(usize, usize)>)
    requires
        x@ == path@,
    ensures
        span_view(r@) == step_spans(path@),
        forall|j: int, k: int|
            0 <= j <= k < r@.len() ==> (#[trigger] r@[j]).0 <= (#[trigger] r@[k]).1 <= x@.len(),
{
    let mut s = spans(x);
    let ghost rest = s@;
    proof {
        lemma_spans_ascend(path@, 0);
        assert forall|j: int, k: int| 0 <= j <= k < rest.len() implies (#[trigger] rest[j]).0 <= (
        #[trigger] rest[k]).1 <= x@.len() by {
            assert(span_view(rest)[j] == (rest[j].0 as int, rest[j].1 as int));
            assert(span_view(rest)[k] == (rest[k].0 as int, rest[k].1 as int));
        }
    }
    if !is_led_by_dot(path) {
        return s;
    }
    let mut out: Vec<(usize, usize)> = Vec::new();
    out.push((0, 1));
    out.append(&mut s);
    proof {
        reveal_strlit(".");
        reveal_strlit("./");
        assert(span_view(out@) =~= seq![(0int, 1int)] + span_view(rest));
        assert forall|j: int, k: int| 0 <= j <= k < out@.len() implies (#[trigger] out@[j]).0 <= (
        #[trigger] out@[k]).1 <= x@.len() by {
            if j > 0 {
                assert(out@[j] == rest[j - 1]);
            }
            if k > 0 {
                assert(out@[k] == rest[k - 1]);
            }
        }
    }
    out
}

/// A path without the root that it leads into.
pub fn normalized_relative(root: &str, path: &str) -> (r: String)
    ensures
        r@ == below(root@, path@),
{
    let a = path_steps(path);
    let b = path_steps(root);
    if starts_with_char(root, '/') != starts_with_char(path, '/') || !has_parts(
        a.as_slice(),
        b.as_slice(),
    ) {
        return own(path);
    }
    let x = to_chars(path);
    let s = all_step_spans(path, x.as_slice());
    let n: usize = b.len();
    proof {
        assert(chars::texts(b@).len() == b@.len());
        assert(span_view(s@).len() == s@.len());
    }
    if n < s.len() {
        let last: usize = s.len() - 1;
        proof {
            assert(span_view(s@)[n as int] == (s@[n as int].0 as int, s@[n as int].1 as int));
            assert(span_view(s@)[last as int] == (
                s@[last as int].0 as int,
                s@[last as int].1 as int,
            ));
        }
        from_range(x.as_slice(), s[n].0, s[last].1)
    } else {
        let r = String::new();
        proof {
            assert(r@ =~= Seq::<char>::empty());
        }
        r
    }
}

/// The extension of the last part of a path.
pub open spec fn extension_of(path: Seq<char>) -> Option<Seq<char>> {
    let parts = parts_of(path);
    if parts.len() == 0 || parts.last() == ".."@ {
        None
    } else {
        match split::cut_at_last(parts.last(), '.') {
            Some(p) if p.0.len() > 0 => Some(p.1),
            _ => None,
        }
    }
}

/// The extension of the last part of a path.
pub fn path_extension(path: &str) -> (r: Option<String>)
    ensures
        chars::opt_text(r) == extension_of(path@),
{
    let parts = path_parts(path);
    let ghost all = chars::texts(parts@);
    proof {
        assert(all.len() == parts@.len());
    }
    if parts.len() == 0 {
        return None;
    }
    let name = parts[parts.len() - 1].as_str();
    proof {
        assert(all.last() == name@);
    }
    if same(name, "..") {
        return None;
    }
    match rsplit_once(name, '.') {
        Some(p) => {
            if p.0.as_str().is_empty() {
                None
            } else {
                Some(p.1)
            }
        },
        None => None,
    }
}

/// A line that a search found.
#[derive(Debug, Clone, PartialEq, Eq)]
pub struct SearchMatch {
    pub path: String,
    pub line: usize,
    pub column: Option<usize>,
    pub text: String,
}

/// What a [`SearchMatch`] stands for.
#[verifier::ext_equal]
pub struct MatchView {
    pub path: Seq<char>,
    pub line: nat,
    pub column: Option<nat>,
    pub text: Seq<char>,
}

impl View for SearchMatch {
    type V = MatchView;

    open spec fn view(&self) -> MatchView {
        MatchView {
            path: self.path@,
            line: self.line as nat,
            column: match self.column {
                Some(c) => Some(c as nat),
                None => None,
            },
            text: self.text@,
        }
    }
}

/// The part before the first colon, and the part after it if there is a colon.
pub open spec fn colon_cut(s: Seq<char>) -> (Seq<char>, Option<Seq<char>>) {
    match split::cut_at(s, ':') {
        Some(p) => (p.0, Some(p.1)),
        None => (s, None),
    }
}

/// The match that a line of search output tells of: a path, a line number, perhaps a column,
/// and the text, with colons between them.
pub open spec fn match_of(line: Seq<char>, root: Seq<char>, max: nat) -> Option<MatchView> {
    match split::cut_at(line, ':') {
        None => None,
        Some(a) => match split::cut_at(a.1, ':') {
            None => None,
            Some(b) => match number::parsed_number(b.0, max) {
                None => None,
                Some(n) => {
                    let c = colon_cut(b.1);
                    let rest = match c.1 {
                        Some(t) => t,
                        None => Seq::empty(),
                    };
                    Some(
                        match number::parsed_number(c.0, max) {
                            Some(col) => MatchView {
                                path: below(root, a.0),
                                line: n,
                                column: Some(col),
                                text: rest,
                            },
                            None => MatchView {
                                path: below(root, a.0),
                                line: n,
                                column: None,
                                text: c.0 + ":"@ + rest,
                            },
                        },
                    )
                },
            },
        },
    }
}

/// What an optional match stands for.
pub open spec fn match_view(m: Option<SearchMatch>) -> Option<MatchView> {
    match m {
        Some(x) => Some(x@),
        None => None,
    }
}

/// Reads a line of search output.
pub fn parse_ripgrep_match(line: &str, workspace_root: &str) -> (r: Option<SearchMatch>)
    ensures
        match_view(r) == match_of(line@, workspace_root@, usize::MAX as nat),
{
    let a = match split_once(line, ':') {
        Some(p) => p,
        None => {
            return None;
        },
    };
    let b = match split_once(a.1.as_str(), ':') {
        Some(p) => p,
        None => {
            return None;
        },
    };
    let n = match parse_usize(b.0.as_str()) {
        Some(n) => n,
        None => {
            return None;
        },
    };
    let (head, rest) = match split_once(b.1.as_str(), ':') {
        Some(p) => p,
        None => (own(b.1.as_str()), String::new()),
    };
    let path = normalized_relative(workspace_root, a.0.as_str());
    proof {
        assert(colon_cut(b.1@).1 is None ==> rest@ =~= Seq::<char>::empty());
    }
    let r = match parse_usize(head.as_str()) {
        Some(col) => SearchMatch { path, line: n, column: Some(col), text: rest },
        None => SearchMatch {
            path,
            line: n,
            column: None,
            text: concat3(head.as_str(), ":", rest.as_str()),
        },
    };
    Some(r)
}

/// Whether a path is the given one or lies below it.
pub open spec fn at_or_below(path: Seq<char>, dir: Seq<char>) -> bool {
    path == dir || find::has_prefix(path, dir + "/"@)
}

/// Whether a path is left out when a project is copied.
pub open spec fn skips_copy(path: Seq<char>) -> bool {
    at_or_below(path, ".git"@) || at_or_below(path, "target"@) || at_or_below(
        path,
        ".mercury/worktrees"@,
    ) || at_or_below(path, ".mercury/runs"@)
}

fn is_at_or_below(path: &str, dir: &str) -> (r: bool)
    ensures
        r == at_or_below(path@, dir@),
{
    same(path, dir) || starts_with(path, concat2(dir, "/").as_str())
}

/// Whether a path is left out when a project is copied.
pub fn should_skip_copy(relative: &str) -> (r: bool)
    ensures
        r == skips_copy(relative@),
{
    is_at_or_below(relative, ".git") || is_at_or_below(relative, "target") || is_at_or_below(
        relative,
        ".mercury/worktrees",
    ) || is_at_or_below(relative, ".mercury/runs")
}

/// A path that is resolved leads into its root.
pub proof fn law_resolved_paths_stay_in_root(
    root: Seq<char>,
    relative: Seq<char>,
    cwd: Seq<char>,
)
    requires
        resolved(root, relative, cwd) is Ok,
    ensures
        normal_parts(root, cwd) is Some,
        exists|parts: Seq<Seq<char>>|
            #[trigger] leads_into(parts, normal_parts(root, cwd)->0) && resolved(
                root,
                relative,
                cwd,
            ) == Ok::<Seq<char>, Seq<char>>(rooted(parts)),
{
    let parts = normal_parts(continued(root, relative), cwd)->0;
    assert(leads_into(parts, normal_parts(root, cwd)->0));
}

} // verus!
