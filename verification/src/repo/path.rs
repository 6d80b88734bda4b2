//! Paths inside a repository.
use crate::repo::error::RepoError;
use crate::text::chars;
use crate::text::chars::{concat2, concat3, is_ascii_letter_char, own, same, to_chars};
use crate::text::find;
use crate::text::find::{contains_char, ends_with, starts_with, starts_with_char, trim};
use crate::text::split;
use crate::text::split::{join, split_char};
use vstd::prelude::*;
use vstd::string::*;

verus! {

broadcast use chars::lemma_texts_push, chars::lemma_texts_empty;

/// Whether a path begins like an absolute path of Windows: with a drive letter and a colon,
/// or with two backslashes.
pub open spec fn windows_absolute(p: Seq<char>) -> bool {
    (p.len() >= 2 && chars::is_ascii_letter(p[0]) && p[1] == ':') || (p.len() >= 2 && p[0] == '\\'
        && p[1] == '\\')
}

/// The path with `/` for every backslash.
pub open spec fn forward_slashes(p: Seq<char>) -> Seq<char> {
    Seq::new(
        p.len(),
        |i: int|
            if p[i] == '\\' {
                '/'
            } else {
                p[i]
            },
    )
}

/// The pieces that name something: neither empty nor a single dot.
pub open spec fn naming(parts: Seq<Seq<char>>) -> Seq<Seq<char>>
    decreases parts.len(),
{
    if parts.len() == 0 {
        Seq::<Seq<char>>::empty()
    } else {
        let before = naming(parts.drop_last());
        let last = parts.last();
        if last.len() == 0 || last == seq!['.'] {
            before
        } else {
            before.push(last)
        }
    }
}

/// The names between the slashes of a path.
pub open spec fn path_names(p: Seq<char>) -> Seq<Seq<char>> {
    naming(split::pieces(p, '/'))
}

/// Whether some name is `..`.
pub open spec fn climbs(names: Seq<Seq<char>>) -> bool {
    names.contains(seq!['.', '.'])
}

/// Why a path is refused; `None` if it is accepted.
pub open spec fn refusal(raw: Seq<char>) -> Option<Seq<char>> {
    let names = path_names(forward_slashes(raw));
    if find::trimmed(raw).len() == 0 {
        Some("path cannot be empty"@)
    } else if raw.contains('\0') {
        Some("path contains NUL byte"@)
    } else if windows_absolute(raw) {
        Some("absolute Windows paths are not allowed"@)
    } else if find::begins(forward_slashes(raw), '/') {
        Some("absolute paths are not allowed"@)
    } else if climbs(names) {
        Some("parent-directory traversal is not allowed"@)
    } else if names.len() == 0 {
        Some("path must point to a repository file"@)
    } else {
        None
    }
}

/// The form in which an accepted path is kept: its names with single slashes between them.
pub open spec fn normal_form(raw: Seq<char>) -> Seq<char> {
    split::joined(path_names(forward_slashes(raw)), seq!['/'])
}

/// Whether a path is in normal form: it has names, none of them is empty, `.` or `..`, and
/// it holds neither a backslash nor a NUL character.
pub open spec fn is_normal(p: Seq<char>) -> bool {
    let names = split::pieces(p, '/');
    &&& forall|i: int|
        0 <= i < names.len() ==> (#[trigger] names[i]).len() > 0 && names[i] != seq!['.']
            && names[i] != seq!['.', '.']
    &&& !p.contains('\\')
    &&& !p.contains('\0')
}

/// A path below the root of a repository.
#[derive(Debug, PartialEq, Eq, PartialOrd, Ord, Hash)]
pub struct RepoRelativePath {
    text: String,
}

impl View for RepoRelativePath {
    type V = Seq<char>;

    closed spec fn view(&self) -> Seq<char> {
        self.text@
    }
}

fn looks_like_windows_absolute_path(path: &str) -> (r: bool)
    ensures
        r == windows_absolute(path@),
{
    let x = to_chars(path);
    (x.len() >= 2 && is_ascii_letter_char(x[0]) && x[1] == ':') || (x.len() >= 2 && x[0] == '\\'
        && x[1] == '\\')
}

fn with_forward_slashes(path: &str) -> (r: String)
    ensures
        r@ == forward_slashes(path@),
{
    let x = to_chars(path);
    let mut out: String = String::new();
    let mut i: usize = 0;
    while i < x.len()
        invariant
            x@ == path@,
            i <= x@.len(),
            out@ == forward_slashes(path@).take(i as int),
        decreases x@.len() - i,
    {
        let c = if x[i] == '\\' {
            '/'
        } else {
            x[i]
        };
        proof {
            assert(forward_slashes(path@).take(i + 1) =~= forward_slashes(path@).take(
                i as int,
            ).push(c));
        }
        out.push(c);
        i = i + 1;
    }
    proof {
        assert(forward_slashes(path@).take(path@.len() as int) =~= forward_slashes(path@));
    }
    out
}

fn is_dot(s: &str) -> (r: bool)
    ensures
        r == (s@ == seq!['.']),
{
    let x = to_chars(s);
    let r = x.len() == 1 && x[0] == '.';
    proof {
        if r {
            assert(s@ =~= seq!['.']);
        }
    }
    r
}

fn is_dot_dot(s: &str) -> (r: bool)
    ensures
        r == (s@ == seq!['.', '.']),
{
    let x = to_chars(s);
    let r = x.len() == 2 && x[0] == '.' && x[1] == '.';
    proof {
        if r {
            assert(s@ =~= seq!['.', '.']);
        }
    }
    r
}

fn names_of(path: &str) -> (r: Vec<String>)
    ensures
        chars::texts(r@) == path_names(path@),
{
    let parts = split_char(path, '/');
    let ghost all = split::pieces(path@, '/');
    let mut out: Vec<String> = Vec::new();
    let mut i: usize = 0;
    proof {
        assert(all.take(0) =~= Seq::<Seq<char>>::empty());
    }
    while i < parts.len()
        invariant
            all == chars::texts(parts@),
            i <= parts@.len(),
            chars::texts(out@) == naming(all.take(i as int)),
        decreases parts@.len() - i,
    {
        proof {
            assert(all.take(i + 1).drop_last() =~= all.take(i as int));
            assert(all.take(i + 1).last() == parts@[i as int]@);
        }
        if !parts[i].as_str().is_empty() && !is_dot(parts[i].as_str()) {
            out.push(own(parts[i].as_str()));
        }
        i = i + 1;
    }
    proof {
        assert(all.take(all.len() as int) =~= all);
    }
    out
}

fn has_dot_dot(names: &[String]) -> (r: bool)
    ensures
        r == climbs(chars::texts(names@)),
{
    let ghost all = chars::texts(names@);
    let mut i: usize = 0;
    while i < names.len()
        invariant
            all == chars::texts(names@),
            i <= names@.len(),
            forall|j: int| 0 <= j < i ==> all[j] != seq!['.', '.'],
        decreases names@.len() - i,
    {
        if is_dot_dot(names[i].as_str()) {
            proof {
                assert(all[i as int] == seq!['.', '.']);
            }
            return true;
        }
        i = i + 1;
    }
    false
}

fn invalid_repo_relative_path(path: &str, reason: &str) -> (r: RepoError)
    ensures
        refused_with(r, path@, reason@),
{
    RepoError::InvalidRepoRelativePath { path: own(path), reason: own(reason) }
}

/// Whether an error refuses a path for the given reason.
pub open spec fn refused_with(e: RepoError, path: Seq<char>, reason: Seq<char>) -> bool {
    e matches RepoError::InvalidRepoRelativePath { path: p, reason: r } && p@ == path && r@
        == reason
}

proof fn lemma_naming(parts: Seq<Seq<char>>, k: int)
    requires
        0 <= k < naming(parts).len(),
    ensures
        parts.contains(naming(parts)[k]),
        naming(parts)[k].len() > 0,
        naming(parts)[k] != seq!['.'],
    decreases parts.len(),
{
    let before = naming(parts.drop_last());
    if k < before.len() {
        lemma_naming(parts.drop_last(), k);
        let j = choose|j: int| 0 <= j < parts.drop_last().len() && parts.drop_last()[j]
            == before[k];
        assert(parts[j] == before[k]);
    } else {
        assert(parts[parts.len() - 1] == parts.last());
    }
}

proof fn lemma_naming_all(parts: Seq<Seq<char>>)
    requires
        forall|i: int| 0 <= i < parts.len() ==> (#[trigger] parts[i]).len() > 0 && parts[i] != seq![
            '.',
        ],
    ensures
        naming(parts) == parts,
    decreases parts.len(),
{
    if parts.len() > 0 {
        let front = parts.drop_last();
        assert forall|i: int| 0 <= i < front.len() implies (#[trigger] front[i]).len() > 0
            && front[i] != seq!['.'] by {
            assert(front[i] == parts[i]);
        }
        lemma_naming_all(front);
        assert(parts[parts.len() - 1].len() > 0);
        assert(front.push(parts.last()) =~= parts);
    } else {
        assert(naming(parts) =~= parts);
    }
}

proof fn lemma_joined_holds(parts: Seq<Seq<char>>, sep: Seq<char>, c: char)
    requires
        joined_has(parts, sep, c),
    ensures
        sep.contains(c) || exists|i: int| 0 <= i < parts.len() && (#[trigger] parts[i]).contains(
            c,
        ),
    decreases parts.len(),
{
    if parts.len() == 0 {
    } else if parts.len() == 1 {
        assert(parts[0].contains(c));
    } else {
        let s = split::joined(parts, sep);
        let k = choose|k: int| 0 <= k < s.len() && s[k] == c;
        let front = split::joined(parts.drop_last(), sep);
        if k < front.len() {
            assert(front[k] == c);
            lemma_joined_holds(parts.drop_last(), sep, c);
            if !sep.contains(c) {
                let i = choose|i: int|
                    0 <= i < parts.drop_last().len() && (#[trigger] parts.drop_last()[i]).contains(
                        c,
                    );
                assert(parts[i].contains(c));
            }
        } else if k < front.len() + sep.len() {
            assert(sep[k - front.len()] == c);
        } else {
            assert(parts.last()[k - front.len() - sep.len()] == c);
            assert(parts[parts.len() - 1].contains(c));
        }
    }
}

spec fn joined_has(parts: Seq<Seq<char>>, sep: Seq<char>, c: char) -> bool {
    split::joined(parts, sep).contains(c)
}

proof fn lemma_piece_chars(s: Seq<char>, c: char, d: char, from: int, i: int)
    requires
        0 <= from <= s.len(),
        0 <= i < split::pieces_from(s, c, from).len(),
        split::pieces_from(s, c, from)[i].contains(d),
    ensures
        s.contains(d),
    decreases s.len() - from,
{
    find::lemma_index_from(s, c, from);
    match find::index_from(s, c, from) {
        Some(k) => {
            let head = s.subrange(from, k);
            let tail = split::pieces_from(s, c, k + 1);
            assert(split::pieces_from(s, c, from) == seq![head] + tail);
            if i == 0 {
                let j = choose|j: int| 0 <= j < head.len() && head[j] == d;
                assert(s[from + j] == d);
            } else {
                assert((seq![head] + tail)[i] == tail[i - 1]);
                lemma_piece_chars(s, c, d, k + 1, i - 1);
            }
        },
        None => {
            let head = s.subrange(from, s.len() as int);
            let j = choose|j: int| 0 <= j < head.len() && head[j] == d;
            assert(s[from + j] == d);
        },
    }
}

/// The names of an accepted path are those that its normal form shows.
proof fn lemma_normal_form_names(raw: Seq<char>)
    requires
        refusal(raw) is None,
    ensures
        split::pieces(normal_form(raw), '/') == path_names(forward_slashes(raw)),
{
    let s = forward_slashes(raw);
    let names = path_names(s);
    split::law_pieces_hold_no_separator(s, '/');
    assert forall|i: int| 0 <= i < names.len() implies !(#[trigger] names[i]).contains('/') by {
        lemma_naming(split::pieces(s, '/'), i);
        let j = choose|j: int| 0 <= j < split::pieces(s, '/').len() && split::pieces(s, '/')[j]
            == names[i];
        assert(!split::pieces(s, '/')[j].contains('/'));
    }
    split::law_split_undoes_join(names, '/');
}

/// The normal form of an accepted path is in normal form: it cannot leave the repository.
pub proof fn law_normal_form_is_normal(raw: Seq<char>)
    requires
        refusal(raw) is None,
    ensures
        is_normal(normal_form(raw)),
{
    let s = forward_slashes(raw);
    let parts = split::pieces(s, '/');
    let names = path_names(s);
    lemma_normal_form_names(raw);
    assert forall|i: int| 0 <= i < names.len() implies (#[trigger] names[i]).len() > 0 && names[i]
        != seq!['.'] && names[i] != seq!['.', '.'] by {
        lemma_naming(parts, i);
        assert(names.contains(names[i]));
    }
    assert forall|d: char| d == '\\' || d == '\0' implies !(#[trigger] normal_form(raw).contains(
        d,
    )) by {
        if normal_form(raw).contains(d) {
            assert(joined_has(names, seq!['/'], d));
            lemma_joined_holds(names, seq!['/'], d);
            let i = choose|i: int| 0 <= i < names.len() && (#[trigger] names[i]).contains(d);
            lemma_naming(parts, i);
            let j = choose|j: int| 0 <= j < parts.len() && parts[j] == names[i];
            lemma_piece_chars(s, '/', d, 0, j);
            let k = choose|k: int| 0 <= k < s.len() && s[k] == d;
            assert(raw[k] == d || raw[k] == '\\');
            if d == '\0' {
                assert(raw[k] == d);
                assert(raw.contains(d));
            }
        }
    }
}

/// Accepting a path that is already in normal form keeps it as it is.
pub proof fn law_normalizing_is_idempotent(raw: Seq<char>)
    requires
        refusal(raw) is None,
        find::trimmed(normal_form(raw)).len() > 0,
        !windows_absolute(normal_form(raw)),
    ensures
        refusal(normal_form(raw)) is None,
        normal_form(normal_form(raw)) == normal_form(raw),
{
    let p = normal_form(raw);
    law_normal_form_is_normal(raw);
    lemma_normal_form_names(raw);
    assert(forward_slashes(p) =~= p) by {
        assert forall|i: int| 0 <= i < p.len() implies p[i] != '\\' by {
            assert(p.contains(p[i]));
        }
    }
    let names = split::pieces(p, '/');
    lemma_naming_all(names);
    assert(!climbs(names)) by {
        if climbs(names) {
            let i = choose|i: int| 0 <= i < names.len() && names[i] == seq!['.', '.'];
            assert(names[i] != seq!['.', '.']);
        }
    }
    if find::begins(p, '/') {
        find::lemma_index_from(p, '/', 0);
        assert(names[0] =~= p.subrange(0, 0));
        assert(names[0].len() > 0);
    }
}

impl RepoRelativePath {
    #[verifier::type_invariant]
    spec fn well_formed(self) -> bool {
        is_normal(self.text@)
    }

    /// Accepts a path that stays inside the repository and keeps its normal form.
    pub fn new(path: &str) -> (r: Result<RepoRelativePath, RepoError>)
        ensures
            match r {
                Ok(p) => refusal(path@) is None && p@ == normal_form(path@) && is_normal(p@),
                Err(e) => refusal(path@) matches Some(reason) && refused_with(e, path@, reason),
            },
    {
        let bare = trim(path);
        if bare.as_str().is_empty() {
            return Err(invalid_repo_relative_path(path, "path cannot be empty"));
        }
        if contains_char(path, '\0') {
            return Err(invalid_repo_relative_path(path, "path contains NUL byte"));
        }
        if looks_like_windows_absolute_path(path) {
            return Err(
                invalid_repo_relative_path(path, "absolute Windows paths are not allowed"),
            );
        }
        let slashed = with_forward_slashes(path);
        if starts_with_char(slashed.as_str(), '/') {
            return Err(invalid_repo_relative_path(path, "absolute paths are not allowed"));
        }
        let names = names_of(slashed.as_str());
        if has_dot_dot(names.as_slice()) {
            return Err(
                invalid_repo_relative_path(path, "parent-directory traversal is not allowed"),
            );
        }
        if names.len() == 0 {
            return Err(invalid_repo_relative_path(path, "path must point to a repository file"));
        }
        let text = join(names.as_slice(), "/");
        proof {
            reveal_strlit("/");
            assert("/"@ =~= seq!['/']);
            law_normal_form_is_normal(path@);
        }
        Ok(RepoRelativePath { text })
    }

    /// The path as text.
    pub fn as_str(&self) -> (r: &str)
        ensures
            r@ == self@,
            is_normal(r@),
    {
        proof {
            use_type_invariant(self);
        }
        self.text.as_str()
    }

    /// The path as owned text.
    pub fn to_string(&self) -> (r: String)
        ensures
            r@ == self@,
    {
        own(self.text.as_str())
    }
}

impl Clone for RepoRelativePath {
    fn clone(&self) -> (r: RepoRelativePath)
        ensures
            r@ == self@,
    {
        proof {
            use_type_invariant(self);
        }
        RepoRelativePath { text: own(self.text.as_str()) }
    }
}

/// What stands at a path of the file system.
pub enum PathEntry {
    /// Nothing.
    Missing,
    /// A symbolic link; `target` is the canonical path that it leads to.
    Link { target: String },
    /// A directory.
    Directory,
    /// Anything else.
    File,
}

/// What a [`PathEntry`] stands for.
#[verifier::ext_equal]
pub enum EntryView {
    Missing,
    Link(Seq<char>),
    Directory,
    File,
}

impl View for PathEntry {
    type V = EntryView;

    open spec fn view(&self) -> EntryView {
        match self {
            PathEntry::Missing => EntryView::Missing,
            PathEntry::Link { target } => EntryView::Link(target@),
            PathEntry::Directory => EntryView::Directory,
            PathEntry::File => EntryView::File,
        }
    }
}

/// What a sequence of entries stands for.
pub open spec fn entries_view(v: Seq<PathEntry>) -> Seq<EntryView> {
    Seq::new(v.len(), |i: int| v[i]@)
}

/// A name below a directory.
pub open spec fn child_path(dir: Seq<char>, name: Seq<char>) -> Seq<char> {
    if find::has_suffix(dir, "/"@) {
        dir + name
    } else {
        dir + "/"@ + name
    }
}

/// Whether a path is the given directory or below it.
pub open spec fn is_within(path: Seq<char>, dir: Seq<char>) -> bool {
    path == dir || find::has_prefix(path, child_path(dir, Seq::<char>::empty()))
}

/// Where the first `n` names lead from the root, given what stands at each step: the path
/// reached, or the reason to refuse.
pub open spec fn walked(
    root: Seq<char>,
    names: Seq<Seq<char>>,
    entries: Seq<EntryView>,
    n: int,
) -> Result<Seq<char>, Seq<char>>
    decreases n,
{
    if n <= 0 {
        Ok(root)
    } else {
        match walked(root, names, entries, n - 1) {
            Ok(current) => match entries[n - 1] {
                EntryView::Link(target) => if is_within(target, root) {
                    Ok(target)
                } else {
                    Err("symlink escapes the repository root"@)
                },
                EntryView::File => if n < names.len() {
                    Err("path traverses through a file"@)
                } else {
                    Ok(child_path(current, names[n - 1]))
                },
                _ => Ok(child_path(current, names[n - 1])),
            },
            Err(reason) => Err(reason),
        }
    }
}

/// Where a path leads from the root, or the reason to refuse it.
pub open spec fn resolved(root: Seq<char>, path: Seq<char>, entries: Seq<EntryView>) -> Result<
    Seq<char>,
    Seq<char>,
> {
    let names = split::pieces(path, '/');
    match walked(root, names, entries, names.len() as int) {
        Ok(p) => if is_within(p, root) {
            Ok(p)
        } else {
            Err("path resolves outside the repository root"@)
        },
        Err(reason) => Err(reason),
    }
}

/// A resolved path is never outside the root.
pub proof fn law_resolved_paths_stay_inside(
    root: Seq<char>,
    path: Seq<char>,
    entries: Seq<EntryView>,
)
    ensures
        resolved(root, path, entries) matches Ok(p) ==> is_within(p, root),
{
}

/// A link that leads outside the root is refused, whatever follows it.
pub proof fn law_escaping_links_are_refused(
    root: Seq<char>,
    path: Seq<char>,
    entries: Seq<EntryView>,
    at: int,
    target: Seq<char>,
)
    requires
        0 <= at < split::pieces(path, '/').len(),
        entries[at] == EntryView::Link(target),
        !is_within(target, root),
    ensures
        resolved(root, path, entries) is Err,
{
    lemma_walk_refused(root, split::pieces(path, '/'), entries, at, split::pieces(
        path,
        '/',
    ).len() as int);
}

proof fn lemma_walk_refused(
    root: Seq<char>,
    names: Seq<Seq<char>>,
    entries: Seq<EntryView>,
    at: int,
    n: int,
)
    requires
        0 <= at < n,
        entries[at] is Link,
        !is_within(entries[at]->Link_0, root),
    ensures
        walked(root, names, entries, n) is Err,
    decreases n,
{
    if n - 1 > at {
        lemma_walk_refused(root, names, entries, at, n - 1);
    }
}

/// A name below a directory.
fn join_child(dir: &str, name: &str) -> (r: String)
    ensures
        r@ == child_path(dir@, name@),
{
    if ends_with(dir, "/") {
        concat2(dir, name)
    } else {
        concat3(dir, "/", name)
    }
}

fn path_is_within(path: &str, dir: &str) -> (r: bool)
    ensures
        r == is_within(path@, dir@),
{
    let prefix = join_child(dir, "");
    proof {
        reveal_strlit("");
        assert(""@ =~= Seq::<char>::empty());
    }
    same(path, dir) || starts_with(path, prefix.as_str())
}

/// Where the first `n` names lead, or the reason to refuse.
fn walk(root: &str, names: &[String], entries: &[PathEntry], n: usize) -> (r: Result<
    String,
    &'static str,
>)
    requires
        n <= names@.len(),
        n <= entries@.len(),
    ensures
        match r {
            Ok(p) => walked(root@, chars::texts(names@), entries_view(entries@), n as int) == Ok::<
                Seq<char>,
                Seq<char>,
            >(p@),
            Err(reason) => walked(root@, chars::texts(names@), entries_view(entries@), n as int)
                == Err::<Seq<char>, Seq<char>>(reason@),
        },
    decreases n,
{
    if n == 0 {
        return Ok(own(root));
    }
    let current = match walk(root, names, entries, n - 1) {
        Ok(p) => p,
        Err(reason) => {
            return Err(reason);
        },
    };
    proof {
        assert(entries_view(entries@)[n - 1] == entries@[n - 1]@);
        assert(chars::texts(names@)[n - 1] == names@[n - 1]@);
    }
    match &entries[n - 1] {
        PathEntry::Link { target } => {
            if path_is_within(target.as_str(), root) {
                Ok(own(target.as_str()))
            } else {
                Err("symlink escapes the repository root")
            }
        },
        PathEntry::File => {
            if n < names.len() {
                Err("path traverses through a file")
            } else {
                Ok(join_child(current.as_str(), names[n - 1].as_str()))
            }
        },
        PathEntry::Missing => Ok(join_child(current.as_str(), names[n - 1].as_str())),
        PathEntry::Directory => Ok(join_child(current.as_str(), names[n - 1].as_str())),
    }
}

impl RepoRelativePath {
    /// How many names the path has.
    pub fn depth(&self) -> (r: usize)
        ensures
            r == split::pieces(self@, '/').len(),
    {
        let names = split_char(self.text.as_str(), '/');
        names.len()
    }

    /// The next path to look at when the path is resolved below `root`, given what stands at
    /// the steps before it. `None` when all steps are known or one of them is refused.
    pub fn next_probe(&self, root: &str, entries: &[PathEntry]) -> (r: Option<String>)
        ensures
            chars::opt_text(r) == ({
                let names = split::pieces(self@, '/');
                let n = entries@.len() as int;
                if n >= names.len() {
                    None
                } else {
                    match walked(root@, names, entries_view(entries@), n) {
                        Ok(current) => Some(child_path(current, names[n])),
                        Err(_) => None,
                    }
                }
            }),
    {
        let names = split_char(self.text.as_str(), '/');
        let n: usize = entries.len();
        if n >= names.len() {
            return None;
        }
        proof {
            assert(chars::texts(names@)[n as int] == names@[n as int]@);
        }
        match walk(root, names.as_slice(), entries, n) {
            Ok(current) => Some(join_child(current.as_str(), names[n].as_str())),
            Err(_) => None,
        }
    }

    /// Resolves the path below the canonical path `root`, given what stands at its steps.
    pub fn resolve_under(&self, root: &str, entries: &[PathEntry]) -> (r: Result<
        String,
        RepoError,
    >)
        requires
            entries@.len() >= split::pieces(self@, '/').len(),
        ensures
            match r {
                Ok(p) => resolved(root@, self@, entries_view(entries@)) == Ok::<
                    Seq<char>,
                    Seq<char>,
                >(p@) && is_within(p@, root@),
                Err(e) => resolved(root@, self@, entries_view(entries@)) matches Err(reason)
                    && refused_with(e, self@, reason),
            },
    {
        let names = split_char(self.text.as_str(), '/');
        match walk(root, names.as_slice(), entries, names.len()) {
            Ok(p) => {
                if path_is_within(p.as_str(), root) {
                    Ok(p)
                } else {
                    Err(
                        invalid_repo_relative_path(
                            self.text.as_str(),
                            "path resolves outside the repository root",
                        ),
                    )
                }
            },
            Err(reason) => Err(invalid_repo_relative_path(self.text.as_str(), reason)),
        }
    }

    /// Accepts the path if it resolves inside the root.
    pub fn ensure_within_root(&self, root: &str, entries: &[PathEntry]) -> (r: Result<
        (),
        RepoError,
    >)
        requires
            entries@.len() >= split::pieces(self@, '/').len(),
        ensures
            match r {
                Ok(_) => resolved(root@, self@, entries_view(entries@)) is Ok,
                Err(e) => resolved(root@, self@, entries_view(entries@)) matches Err(reason)
                    && refused_with(e, self@, reason),
            },
    {
        match self.resolve_under(root, entries) {
            Ok(_) => Ok(()),
            Err(e) => Err(e),
        }
    }

    /// Accepts a path that a plan names, if it resolves inside the root.
    pub fn from_planner_path(root: &str, path: &str, entries: &[PathEntry]) -> (r: Result<
        RepoRelativePath,
        RepoError,
    >)
        requires
            refusal(path@) is None ==> entries@.len() >= split::pieces(
                normal_form(path@),
                '/',
            ).len(),
        ensures
            match r {
                Ok(p) => refusal(path@) is None && p@ == normal_form(path@) && resolved(
                    root@,
                    p@,
                    entries_view(entries@),
                ) is Ok,
                Err(e) => match refusal(path@) {
                    Some(reason) => refused_with(e, path@, reason),
                    None => resolved(root@, normal_form(path@), entries_view(entries@)) matches Err(
                        reason,
                    ) && refused_with(e, normal_form(path@), reason),
                },
            },
    {
        let relative = match RepoRelativePath::new(path) {
            Ok(p) => p,
            Err(e) => {
                return Err(e);
            },
        };
        match relative.ensure_within_root(root, entries) {
            Ok(_) => Ok(relative),
            Err(e) => Err(e),
        }
    }
}

/// Whether a path is the given directory of the repository or below it.
pub open spec fn in_directory(relative: Seq<char>, dir: Seq<char>) -> bool {
    relative == dir || find::has_prefix(relative, dir + "/"@)
}

fn is_in_directory(relative: &str, dir: &str) -> (r: bool)
    ensures
        r == in_directory(relative@, dir@),
{
    let prefix = concat2(dir, "/");
    same(relative, dir) || starts_with(relative, prefix.as_str())
}

/// Whether a path is left out of a copied workspace.
pub fn should_skip_workspace_copy(relative: &str) -> (r: bool)
    ensures
        r == (in_directory(relative@, ".git"@) || in_directory(relative@, "target"@)
            || in_directory(relative@, ".mercury/worktrees"@) || in_directory(
            relative@,
            ".mercury/runs"@,
        )),
{
    is_in_directory(relative, ".git") || is_in_directory(relative, "target") || is_in_directory(
        relative,
        ".mercury/worktrees",
    ) || is_in_directory(relative, ".mercury/runs")
}

/// Whether a path is left out of the watch for changes.
pub fn should_skip_watch_path(relative: &str) -> (r: bool)
    ensures
        r == (in_directory(relative@, ".git"@) || in_directory(relative@, "target"@)
            || in_directory(relative@, ".mercury"@)),
{
    is_in_directory(relative, ".git") || is_in_directory(relative, "target") || is_in_directory(
        relative,
        ".mercury",
    )
}

/// Whether a directory of the given name is left out of the search for source files.
pub fn should_skip_directory(name: &str) -> (r: bool)
    ensures
        r == (name@ == ".git"@ || name@ == "target"@ || name@ == ".mercury"@),
{
    same(name, ".git") || same(name, "target") || same(name, ".mercury")
}

} // verus!
