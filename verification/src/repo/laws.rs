//! Laws of repository maps, paths and churn.
use crate::repo::churn;
use crate::repo::churn::ChurnView;
use crate::repo::languages;
use crate::repo::languages::{Language, RepoLanguages};
use crate::repo::map::{ChurnScore, FileView};
use crate::repo::path;
use crate::repo::path::EntryView;
use crate::repo::symbols;
use crate::repo::symbols::SymbolView;
use crate::text::find;
use crate::text::number;
use crate::text::order;
use crate::text::split;
use vstd::prelude::*;

verus! {

/// A file is indexed exactly if its extension is that of a language that is enabled.
pub proof fn law_enabled_languages_are_indexed(langs: RepoLanguages, ext: Seq<char>, l: Language)
    ensures
        langs.visits(ext) == Some(l) <==> languages::language_of(ext) == Some(l) && langs.enables(
            l,
        ),
        (RepoLanguages { rust: true, python: true, typescript: true, go: true, java: true }).visits(
            ext,
        ) == languages::language_of(ext),
{
}

/// One more file counts once for its language and with all its lines if it is indexed, and for
/// nothing else.
pub proof fn law_indexed_files_are_counted(
    files: Seq<FileView>,
    f: FileView,
    langs: RepoLanguages,
    l: Language,
)
    ensures
        ({
            let n = files.len() as int;
            let more = files.push(f);
            let seen = langs.visits(f.extension);
            &&& crate::repo::map::indexed(more, langs, n + 1) == crate::repo::map::indexed(files, langs, n) + (if seen is Some {
                1nat
            } else {
                0
            })
            &&& crate::repo::map::indexed_as(more, langs, l, n + 1) == crate::repo::map::indexed_as(files, langs, l, n) + (
            if seen == Some(l) {
                1nat
            } else {
                0
            })
            &&& crate::repo::map::indexed_lines(more, langs, n + 1) == crate::repo::map::indexed_lines(files, langs, n) + (
            if seen is Some {
                split::lines_of(f.content).len()
            } else {
                0
            })
            &&& crate::repo::map::indexed(Seq::empty(), langs, 0) == 0
            &&& crate::repo::map::indexed_lines(Seq::empty(), langs, 0) == 0
        }),
{
    lemma_same_front(files, files.push(f), langs, l, files.len() as int);
}

proof fn lemma_same_front(
    a: Seq<FileView>,
    b: Seq<FileView>,
    langs: RepoLanguages,
    l: Language,
    n: int,
)
    requires
        n <= a.len(),
        n <= b.len(),
        forall|i: int| 0 <= i < n ==> a[i] == b[i],
    ensures
        crate::repo::map::indexed(a, langs, n) == crate::repo::map::indexed(b, langs, n),
        crate::repo::map::indexed_as(a, langs, l, n) == crate::repo::map::indexed_as(b, langs, l, n),
        crate::repo::map::indexed_lines(a, langs, n) == crate::repo::map::indexed_lines(b, langs, n),
    decreases n,
{
    if n > 0 {
        lemma_same_front(a, b, langs, l, n - 1);
    }
}

/// Every indexed file counts for exactly one language.
pub proof fn law_language_counts_add_up(files: Seq<FileView>, langs: RepoLanguages, n: int)
    requires
        0 <= n <= files.len(),
    ensures
        crate::repo::map::indexed_as(files, langs, Language::Rust, n) + crate::repo::map::indexed_as(
            files,
            langs,
            Language::Python,
            n,
        ) + crate::repo::map::indexed_as(files, langs, Language::TypeScript, n) + crate::repo::map::indexed_as(
            files,
            langs,
            Language::Go,
            n,
        ) + crate::repo::map::indexed_as(files, langs, Language::Java, n) == crate::repo::map::indexed(files, langs, n),
    decreases n,
{
    if n > 0 {
        law_language_counts_add_up(files, langs, n - 1);
    }
}

/// Symbols are ordered by their files, then by the lines they begin and end at, then by their
/// kinds, and then by their names; of two different symbols one comes first.
pub proof fn law_symbol_order(a: SymbolView, b: SymbolView)
    ensures
        a.file_path != b.file_path ==> symbols::symbol_less(a, b) == order::text_less(
            a.file_path,
            b.file_path,
        ),
        a.file_path == b.file_path && a.line_start < b.line_start ==> symbols::symbol_less(a, b)
            && !symbols::symbol_less(b, a),
        a.file_path == b.file_path && a.line_start == b.line_start && a.line_end < b.line_end
            ==> symbols::symbol_less(a, b) && !symbols::symbol_less(b, a),
        (SymbolView { name: b.name, ..a }) == b ==> symbols::symbol_less(a, b) == order::text_less(
            a.name,
            b.name,
        ),
        a != b ==> symbols::symbol_less(a, b) || symbols::symbol_less(b, a),
        !(symbols::symbol_less(a, b) && symbols::symbol_less(b, a)),
{
    order::lemma_text_irreflexive(a.name);
    order::lemma_text_total(a.file_path, b.file_path);
    order::lemma_text_total(a.name, b.name);
    order::lemma_text_irreflexive(a.file_path);
    if order::text_less(a.file_path, b.file_path) && order::text_less(b.file_path, a.file_path) {
        order::lemma_text_transitive(a.file_path, b.file_path, a.file_path);
    }
    if order::text_less(a.name, b.name) && order::text_less(b.name, a.name) {
        order::lemma_text_transitive(a.name, b.name, a.name);
    }
}

/// Whether all symbols are in one file.
pub open spec fn in_one_file(s: Seq<SymbolView>, file: Seq<char>) -> bool {
    forall|i: int| 0 <= i < s.len() ==> (#[trigger] s[i]).file_path == file
}

proof fn lemma_run_end_stops(s: Seq<SymbolView>, file: Seq<char>, i: int, end: int)
    requires
        0 <= i <= end <= s.len(),
        forall|j: int| i <= j < end ==> (#[trigger] s[j]).file_path == file,
        end < s.len() ==> s[end].file_path != file,
    ensures
        crate::repo::map::run_end(s, file, i) == end,
    decreases end - i,
{
    if i < end {
        assert(s[i].file_path == file);
        lemma_run_end_stops(s, file, i + 1, end);
    }
}

proof fn lemma_lines_shift(a: Seq<SymbolView>, s: Seq<SymbolView>, i: int, end: int)
    requires
        0 <= i <= end <= s.len(),
    ensures
        crate::repo::map::symbol_lines(a + s, a.len() + i, a.len() + end) == crate::repo::map::symbol_lines(s, i, end),
    decreases end - i,
{
    if i < end {
        assert((a + s)[a.len() + i] == s[i]);
        lemma_lines_shift(a, s, i + 1, end);
    }
}

proof fn lemma_run_end_shift(a: Seq<SymbolView>, s: Seq<SymbolView>, file: Seq<char>, i: int)
    requires
        0 <= i <= s.len(),
    ensures
        crate::repo::map::run_end(a + s, file, a.len() + i) == a.len() + crate::repo::map::run_end(s, file, i),
    decreases s.len() - i,
{
    if i < s.len() {
        assert((a + s)[a.len() + i] == s[i]);
        lemma_run_end_shift(a, s, file, i + 1);
    }
}

proof fn lemma_sections_shift(a: Seq<SymbolView>, s: Seq<SymbolView>, i: int)
    requires
        0 <= i <= s.len(),
    ensures
        crate::repo::map::sections(a + s, a.len() + i) == crate::repo::map::sections(s, i),
    decreases s.len() - i,
{
    if i < s.len() {
        let file = s[i].file_path;
        let end = crate::repo::map::run_end(s, file, i + 1);
        assert((a + s)[a.len() + i] == s[i]);
        crate::repo::map::lemma_run_end(s, file, i + 1);
        lemma_run_end_shift(a, s, file, i + 1);
        lemma_lines_shift(a, s, i, end);
        lemma_sections_shift(a, s, end);
    }
}

proof fn lemma_lines_front(a: Seq<SymbolView>, s: Seq<SymbolView>, i: int, end: int)
    requires
        0 <= i <= end <= a.len(),
    ensures
        crate::repo::map::symbol_lines(a + s, i, end) == crate::repo::map::symbol_lines(a, i, end),
    decreases end - i,
{
    if i < end {
        assert((a + s)[i] == a[i]);
        lemma_lines_front(a, s, i + 1, end);
    }
}

/// The symbols of a file form one section, with the name of the file above them and an empty
/// line below, in front of the sections of all files that follow.
pub proof fn law_a_file_is_one_section(
    file: Seq<char>,
    run: Seq<SymbolView>,
    rest: Seq<SymbolView>,
)
    requires
        run.len() > 0,
        in_one_file(run, file),
        rest.len() > 0 ==> rest[0].file_path != file,
    ensures
        crate::repo::map::sections(run + rest, 0) == crate::repo::map::file_head(file) + crate::repo::map::symbol_lines(
            run,
            0,
            run.len() as int,
        ) + "\n"@ + crate::repo::map::sections(rest, 0),
        crate::repo::map::sections(Seq::empty(), 0) == Seq::<char>::empty(),
{
    let s = run + rest;
    let n = run.len() as int;
    assert(s[0] == run[0]);
    assert(run[0].file_path == file);
    assert forall|j: int| 1 <= j < n implies (#[trigger] s[j]).file_path == file by {
        assert(s[j] == run[j]);
    }
    if rest.len() > 0 {
        assert(s[n] == rest[0]);
    }
    lemma_run_end_stops(s, file, 1, n);
    lemma_lines_front(run, rest, 0, n);
    lemma_sections_shift(run, rest, 0);
}

/// Each symbol has its own line, in their order.
pub proof fn law_every_symbol_has_a_line(s: Seq<SymbolView>, i: int, at: int, end: int)
    requires
        0 <= i <= at < end <= s.len(),
    ensures
        crate::repo::map::symbol_lines(s, i, end) == crate::repo::map::symbol_lines(s, i, at) + crate::repo::map::symbol_line(s[at])
            + crate::repo::map::symbol_lines(s, at + 1, end),
    decreases at - i,
{
    let tail = crate::repo::map::symbol_line(s[at]) + crate::repo::map::symbol_lines(s, at + 1, end);
    if i < at {
        law_every_symbol_has_a_line(s, i + 1, at, end);
        let one = crate::repo::map::symbol_line(s[i]);
        let mid = crate::repo::map::symbol_lines(s, i + 1, at);
        assert(one + (mid + crate::repo::map::symbol_line(s[at]) + crate::repo::map::symbol_lines(s, at + 1, end)) =~= (one
            + mid) + crate::repo::map::symbol_line(s[at]) + crate::repo::map::symbol_lines(s, at + 1, end));
    } else {
        assert(crate::repo::map::symbol_lines(s, i, at) =~= Seq::<char>::empty());
        assert(Seq::<char>::empty() + crate::repo::map::symbol_line(s[at]) + crate::repo::map::symbol_lines(s, at + 1, end)
            =~= tail);
    }
}

/// Each churn score has its own line, in their order.
pub proof fn law_every_churn_score_has_a_line(v: Seq<ChurnScore>, c: ChurnScore)
    ensures
        crate::repo::map::churn_lines(v.push(c), v.len() as int + 1) == crate::repo::map::churn_lines(v, v.len() as int)
            + crate::repo::map::churn_line(c),
        crate::repo::map::churn_lines(Seq::empty(), 0) == Seq::<char>::empty(),
{
    lemma_churn_front(v, v.push(c), v.len() as int);
}

proof fn lemma_churn_front(a: Seq<ChurnScore>, b: Seq<ChurnScore>, n: int)
    requires
        n <= a.len(),
        n <= b.len(),
        forall|i: int| 0 <= i < n ==> a[i] == b[i],
    ensures
        crate::repo::map::churn_lines(a, n) == crate::repo::map::churn_lines(b, n),
    decreases n,
{
    if n > 0 {
        lemma_churn_front(a, b, n - 1);
    }
}

/// A language is told exactly if files of it were indexed.
pub proof fn law_languages_with_files_are_told(counts: crate::repo::map::LanguageCounts, l: Language)
    ensures
        crate::repo::map::count_text(counts, l).len() == (if counts.of(l) > 0 {
            1nat
        } else {
            0
        }),
        counts.of(l) > 0 ==> crate::repo::map::count_texts(counts).contains(crate::repo::map::count_text(counts, l)[0]),
        crate::repo::map::count_texts(counts).len() == 0 <==> (counts.of(Language::Rust) == 0 && counts.of(
            Language::Python,
        ) == 0 && counts.of(Language::TypeScript) == 0 && counts.of(Language::Go) == 0
            && counts.of(Language::Java) == 0),
{
    let g = crate::repo::map::count_text(counts, Language::Go);
    let j = crate::repo::map::count_text(counts, Language::Java);
    let p = crate::repo::map::count_text(counts, Language::Python);
    let r = crate::repo::map::count_text(counts, Language::Rust);
    let t = crate::repo::map::count_text(counts, Language::TypeScript);
    let all = crate::repo::map::count_texts(counts);
    if counts.of(l) > 0 {
        let x = crate::repo::map::count_text(counts, l)[0];
        match l {
            Language::Go => {
                assert(all[0] == x);
            },
            Language::Java => {
                assert(all[g.len() as int] == x);
            },
            Language::Python => {
                assert(all[(g + j).len() as int] == x);
            },
            Language::Rust => {
                assert(all[(g + j + p).len() as int] == x);
            },
            Language::TypeScript => {
                assert(all[(g + j + p + r).len() as int] == x);
            },
        }
    }
}

/// Whether a list of names can be a path below the root of a repository.
pub open spec fn are_names(names: Seq<Seq<char>>) -> bool {
    &&& names.len() > 0
    &&& forall|i: int|
        0 <= i < names.len() ==> {
            let n = #[trigger] names[i];
            &&& n.len() > 0
            &&& n != seq!['.']
            &&& n != seq!['.', '.']
            &&& !n.contains('/')
        }
}

proof fn lemma_naming_keeps(names: Seq<Seq<char>>)
    requires
        forall|i: int|
            0 <= i < names.len() ==> (#[trigger] names[i]).len() > 0 && names[i] != seq!['.'],
    ensures
        path::naming(names) == names,
    decreases names.len(),
{
    if names.len() > 0 {
        let front = names.drop_last();
        assert forall|i: int| 0 <= i < front.len() implies (#[trigger] front[i]).len() > 0
            && front[i] != seq!['.'] by {
            assert(front[i] == names[i]);
        }
        lemma_naming_keeps(front);
        assert(names[names.len() - 1] == names.last());
        assert(front.push(names.last()) =~= names);
    } else {
        assert(path::naming(names) =~= names);
    }
}

/// A path that is already in its normal form is taken as it is.
pub proof fn law_good_paths_are_kept(names: Seq<Seq<char>>, p: Seq<char>)
    requires
        are_names(names),
        p == split::joined(names, seq!['/']),
        !p.contains('\\'),
        !p.contains('\0'),
        find::trimmed(p).len() > 0,
        !path::windows_absolute(p),
    ensures
        path::refusal(p) is None,
        path::normal_form(p) == p,
        path::path_names(p) == names,
{
    assert(path::forward_slashes(p) =~= p) by {
        assert forall|i: int| 0 <= i < p.len() implies #[trigger] path::forward_slashes(p)[i]
            == p[i] by {
            assert(p.contains(p[i]));
        }
    }
    split::law_split_undoes_join(names, '/');
    lemma_naming_keeps(names);
    if names.contains(seq!['.', '.']) {
        let i = choose|i: int| 0 <= i < names.len() && names[i] == seq!['.', '.'];
        assert(names[i] != seq!['.', '.']);
    }
    if find::begins(p, '/') {
        lemma_first_of_joined(names);
        assert(names[0].contains(names[0][0]));
    }
}

proof fn lemma_first_of_joined(names: Seq<Seq<char>>)
    requires
        names.len() > 0,
        names[0].len() > 0,
    ensures
        split::joined(names, seq!['/']).len() > 0,
        split::joined(names, seq!['/'])[0] == names[0][0],
    decreases names.len(),
{
    if names.len() > 1 {
        lemma_first_of_joined(names.drop_last());
    }
}

/// Empty names and names of one dot mean nothing in a path, and backslashes mean what slashes
/// mean.
pub proof fn law_paths_with_the_same_meaning(a: Seq<Seq<char>>, b: Seq<Seq<char>>, raw: Seq<char>)
    ensures
        path::naming(a + b) == path::naming(a) + path::naming(b),
        path::naming(a + seq![Seq::empty()] + b) == path::naming(a + b),
        path::naming(a + seq![seq!['.']] + b) == path::naming(a + b),
        path::normal_form(path::forward_slashes(raw)) == path::normal_form(raw),
{
    lemma_naming_adds(a, b);
    let e = seq![Seq::<char>::empty()];
    let d = seq![seq!['.']];
    lemma_naming_adds(a, e);
    lemma_naming_adds(a + e, b);
    lemma_naming_adds(a, d);
    lemma_naming_adds(a + d, b);
    assert(e.drop_last() =~= Seq::empty());
    assert(d.drop_last() =~= Seq::empty());
    assert(path::naming(Seq::<Seq<char>>::empty()) =~= Seq::<Seq<char>>::empty());
    assert(path::naming(e) =~= Seq::<Seq<char>>::empty());
    assert(path::naming(d) =~= Seq::<Seq<char>>::empty());
    assert(path::naming(a) + path::naming(e) =~= path::naming(a));
    assert(path::naming(a) + path::naming(d) =~= path::naming(a));
    assert(path::forward_slashes(path::forward_slashes(raw)) =~= path::forward_slashes(raw));
}

proof fn lemma_naming_adds(a: Seq<Seq<char>>, b: Seq<Seq<char>>)
    ensures
        path::naming(a + b) == path::naming(a) + path::naming(b),
    decreases b.len(),
{
    let x = path::naming(a);
    if b.len() == 0 {
        assert(a + b =~= a);
        assert(x + path::naming(b) =~= x);
    } else {
        assert((a + b).drop_last() =~= a + b.drop_last());
        assert((a + b).last() == b.last());
        lemma_naming_adds(a, b.drop_last());
        let y = path::naming(b.drop_last());
        assert((x + y).push(b.last()) =~= x + y.push(b.last()));
    }
}

/// A path that leads up is refused wherever it does so, and so is an absolute one.
pub proof fn law_paths_that_lead_out_are_refused(raw: Seq<char>, i: int)
    ensures
        0 <= i < split::pieces(path::forward_slashes(raw), '/').len() && split::pieces(
            path::forward_slashes(raw),
            '/',
        )[i] == seq!['.', '.'] ==> path::refusal(raw) is Some,
        raw.len() > 0 && (raw[0] == '/' || raw[0] == '\\') ==> path::refusal(raw) is Some,
        raw.len() > 1 && raw[1] == ':' && crate::text::chars::is_ascii_letter(raw[0])
            ==> path::refusal(raw) is Some,
        raw.contains('\0') ==> path::refusal(raw) is Some,
{
    let parts = split::pieces(path::forward_slashes(raw), '/');
    if 0 <= i < parts.len() && parts[i] == seq!['.', '.'] {
        lemma_naming_holds(parts, i);
    }
}

proof fn lemma_naming_holds(parts: Seq<Seq<char>>, i: int)
    requires
        0 <= i < parts.len(),
        parts[i].len() > 1,
    ensures
        path::naming(parts).contains(parts[i]),
    decreases parts.len(),
{
    let front = path::naming(parts.drop_last());
    let all = path::naming(parts);
    if i < parts.len() - 1 {
        lemma_naming_holds(parts.drop_last(), i);
        assert(parts.drop_last()[i] == parts[i]);
        let k = choose|k: int| 0 <= k < front.len() && front[k] == parts[i];
        assert(all[k] == parts[i]);
    } else {
        assert(all[front.len() as int] == parts[i]);
    }
}

/// A directory holds itself and what stands below it, but no sibling whose name only begins
/// like its own.
pub proof fn law_directories_hold_what_is_below(dir: Seq<char>, name: Seq<char>, c: char)
    requires
        c != '/',
    ensures
        path::in_directory(dir, dir),
        path::in_directory(dir + "/"@ + name, dir),
        !path::in_directory(dir + seq![c] + name, dir),
{
    reveal_strlit("/");
    let below = dir + "/"@ + name;
    assert(below.subrange(0, (dir + "/"@).len() as int) =~= dir + "/"@);
    let beside = dir + seq![c] + name;
    if path::in_directory(beside, dir) {
        assert(beside.len() > dir.len());
        assert(beside.subrange(0, (dir + "/"@).len() as int)[dir.len() as int] == c);
        assert((dir + "/"@)[dir.len() as int] == '/');
    }
}

proof fn lemma_plain_walk(root: Seq<char>, names: Seq<Seq<char>>, entries: Seq<EntryView>, n: int)
    requires
        1 <= n <= names.len(),
        n <= entries.len(),
        forall|i: int| 0 <= i < names.len() ==> (#[trigger] names[i]).len() > 0,
        forall|i: int| 0 <= i < names.len() ==> !(#[trigger] names[i]).contains('/'),
        forall|i: int| 0 <= i < n ==> (#[trigger] entries[i]) !is Link,
        forall|i: int| 0 <= i < n && i < names.len() - 1 ==> (#[trigger] entries[i]) !is File,
    ensures
        path::walked(root, names, entries, n) == Ok::<Seq<char>, Seq<char>>(
            path::child_path(root, split::joined(names.take(n), seq!['/'])),
        ),
    decreases n,
{
    reveal_strlit("/");
    assert(entries[n - 1] !is Link);
    if n < names.len() {
        assert(entries[n - 1] !is File);
    }
    assert(names.take(n).last() == names[n - 1]);
    if n == 1 {
        assert(path::walked(root, names, entries, 0) == Ok::<Seq<char>, Seq<char>>(root));
        assert(split::joined(names.take(1), seq!['/']) == names[0]);
    } else {
        lemma_plain_walk(root, names, entries, n - 1);
        assert(names.take(n).drop_last() =~= names.take(n - 1));
        let before = split::joined(names.take(n - 1), seq!['/']);
        let current = path::child_path(root, before);
        lemma_last_of_joined(names.take(n - 1));
        assert(names.take(n - 1).last() == names[n - 2]);
        assert(current.last() == before.last());
        if find::has_suffix(current, "/"@) {
            assert(current.subrange(current.len() - 1, current.len() as int)[0] == current.last());
            assert(names[n - 2].contains(names[n - 2].last()));
        }
        assert(path::child_path(current, names[n - 1]) =~= path::child_path(
            root,
            before + seq!['/'] + names[n - 1],
        ));
    }
}

proof fn lemma_last_of_joined(names: Seq<Seq<char>>)
    requires
        names.len() > 0,
        names.last().len() > 0,
    ensures
        split::joined(names, seq!['/']).len() > 0,
        split::joined(names, seq!['/']).last() == names.last().last(),
{
}

/// A path that meets no link, and no file before its last name, resolves to the place below the
/// root that it names.
pub proof fn law_plain_paths_resolve_below_the_root(
    root: Seq<char>,
    names: Seq<Seq<char>>,
    entries: Seq<EntryView>,
)
    requires
        are_names(names),
        names.len() <= entries.len(),
        forall|i: int| 0 <= i < names.len() ==> (#[trigger] entries[i]) !is Link,
        forall|i: int| 0 <= i < names.len() - 1 ==> (#[trigger] entries[i]) !is File,
    ensures
        ({
            let p = split::joined(names, seq!['/']);
            path::resolved(root, p, entries) == Ok::<Seq<char>, Seq<char>>(
                path::child_path(root, p),
            )
        }),
{
    let p = split::joined(names, seq!['/']);
    split::law_split_undoes_join(names, '/');
    lemma_plain_walk(root, names, entries, names.len() as int);
    assert(names.take(names.len() as int) =~= names);
    let start = path::child_path(root, Seq::<char>::empty());
    let whole = path::child_path(root, p);
    assert(whole =~= start + p);
    assert(whole.subrange(0, start.len() as int) =~= start);
}

/// No path leads through a file.
pub proof fn law_no_path_leads_through_a_file(
    root: Seq<char>,
    p: Seq<char>,
    entries: Seq<EntryView>,
    at: int,
)
    requires
        0 <= at < split::pieces(p, '/').len() - 1,
        entries[at] is File,
    ensures
        path::resolved(root, p, entries) is Err,
{
    let names = split::pieces(p, '/');
    lemma_walk_fails(root, names, entries, at, names.len() as int);
}

proof fn lemma_walk_fails(
    root: Seq<char>,
    names: Seq<Seq<char>>,
    entries: Seq<EntryView>,
    at: int,
    n: int,
)
    requires
        0 <= at < n <= names.len(),
        at < names.len() - 1,
        entries[at] is File,
    ensures
        path::walked(root, names, entries, n) is Err,
    decreases n,
{
    if at < n - 1 {
        lemma_walk_fails(root, names, entries, at, n - 1);
    }
}

proof fn lemma_entry(s: Seq<ChurnView>, file: Seq<char>, i: int)
    requires
        0 <= i,
    ensures
        match churn::entry_from(s, file, i) {
            Some(k) => i <= k < s.len() && s[k].file_path == file,
            None => forall|j: int| i <= j < s.len() ==> (#[trigger] s[j]).file_path != file,
        },
    decreases s.len() - i,
{
    if i < s.len() && s[i].file_path != file {
        lemma_entry(s, file, i + 1);
    }
}

/// A commit counts once for the file that it changed, with the lines that it changed, and does
/// nothing to other files; a file that was not there before is added at the end.
pub proof fn law_commits_count_for_their_file(
    s: Seq<ChurnView>,
    file: Seq<char>,
    changed: u32,
    k: int,
)
    requires
        churn::is_ledger(s),
        churn::has_room(s, file, changed),
        0 <= k < churn::recorded(s, file, changed).len(),
    ensures
        ({
            let after = churn::recorded(s, file, changed);
            let known = exists|j: int| 0 <= j < s.len() && (#[trigger] s[j]).file_path == file;
            &&& known ==> after.len() == s.len()
            &&& !known ==> after.len() == s.len() + 1 && after.last().file_path == file
            &&& k < s.len() ==> after[k].file_path == s[k].file_path
            &&& after[k].file_path != file ==> k < s.len() && after[k] == s[k]
            &&& after[k].file_path == file && k < s.len() ==> after[k].commit_count
                == s[k].commit_count + 1 && after[k].lines_changed == s[k].lines_changed + changed
            &&& k >= s.len() ==> after[k].commit_count == 1 && after[k].lines_changed == changed
        }),
{
    lemma_entry(s, file, 0);
    match churn::entry_from(s, file, 0) {
        Some(i) => {
            assert(s[i].file_path == file);
            assert(churn::raw_churn(s[i]) + 1 + changed <= u32::MAX);
            if k != i && s[k].file_path == file {
                if k < i {
                    assert(s[k].file_path != s[i].file_path);
                } else {
                    assert(s[i].file_path != s[k].file_path);
                }
            }
        },
        None => {},
    }
}

/// No file has changed more than the top says, and one has changed as much.
pub proof fn law_top_churn(s: Seq<ChurnView>, n: int)
    requires
        0 < n <= s.len(),
    ensures
        forall|i: int|
            0 <= i < n ==> churn::raw_churn(#[trigger] s[i]) <= churn::top_churn(s, n),
        exists|i: int| 0 <= i < n && churn::raw_churn(#[trigger] s[i]) == churn::top_churn(s, n),
    decreases n,
{
    if n > 1 {
        law_top_churn(s, n - 1);
        let k = choose|k: int|
            0 <= k < n - 1 && churn::raw_churn(#[trigger] s[k]) == churn::top_churn(s, n - 1);
        if churn::raw_churn(s[n - 1]) > churn::top_churn(s, n - 1) {
            assert(churn::raw_churn(s[n - 1]) == churn::top_churn(s, n));
        } else {
            assert(churn::raw_churn(s[k]) == churn::top_churn(s, n));
        }
    } else {
        assert(churn::raw_churn(s[0]) == churn::top_churn(s, n));
    }
}

/// The line of a symbol names its kind, its name and its lines.
pub proof fn law_symbol_lines_name_the_symbol(s: SymbolView)
    ensures
        find::has_text(crate::repo::map::symbol_line(s), symbols::kind_label(s.kind)),
        find::has_text(crate::repo::map::symbol_line(s), s.name),
        find::has_text(
            crate::repo::map::symbol_line(s),
            "L"@ + number::decimal(s.line_start as nat) + "-L"@ + number::decimal(
                s.line_end as nat,
            ),
        ),
{
    reveal_strlit(" (L");
    reveal_strlit("L");
    let l = crate::repo::map::symbol_line(s);
    let kind = symbols::kind_label(s.kind);
    let span = "L"@ + number::decimal(s.line_start as nat) + "-L"@ + number::decimal(
        s.line_end as nat,
    );
    let a = "  "@;
    let b = a + kind + " "@;
    let c = b + s.name;
    assert(l.subrange(a.len() as int, a.len() as int + kind.len()) =~= kind);
    assert(find::occurs_at(l, kind, a.len() as int));
    assert(l.subrange(b.len() as int, b.len() as int + s.name.len()) =~= s.name);
    assert(find::occurs_at(l, s.name, b.len() as int));
    assert(l.subrange(c.len() as int + 2, c.len() as int + 2 + span.len()) =~= span);
    assert(find::occurs_at(l, span, c.len() as int + 2));
}

/// A map tells how many files and lines were indexed, and holds the sections of all its symbols
/// and every churn score.
pub proof fn law_maps_hold_everything(m: crate::repo::map::RepoMap)
    ensures
        ({
            let t = crate::repo::map::map_text(m);
            &&& find::has_text(t, number::decimal(m.indexed_file_count as nat) + " files, "@)
            &&& find::has_text(t, number::decimal(m.total_lines as nat) + " lines"@)
            &&& find::has_text(
                t,
                crate::repo::map::sections(
                    crate::repo::map::in_order(symbols::symbols_view(m.symbols@)),
                    0,
                ),
            )
            &&& m.churn_scores@.len() > 0 ==> find::has_text(
                t,
                crate::repo::map::churn_lines(m.churn_scores@, m.churn_scores@.len() as int),
            )
        }),
{
    reveal_strlit(" files, ");
    reveal_strlit(" lines) ===\n\n");
    reveal_strlit(" lines");
    let t = crate::repo::map::map_text(m);
    let a = "=== Repository Map ("@;
    let files = number::decimal(m.indexed_file_count as nat) + " files, "@;
    let lines = number::decimal(m.total_lines as nat) + " lines"@;
    let b = a + files;
    assert(t.subrange(a.len() as int, a.len() as int + files.len()) =~= files);
    assert(find::occurs_at(t, files, a.len() as int));
    assert(t.subrange(b.len() as int, b.len() as int + lines.len()) =~= lines);
    assert(find::occurs_at(t, lines, b.len() as int));
    let c = crate::repo::map::map_head(m) + crate::repo::map::map_languages(m);
    let s = crate::repo::map::sections(
        crate::repo::map::in_order(symbols::symbols_view(m.symbols@)),
        0,
    );
    assert(t.subrange(c.len() as int, c.len() as int + s.len()) =~= s);
    assert(find::occurs_at(t, s, c.len() as int));
    if m.churn_scores@.len() > 0 {
        let d = c + s + "=== Churn Scores ===\n\n"@;
        let x = crate::repo::map::churn_lines(m.churn_scores@, m.churn_scores@.len() as int);
        assert(t.subrange(d.len() as int, d.len() as int + x.len()) =~= x);
        assert(find::occurs_at(t, x, d.len() as int));
    }
}

} // verus!
