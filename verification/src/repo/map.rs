//! The repository map: symbols, file counts and churn, and its text form.
use crate::repo::error::RepoError;
use crate::repo::languages;
use crate::repo::languages::{Language, RepoLanguages};
use crate::repo::rust_symbols;
use crate::repo::rust_symbols::parse_file;
use crate::repo::symbols;
use crate::repo::symbols::{sort_symbols, symbol_before, Symbol, SymbolView};
use crate::repo::typescript_symbols;
use crate::repo::typescript_symbols::parse_typescript_file;
use crate::text::chars;
use crate::text::chars::{own, same};
use crate::text::number;
use crate::text::number::{format_u64, format_usize};
use crate::text::split;
use crate::text::split::{join, lines};
use vstd::prelude::*;
use vstd::string::*;

verus! {

broadcast use {
    symbols::lemma_symbols_push,
    chars::lemma_texts_push,
    chars::lemma_texts_empty,
};

/// A source file of the repository.
pub struct SourceFile {
    pub path: String,
    pub extension: String,
    pub content: String,
}

/// What a [`SourceFile`] stands for.
#[verifier::ext_equal]
pub struct FileView {
    pub path: Seq<char>,
    pub extension: Seq<char>,
    pub content: Seq<char>,
}

impl View for SourceFile {
    type V = FileView;

    open spec fn view(&self) -> FileView {
        FileView {
            path: self.path@,
            extension: self.extension@,
            content: self.content@,
        }
    }
}

/// What a sequence of files stands for.
pub open spec fn files_view(v: Seq<SourceFile>) -> Seq<FileView> {
    Seq::new(v.len(), |i: int| v[i]@)
}

/// Whether every file is small enough for the parser.
pub open spec fn files_fit(files: Seq<FileView>) -> bool {
    forall|i: int| 0 <= i < files.len() ==> rust_symbols::fits_parser((#[trigger] files[i]).content)
}

/// The symbols of a source text in the given language.
pub open spec fn symbols_in(path: Seq<char>, content: Seq<char>, l: Language) -> Seq<SymbolView> {
    match l {
        Language::Rust => rust_symbols::all_item_symbols(
            path,
            rust_symbols::items_of(rust_symbols::rust_nodes(content).unwrap()),
        ),
        Language::TypeScript => typescript_symbols::source_symbols(path, content),
        _ => Seq::<SymbolView>::empty(),
    }
}

/// Whether the file at `i` is indexed but has no syntax tree.
pub open spec fn unparsed_at(files: Seq<FileView>, langs: RepoLanguages, i: int) -> bool {
    langs.visits(files[i].extension) == Some(Language::Rust) && rust_symbols::rust_nodes(
        files[i].content,
    ) is None
}

/// Whether one of the first `n` files declares the symbol.
pub open spec fn declared(files: Seq<FileView>, langs: RepoLanguages, n: int, s: SymbolView) -> bool {
    exists|i: int|
        0 <= i < n && langs.visits((#[trigger] files[i]).extension) is Some && symbols_in(
            files[i].path,
            files[i].content,
            langs.visits(files[i].extension).unwrap(),
        ).contains(s)
}

/// The symbols of a source text in the given language. Rust is parsed, with its symbols in the
/// order of the source; TypeScript is scanned, with its symbols sorted; and the other languages
/// have no symbols yet.
pub fn parse_file_for_language(path: &str, source: &str, language: Language) -> (r: Result<
    Vec<Symbol>,
    RepoError,
>)
    requires
        rust_symbols::fits_parser(source@),
    ensures
        match r {
            Ok(found) => !(language == Language::Rust && rust_symbols::rust_nodes(source@) is None)
                && symbols::same_symbols(
                symbols::symbols_view(found@),
                symbols_in(path@, source@, language),
            ) && if language == Language::TypeScript {
                symbols::ascending(symbols::symbols_view(found@))
            } else {
                symbols::symbols_view(found@) == symbols_in(path@, source@, language)
            },
            Err(e) => language == Language::Rust && rust_symbols::rust_nodes(source@) is None && (
            e matches RepoError::ParseFailed(p) && p@ == path@),
        },
{
    match language {
        Language::Rust => parse_file(path, source),
        Language::TypeScript => {
            proof {
                let b = vstd::utf8::encode_utf8(source@);
                typescript_symbols::lemma_newlines_bound(b, b.len() as int);
            }
            Ok(parse_typescript_file(path, source))
        },
        _ => {
            let none: Vec<Symbol> = Vec::new();
            proof {
                assert(symbols::symbols_view(none@) =~= Seq::<SymbolView>::empty());
            }
            Ok(none)
        },
    }
}

proof fn lemma_contains_concat(a: Seq<SymbolView>, b: Seq<SymbolView>, x: SymbolView)
    ensures
        (a + b).contains(x) <==> (a.contains(x) || b.contains(x)),
{
    if (a + b).contains(x) {
        let k = choose|k: int| 0 <= k < (a + b).len() && (a + b)[k] == x;
        if k < a.len() {
            assert(a[k] == x);
        } else {
            assert(b[k - a.len()] == x);
        }
    }
    if a.contains(x) {
        let k = choose|k: int| 0 <= k < a.len() && a[k] == x;
        assert((a + b)[k] == x);
    }
    if b.contains(x) {
        let k = choose|k: int| 0 <= k < b.len() && b[k] == x;
        assert((a + b)[a.len() + k] == x);
    }
}

/// The symbols of all indexed files, sorted and without repetition; the error of the first
/// Rust file that cannot be parsed, if there is one.
pub fn parse_directory_with_languages(files: &[SourceFile], languages: &RepoLanguages) -> (r: Result<
    Vec<Symbol>,
    RepoError,
>)
    requires
        files_fit(files_view(files@)),
    ensures
        match r {
            Ok(found) => {
                &&& forall|i: int|
                    0 <= i < files@.len() ==> !#[trigger] unparsed_at(
                        files_view(files@),
                        *languages,
                        i,
                    )
                &&& symbols::ascending(symbols::symbols_view(found@))
                &&& forall|s: SymbolView| #[trigger]
                    symbols::symbols_view(found@).contains(s) <==> declared(
                        files_view(files@),
                        *languages,
                        files@.len() as int,
                        s,
                    )
            },
            Err(e) => exists|i: int|
                0 <= i < files@.len() && #[trigger] unparsed_at(files_view(files@), *languages, i)
                    && (forall|j: int|
                    0 <= j < i ==> !#[trigger] unparsed_at(files_view(files@), *languages, j)) && (
                e matches RepoError::ParseFailed(p) && p@ == files_view(files@)[i].path),
        },
{
    let ghost all = files_view(files@);
    let ghost langs = *languages;
    let mut found: Vec<Symbol> = Vec::new();
    let mut i: usize = 0;
    proof {
        assert(symbols::symbols_view(found@) =~= Seq::<SymbolView>::empty());
    }
    while i < files.len()
        invariant
            all == files_view(files@),
            files_fit(all),
            langs == *languages,
            i <= files@.len(),
            forall|j: int| 0 <= j < i ==> !#[trigger] unparsed_at(all, langs, j),
            forall|s: SymbolView| #[trigger]
                symbols::symbols_view(found@).contains(s) <==> declared(all, langs, i as int, s),
        decreases files@.len() - i,
    {
        let ghost before = symbols::symbols_view(found@);
        proof {
            assert(all[i as int] == files@[i as int]@);
            assert(rust_symbols::fits_parser(all[i as int].content));
        }
        match languages.indexed_language(files[i].extension.as_str()) {
            Some(language) => {
                match parse_file_for_language(
                    files[i].path.as_str(),
                    files[i].content.as_str(),
                    language,
                ) {
                    Ok(mut more) => {
                        let ghost added = symbols::symbols_view(more@);
                        let ghost head = found@;
                        let ghost tail = more@;
                        found.append(&mut more);
                        proof {
                            assert(symbols::symbols_view(found@) =~= symbols::symbols_view(head)
                                + symbols::symbols_view(tail));
                            assert(!unparsed_at(all, langs, i as int));
                            assert forall|s: SymbolView| #[trigger] symbols::symbols_view(
                                found@,
                            ).contains(s) <==> declared(all, langs, i + 1, s) by {
                                lemma_contains_concat(before, added, s);
                                assert(added.contains(s) <==> symbols_in(
                                    all[i as int].path,
                                    all[i as int].content,
                                    language,
                                ).contains(s));
                                assert(before.contains(s) <==> declared(all, langs, i as int, s));
                                if declared(all, langs, i + 1, s) && !declared(
                                    all,
                                    langs,
                                    i as int,
                                    s,
                                ) {
                                    let k = choose|k: int|
                                        0 <= k < i + 1 && langs.visits(
                                            (#[trigger] all[k]).extension,
                                        ) is Some && symbols_in(
                                            all[k].path,
                                            all[k].content,
                                            langs.visits(all[k].extension).unwrap(),
                                        ).contains(s);
                                    assert(k == i);
                                }
                            }
                        }
                    },
                    Err(e) => {
                        proof {
                            assert(unparsed_at(all, langs, i as int));
                        }
                        return Err(e);
                    },
                }
            },
            None => {
                proof {
                    assert(!unparsed_at(all, langs, i as int));
                    assert forall|s: SymbolView| #[trigger] symbols::symbols_view(found@).contains(
                        s,
                    ) <==> declared(all, langs, i + 1, s) by {
                        assert(before.contains(s) <==> declared(all, langs, i as int, s));
                        if declared(all, langs, i + 1, s) {
                            let k = choose|k: int|
                                0 <= k < i + 1 && langs.visits((#[trigger] all[k]).extension)
                                    is Some && symbols_in(
                                    all[k].path,
                                    all[k].content,
                                    langs.visits(all[k].extension).unwrap(),
                                ).contains(s);
                            assert(k < i);
                        }
                    }
                }
            },
        }
        i = i + 1;
    }
    let ghost collected = symbols::symbols_view(found@);
    let sorted = sort_symbols(found);
    proof {
        assert forall|s: SymbolView| #[trigger] symbols::symbols_view(sorted@).contains(s)
            <==> declared(all, langs, files@.len() as int, s) by {
            assert(symbols::symbols_view(sorted@).contains(s) <==> collected.contains(s));
        }
    }
    Ok(sorted)
}

/// The symbols of all Rust files, sorted and without repetition.
pub fn parse_directory(files: &[SourceFile]) -> (r: Result<Vec<Symbol>, RepoError>)
    requires
        files_fit(files_view(files@)),
    ensures
        match r {
            Ok(found) => {
                &&& forall|i: int|
                    0 <= i < files@.len() ==> !#[trigger] unparsed_at(
                        files_view(files@),
                        only_rust(),
                        i,
                    )
                &&& symbols::ascending(symbols::symbols_view(found@))
                &&& forall|s: SymbolView| #[trigger]
                    symbols::symbols_view(found@).contains(s) <==> declared(
                        files_view(files@),
                        only_rust(),
                        files@.len() as int,
                        s,
                    )
            },
            Err(e) => exists|i: int|
                0 <= i < files@.len() && #[trigger] unparsed_at(files_view(files@), only_rust(), i)
                    && (forall|j: int|
                    0 <= j < i ==> !#[trigger] unparsed_at(files_view(files@), only_rust(), j)) && (
                e matches RepoError::ParseFailed(p) && p@ == files_view(files@)[i].path),
        },
{
    let languages = RepoLanguages::default();
    proof {
        assert(languages == only_rust());
    }
    parse_directory_with_languages(files, &languages)
}

/// The default choice of languages.
pub open spec fn only_rust() -> RepoLanguages {
    RepoLanguages { rust: true, python: false, typescript: false, go: false, java: false }
}

/// How many files of each language were indexed.
#[derive(Debug, Clone, Copy, PartialEq, Eq, Structural)]
pub struct LanguageCounts {
    pub rust: usize,
    pub python: usize,
    pub typescript: usize,
    pub go: usize,
    pub java: usize,
}

impl LanguageCounts {
    /// The count of one language.
    pub open spec fn of(self, l: Language) -> nat {
        match l {
            Language::Rust => self.rust as nat,
            Language::Python => self.python as nat,
            Language::TypeScript => self.typescript as nat,
            Language::Go => self.go as nat,
            Language::Java => self.java as nat,
        }
    }

    /// The count of one language, or `None` where no file of it was indexed.
    pub fn get(&self, l: Language) -> (r: Option<usize>)
        ensures
            r == (if self.of(l) > 0 {
                Some(self.of(l) as usize)
            } else {
                None
            }),
    {
        let n = match l {
            Language::Rust => self.rust,
            Language::Python => self.python,
            Language::TypeScript => self.typescript,
            Language::Go => self.go,
            Language::Java => self.java,
        };
        if n > 0 {
            Some(n)
        } else {
            None
        }
    }

    /// Counts one more file of a language.
    fn count(&mut self, l: Language)
        requires
            old(self).of(l) < usize::MAX,
        ensures
            forall|k: Language| #[trigger]
                final(self).of(k) == old(self).of(k) + (if k == l {
                    1nat
                } else {
                    0nat
                }),
    {
        match l {
            Language::Rust => {
                self.rust = self.rust + 1;
            },
            Language::Python => {
                self.python = self.python + 1;
            },
            Language::TypeScript => {
                self.typescript = self.typescript + 1;
            },
            Language::Go => {
                self.go = self.go + 1;
            },
            Language::Java => {
                self.java = self.java + 1;
            },
        }
    }
}

/// How much a file changed recently.
#[derive(Debug, Clone, PartialEq, Eq)]
pub struct ChurnScore {
    /// Path of the file from the root of the repository.
    pub file_path: String,
    /// Number of commits that touched the file.
    pub commit_count: u32,
    /// Lines added and deleted in those commits.
    pub lines_changed: u32,
    /// The score relative to the file that changed most, written with two decimals.
    pub normalized_score: String,
}

/// A compact summary of a codebase.
#[derive(Debug, Clone)]
pub struct RepoMap {
    /// The symbols of all indexed files.
    pub symbols: Vec<Symbol>,
    /// Churn per file.
    pub churn_scores: Vec<ChurnScore>,
    /// Number of indexed files.
    pub indexed_file_count: usize,
    /// Number of indexed files per language.
    pub language_file_counts: LanguageCounts,
    /// Number of lines of all indexed files.
    pub total_lines: usize,
}

/// How many of the first `n` files are indexed as the given language.
pub open spec fn indexed_as(files: Seq<FileView>, langs: RepoLanguages, l: Language, n: int) -> nat
    decreases n,
{
    if n <= 0 {
        0
    } else {
        indexed_as(files, langs, l, n - 1) + (if langs.visits(files[n - 1].extension) == Some(l) {
            1nat
        } else {
            0nat
        })
    }
}

/// How many of the first `n` files are indexed.
pub open spec fn indexed(files: Seq<FileView>, langs: RepoLanguages, n: int) -> nat
    decreases n,
{
    if n <= 0 {
        0
    } else {
        indexed(files, langs, n - 1) + (if langs.visits(files[n - 1].extension) is Some {
            1nat
        } else {
            0nat
        })
    }
}

/// How many lines the indexed ones of the first `n` files have.
pub open spec fn indexed_lines(files: Seq<FileView>, langs: RepoLanguages, n: int) -> nat
    decreases n,
{
    if n <= 0 {
        0
    } else {
        indexed_lines(files, langs, n - 1) + (if langs.visits(files[n - 1].extension) is Some {
            split::lines_of(files[n - 1].content).len()
        } else {
            0
        })
    }
}

proof fn lemma_counts_bound(files: Seq<FileView>, langs: RepoLanguages, l: Language, n: int)
    requires
        0 <= n,
    ensures
        indexed_as(files, langs, l, n) <= n,
        indexed(files, langs, n) <= n,
    decreases n,
{
    if n > 0 {
        lemma_counts_bound(files, langs, l, n - 1);
    }
}

proof fn lemma_lines_grow(files: Seq<FileView>, langs: RepoLanguages, n: int, m: int)
    requires
        0 <= n <= m,
    ensures
        indexed_lines(files, langs, n) <= indexed_lines(files, langs, m),
    decreases m - n,
{
    if n < m {
        lemma_lines_grow(files, langs, n, m - 1);
    }
}

/// Whether this is what mapping a repository gives: the map, or the first file that has no
/// syntax tree.
pub open spec fn is_map(
    r: Result<RepoMap, RepoError>,
    files: Seq<FileView>,
    langs: RepoLanguages,
    churn: Vec<ChurnScore>,
) -> bool {
    match r {
        Ok(map) => {
            &&& forall|i: int|
                0 <= i < files.len() ==> !#[trigger] unparsed_at(
                    files,
                    langs,
                    i,
                )
            &&& symbols::ascending(symbols::symbols_view(map.symbols@))
            &&& forall|s: SymbolView| #[trigger]
                symbols::symbols_view(map.symbols@).contains(s) <==> declared(
                    files,
                    langs,
                    files.len() as int,
                    s,
                )
            &&& map.churn_scores == churn
            &&& map.indexed_file_count == indexed(
                files,
                langs,
                files.len() as int,
            )
            &&& forall|l: Language| #[trigger]
                map.language_file_counts.of(l) == indexed_as(
                    files,
                    langs,
                    l,
                    files.len() as int,
                )
            &&& map.total_lines == indexed_lines(
                files,
                langs,
                files.len() as int,
            )
        },
        Err(e) => exists|i: int|
            0 <= i < files.len() && #[trigger] unparsed_at(files, langs, i)
                && (forall|j: int|
                0 <= j < i ==> !#[trigger] unparsed_at(files, langs, j)) && (
            e matches RepoError::ParseFailed(p) && p@ == files[i].path),
    }
}

/// Builds the map of a repository from its source files and its churn.
pub fn build_repo_map_with_languages(
    files: &[SourceFile],
    languages: &RepoLanguages,
    churn_scores: Vec<ChurnScore>,
) -> (r: Result<RepoMap, RepoError>)
    requires
        files_fit(files_view(files@)),
        indexed_lines(files_view(files@), *languages, files@.len() as int) <= usize::MAX,
    ensures
        is_map(r, files_view(files@), *languages, churn_scores),
{
    let found = match parse_directory_with_languages(files, languages) {
        Ok(found) => found,
        Err(e) => {
            return Err(e);
        },
    };
    let ghost all = files_view(files@);
    let ghost langs = *languages;
    let n: usize = files.len();
    let mut counts = LanguageCounts { rust: 0, python: 0, typescript: 0, go: 0, java: 0 };
    let mut indexed_file_count: usize = 0;
    let mut total_lines: usize = 0;
    let mut i: usize = 0;
    while i < n
        invariant
            all == files_view(files@),
            langs == *languages,
            n == all.len(),
            i <= n,
            indexed_lines(all, langs, n as int) <= usize::MAX,
            indexed_file_count == indexed(all, langs, i as int),
            forall|l: Language| #[trigger] counts.of(l) == indexed_as(all, langs, l, i as int),
            total_lines == indexed_lines(all, langs, i as int),
        decreases n - i,
    {
        proof {
            assert(all[i as int] == files@[i as int]@);
            lemma_counts_bound(all, langs, Language::Rust, i as int);
            lemma_lines_grow(all, langs, i + 1, n as int);
        }
        match languages.indexed_language(files[i].extension.as_str()) {
            Some(l) => {
                proof {
                    lemma_counts_bound(all, langs, l, i as int);
                }
                let ls = lines(files[i].content.as_str());
                proof {
                    assert(split::lines_of(all[i as int].content).len() == ls@.len());
                }
                indexed_file_count = indexed_file_count + 1;
                counts.count(l);
                total_lines = total_lines + ls.len();
            },
            None => {},
        }
        i = i + 1;
    }
    Ok(
        RepoMap {
            symbols: found,
            churn_scores,
            indexed_file_count,
            language_file_counts: counts,
            total_lines,
        },
    )
}

/// Builds the map of the Rust files of a repository.
pub fn build_repo_map(files: &[SourceFile], churn_scores: Vec<ChurnScore>) -> (r: Result<
    RepoMap,
    RepoError,
>)
    requires
        files_fit(files_view(files@)),
        indexed_lines(files_view(files@), only_rust(), files@.len() as int) <= usize::MAX,
    ensures
        is_map(r, files_view(files@), only_rust(), churn_scores),
{
    let languages = RepoLanguages::default();
    proof {
        assert(languages == only_rust());
    }
    build_repo_map_with_languages(files, &languages, churn_scores)
}

/// The first position at or after `i` where the symbol can be put without disorder.
pub open spec fn place_from(sorted: Seq<SymbolView>, s: SymbolView, i: int) -> int
    decreases sorted.len() - i,
{
    if 0 <= i < sorted.len() && !symbols::symbol_less(s, sorted[i]) {
        place_from(sorted, s, i + 1)
    } else {
        i
    }
}

/// All symbols in their order, repetitions included.
pub open spec fn in_order(s: Seq<SymbolView>) -> Seq<SymbolView>
    decreases s.len(),
{
    if s.len() == 0 {
        Seq::<SymbolView>::empty()
    } else {
        let before = in_order(s.drop_last());
        before.insert(place_from(before, s.last(), 0), s.last())
    }
}

/// The end of the run of symbols of one file that begins at `i`.
pub open spec fn run_end(s: Seq<SymbolView>, file: Seq<char>, i: int) -> int
    decreases s.len() - i,
{
    if 0 <= i < s.len() && s[i].file_path == file {
        run_end(s, file, i + 1)
    } else {
        i
    }
}

/// The line that shows a symbol.
pub open spec fn symbol_line(s: SymbolView) -> Seq<char> {
    "  "@ + symbols::kind_label(s.kind) + " "@ + s.name + " (L"@ + number::decimal(
        s.line_start as nat,
    ) + "-L"@ + number::decimal(s.line_end as nat) + ")\n"@
}

/// The lines that show the symbols from `i` up to `end`.
pub open spec fn symbol_lines(s: Seq<SymbolView>, i: int, end: int) -> Seq<char>
    decreases end - i,
{
    if i < 0 || i >= end || i >= s.len() {
        Seq::<char>::empty()
    } else {
        symbol_line(s[i]) + symbol_lines(s, i + 1, end)
    }
}

/// The head of a file's section.
pub open spec fn file_head(file: Seq<char>) -> Seq<char> {
    "--- "@ + file + " ---\n"@
}

/// The sections of the files from position `i` of the ordered symbols on.
pub open spec fn sections(s: Seq<SymbolView>, i: int) -> Seq<char>
    decreases s.len() - i,
{
    if i < 0 || i >= s.len() {
        Seq::<char>::empty()
    } else {
        let end = run_end(s, s[i].file_path, i + 1);
        proof {
            lemma_run_end(s, s[i].file_path, i + 1);
        }
        file_head(s[i].file_path) + symbol_lines(s, i, end) + "\n"@ + sections(s, end)
    }
}

/// A run ends at or after its start and inside the list.
pub proof fn lemma_run_end(s: Seq<SymbolView>, file: Seq<char>, i: int)
    requires
        0 <= i <= s.len(),
    ensures
        i <= run_end(s, file, i) <= s.len(),
    decreases s.len() - i,
{
    if i < s.len() && s[i].file_path == file {
        lemma_run_end(s, file, i + 1);
    }
}

/// The count of one language as it is shown, if there is any.
pub open spec fn count_text(counts: LanguageCounts, l: Language) -> Seq<Seq<char>> {
    if counts.of(l) > 0 {
        seq![languages::language_name(l) + "="@ + number::decimal(counts.of(l))]
    } else {
        Seq::<Seq<char>>::empty()
    }
}

/// The counts that are shown, in the order of the language names.
pub open spec fn count_texts(counts: LanguageCounts) -> Seq<Seq<char>> {
    count_text(counts, Language::Go) + count_text(counts, Language::Java) + count_text(
        counts,
        Language::Python,
    ) + count_text(counts, Language::Rust) + count_text(counts, Language::TypeScript)
}

/// The line that shows the churn of a file.
pub open spec fn churn_line(c: ChurnScore) -> Seq<char> {
    "  "@ + c.file_path@ + ": score="@ + c.normalized_score@ + ", commits="@ + number::decimal(
        c.commit_count as nat,
    ) + ", lines_changed="@ + number::decimal(c.lines_changed as nat) + "\n"@
}

/// The lines that show the first `n` churn scores.
pub open spec fn churn_lines(v: Seq<ChurnScore>, n: int) -> Seq<char>
    decreases n,
{
    if n <= 0 {
        Seq::<char>::empty()
    } else {
        churn_lines(v, n - 1) + churn_line(v[n - 1])
    }
}

/// The head of the map.
pub open spec fn map_head(map: RepoMap) -> Seq<char> {
    "=== Repository Map ("@ + number::decimal(map.indexed_file_count as nat) + " files, "@
        + number::decimal(map.total_lines as nat) + " lines) ===\n\n"@
}

/// The line that shows the languages, if any file was indexed.
pub open spec fn map_languages(map: RepoMap) -> Seq<char> {
    if count_texts(map.language_file_counts).len() == 0 {
        Seq::<char>::empty()
    } else {
        "Languages indexed: "@ + split::joined(count_texts(map.language_file_counts), ", "@)
            + "\n\n"@
    }
}

/// The churn section, if there is any churn.
pub open spec fn map_churn(map: RepoMap) -> Seq<char> {
    if map.churn_scores@.len() == 0 {
        Seq::<char>::empty()
    } else {
        "=== Churn Scores ===\n\n"@ + churn_lines(
            map.churn_scores@,
            map.churn_scores@.len() as int,
        ) + "\n"@
    }
}

/// The text form of a repository map.
pub open spec fn map_text(map: RepoMap) -> Seq<char> {
    map_head(map) + map_languages(map) + sections(
        in_order(symbols::symbols_view(map.symbols@)),
        0,
    ) + map_churn(map)
}

/// Whether no symbol comes before one that it follows.
pub open spec fn not_descending(s: Seq<SymbolView>) -> bool {
    forall|i: int, j: int| 0 <= i < j < s.len() ==> !symbols::symbol_less(
        #[trigger] s[j],
        #[trigger] s[i],
    )
}

proof fn lemma_place(sorted: Seq<SymbolView>, s: SymbolView, i: int)
    requires
        0 <= i <= sorted.len(),
    ensures
        i <= place_from(sorted, s, i) <= sorted.len(),
        forall|j: int|
            i <= j < place_from(sorted, s, i) ==> !symbols::symbol_less(s, #[trigger] sorted[j]),
        place_from(sorted, s, i) < sorted.len() ==> symbols::symbol_less(
            s,
            sorted[place_from(sorted, s, i)],
        ),
    decreases sorted.len() - i,
{
    if i < sorted.len() && !symbols::symbol_less(s, sorted[i]) {
        lemma_place(sorted, s, i + 1);
    }
}

/// The ordered symbols are the same symbols, as often as they were given, and none comes
/// before one that it follows.
pub proof fn law_in_order_sorts(s: Seq<SymbolView>)
    ensures
        not_descending(in_order(s)),
        in_order(s).to_multiset() == s.to_multiset(),
        in_order(s).len() == s.len(),
    decreases s.len(),
{
    if s.len() == 0 {
        assert(in_order(s) =~= s);
    } else {
        law_in_order_sorts(s.drop_last());
        let before = in_order(s.drop_last());
        let x = s.last();
        let at = place_from(before, x, 0);
        lemma_place(before, x, 0);
        let after = before.insert(at, x);
        assert forall|i: int, j: int| 0 <= i < j < after.len() implies !symbols::symbol_less(
            #[trigger] after[j],
            #[trigger] after[i],
        ) by {
            if j < at {
            } else if i < at && j == at {
            } else if i < at {
                assert(after[j] == before[j - 1]);
            } else if i == at {
                assert(after[j] == before[j - 1]);
                symbols::lemma_less_around(x, before[at], before[j - 1]);
            } else {
                assert(after[i] == before[i - 1] && after[j] == before[j - 1]);
            }
        }
        vstd::seq_lib::to_multiset_insert(before, at, x);
        assert(s =~= s.drop_last().push(x));
        vstd::seq_lib::to_multiset_build(s.drop_last(), x);
    }
}

fn copy_symbol(s: &Symbol) -> (r: Symbol)
    ensures
        r@ == s@,
{
    Symbol {
        name: own(s.name.as_str()),
        kind: s.kind,
        file_path: own(s.file_path.as_str()),
        line_start: s.line_start,
        line_end: s.line_end,
    }
}

fn order_symbols(v: &[Symbol]) -> (r: Vec<Symbol>)
    ensures
        symbols::symbols_view(r@) == in_order(symbols::symbols_view(v@)),
{
    let ghost all = symbols::symbols_view(v@);
    let mut out: Vec<Symbol> = Vec::new();
    let mut i: usize = 0;
    proof {
        assert(all.take(0) =~= Seq::<SymbolView>::empty());
        assert(symbols::symbols_view(out@) =~= Seq::<SymbolView>::empty());
    }
    while i < v.len()
        invariant
            all == symbols::symbols_view(v@),
            i <= v@.len(),
            symbols::symbols_view(out@) == in_order(all.take(i as int)),
        decreases v@.len() - i,
    {
        let ghost sorted = symbols::symbols_view(out@);
        let ghost x = v@[i as int]@;
        let mut at: usize = 0;
        while at < out.len() && !symbol_before(&v[i], &out[at])
            invariant
                i < v@.len(),
                x == v@[i as int]@,
                sorted == symbols::symbols_view(out@),
                at <= out@.len(),
                place_from(sorted, x, 0) == place_from(sorted, x, at as int),
            decreases out@.len() - at,
        {
            at = at + 1;
        }
        out.insert(at, copy_symbol(&v[i]));
        proof {
            assert(symbols::symbols_view(out@) =~= sorted.insert(at as int, x));
            assert(all.take(i + 1).drop_last() =~= all.take(i as int));
            assert(all.take(i + 1).last() == x);
        }
        i = i + 1;
    }
    proof {
        assert(all.take(all.len() as int) =~= all);
    }
    out
}

fn push_symbol_line(out: &mut String, s: &Symbol)
    ensures
        final(out)@ == old(out)@ + symbol_line(s@),
{
    let ghost start = out@;
    out.append("  ");
    out.append(s.kind.as_str());
    out.append(" ");
    out.append(s.name.as_str());
    out.append(" (L");
    out.append(format_u64(s.line_start as u64).as_str());
    out.append("-L");
    out.append(format_u64(s.line_end as u64).as_str());
    out.append(")\n");
    proof {
        assert(out@ =~= start + symbol_line(s@));
    }
}

fn push_sections(out: &mut String, ordered: &[Symbol])
    ensures
        final(out)@ == old(out)@ + sections(symbols::symbols_view(ordered@), 0),
{
    let ghost start = out@;
    let ghost s = symbols::symbols_view(ordered@);
    let n: usize = ordered.len();
    let mut i: usize = 0;
    while i < n
        invariant
            s == symbols::symbols_view(ordered@),
            n == s.len(),
            i <= n,
            start + sections(s, 0) == out@ + sections(s, i as int),
        decreases n - i,
    {
        let ghost before = out@;
        let ghost file = s[i as int].file_path;
        let ghost end = run_end(s, file, i + 1);
        proof {
            assert(s[i as int] == ordered@[i as int]@);
            lemma_run_end(s, file, i + 1);
        }
        out.append("--- ");
        out.append(ordered[i].file_path.as_str());
        out.append(" ---\n");
        proof {
            assert(out@ =~= before + file_head(file));
        }
        let first: usize = i;
        push_symbol_line(out, &ordered[i]);
        let mut k: usize = i + 1;
        proof {
            assert(out@ + symbol_lines(s, k as int, end) =~= before + file_head(file)
                + symbol_lines(s, first as int, end));
        }
        while k < n && same(ordered[k].file_path.as_str(), ordered[first].file_path.as_str())
            invariant
                s == symbols::symbols_view(ordered@),
                n == s.len(),
                first < k <= n,
                file == ordered@[first as int]@.file_path,
                end == run_end(s, file, first + 1),
                end == run_end(s, file, k as int),
                end <= n,
                out@ + symbol_lines(s, k as int, end) == before + file_head(file) + symbol_lines(
                    s,
                    first as int,
                    end,
                ),
            decreases n - k,
        {
            let ghost prior = out@;
            proof {
                assert(s[k as int] == ordered@[k as int]@);
                lemma_run_end(s, file, k + 1);
            }
            push_symbol_line(out, &ordered[k]);
            proof {
                assert(prior + (symbol_line(s[k as int]) + symbol_lines(s, k + 1, end)) =~= out@
                    + symbol_lines(s, k + 1, end));
            }
            k = k + 1;
        }
        proof {
            if k < n {
                assert(s[k as int] == ordered@[k as int]@);
            }
            assert(end == k);
            assert(symbol_lines(s, k as int, end) =~= Seq::<char>::empty());
            assert(out@ =~= before + file_head(file) + symbol_lines(s, first as int, end));
        }
        out.append("\n");
        proof {
            assert(before + sections(s, first as int) =~= out@ + sections(s, k as int));
        }
        i = k;
    }
    proof {
        assert(sections(s, i as int) =~= Seq::<char>::empty());
        assert(out@ + Seq::<char>::empty() =~= out@);
    }
}

fn push_count(out: &mut Vec<String>, counts: &LanguageCounts, l: Language)
    ensures
        chars::texts(final(out)@) == chars::texts(old(out)@) + count_text(*counts, l),
{
    let ghost before = chars::texts(out@);
    match counts.get(l) {
        Some(n) => {
            let text = chars::concat3(l.as_str(), "=", format_usize(n).as_str());
            out.push(text);
            proof {
                assert(before.push(text@) =~= before + count_text(*counts, l));
            }
        },
        None => {
            proof {
                assert(before + count_text(*counts, l) =~= before);
            }
        },
    }
}

/// Writes a repository map as text: a head, the languages, the symbols of each file in
/// order, and the churn.
pub fn format_repo_map(map: &RepoMap) -> (r: String)
    ensures
        r@ == map_text(*map),
{
    let mut out: String = String::new();
    out.append("=== Repository Map (");
    out.append(format_usize(map.indexed_file_count).as_str());
    out.append(" files, ");
    out.append(format_usize(map.total_lines).as_str());
    out.append(" lines) ===\n\n");
    proof {
        assert(out@ =~= map_head(*map));
    }
    let mut counts: Vec<String> = Vec::new();
    push_count(&mut counts, &map.language_file_counts, Language::Go);
    push_count(&mut counts, &map.language_file_counts, Language::Java);
    push_count(&mut counts, &map.language_file_counts, Language::Python);
    push_count(&mut counts, &map.language_file_counts, Language::Rust);
    push_count(&mut counts, &map.language_file_counts, Language::TypeScript);
    proof {
        assert(chars::texts(counts@) =~= count_texts(map.language_file_counts));
        assert(counts@.len() == chars::texts(counts@).len());
    }
    if counts.len() > 0 {
        out.append("Languages indexed: ");
        out.append(join(counts.as_slice(), ", ").as_str());
        out.append("\n\n");
    }
    proof {
        assert(out@ =~= map_head(*map) + map_languages(*map));
    }
    let ordered = order_symbols(map.symbols.as_slice());
    push_sections(&mut out, ordered.as_slice());
    let ghost before = out@;
    let n: usize = map.churn_scores.len();
    if n > 0 {
        out.append("=== Churn Scores ===\n\n");
        let mut i: usize = 0;
        proof {
            assert(out@ + Seq::<char>::empty() =~= out@);
        }
        while i < n
            invariant
                n == map.churn_scores@.len(),
                i <= n,
                out@ == before + "=== Churn Scores ===\n\n"@ + churn_lines(
                    map.churn_scores@,
                    i as int,
                ),
            decreases n - i,
        {
            let c = &map.churn_scores[i];
            let ghost prior = out@;
            out.append("  ");
            out.append(c.file_path.as_str());
            out.append(": score=");
            out.append(c.normalized_score.as_str());
            out.append(", commits=");
            out.append(format_u64(c.commit_count as u64).as_str());
            out.append(", lines_changed=");
            out.append(format_u64(c.lines_changed as u64).as_str());
            out.append("\n");
            proof {
                assert(out@ =~= prior + churn_line(*c));
                assert(out@ =~= before + "=== Churn Scores ===\n\n"@ + (churn_lines(
                    map.churn_scores@,
                    i as int,
                ) + churn_line(*c)));
            }
            i = i + 1;
        }
        out.append("\n");
    }
    proof {
        assert(out@ =~= map_text(*map));
    }
    out
}

} // verus!
