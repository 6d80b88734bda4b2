use mercury_cli::repo::{
    build_repo_map, build_repo_map_with_languages, format_repo_map, parse_directory,
    parse_directory_with_languages, parse_file, parse_file_for_language, parse_typescript_file,
    ChurnLedger, ChurnScore, Language, LanguageCounts, PathEntry, RepoError, RepoLanguages,
    RepoMap, RepoRelativePath, SourceFile, Symbol, SymbolKind,
};

/// A small Rust source snippet used by multiple tests.
const SAMPLE_SOURCE: &str = r#"
fn hello() {
    println!("hello");
}

struct Point {
    x: f64,
    y: f64,
}

enum Color {
    Red,
    Green,
    Blue,
}

trait Drawable {
    fn draw(&self);
}

impl Point {
    fn magnitude(&self) -> f64 {
        (self.x * self.x + self.y * self.y).sqrt()
    }
}
"#;

fn counts(rust: usize, typescript: usize) -> LanguageCounts {
    LanguageCounts {
        rust,
        python: 0,
        typescript,
        go: 0,
        java: 0,
    }
}

#[test]
fn test_parse_extracts_function_symbol() {
    let symbols = parse_file("test.rs", SAMPLE_SOURCE).expect("parse should succeed");

    let functions: Vec<&Symbol> = symbols
        .iter()
        .filter(|s| s.kind == SymbolKind::Function)
        .collect();

    let names: Vec<&str> = functions.iter().map(|s| s.name.as_str()).collect();
    assert!(names.contains(&"hello"), "expected 'hello' in {names:?}",);
    assert!(
        names.contains(&"magnitude"),
        "expected 'magnitude' in {names:?}",
    );
}

#[test]
fn test_parse_extracts_struct_symbol() {
    let symbols = parse_file("test.rs", SAMPLE_SOURCE).expect("parse should succeed");

    let structs: Vec<&Symbol> = symbols
        .iter()
        .filter(|s| s.kind == SymbolKind::Struct)
        .collect();

    assert_eq!(structs.len(), 1);
    assert_eq!(structs[0].name, "Point");
}

#[test]
fn test_parse_extracts_enum_symbol() {
    let symbols = parse_file("test.rs", SAMPLE_SOURCE).expect("parse should succeed");

    let enums: Vec<&Symbol> = symbols
        .iter()
        .filter(|s| s.kind == SymbolKind::Enum)
        .collect();

    assert_eq!(enums.len(), 1);
    assert_eq!(enums[0].name, "Color");
}

#[test]
fn test_parse_extracts_trait_symbol() {
    let symbols = parse_file("test.rs", SAMPLE_SOURCE).expect("parse should succeed");

    let traits: Vec<&Symbol> = symbols
        .iter()
        .filter(|s| s.kind == SymbolKind::Trait)
        .collect();

    assert_eq!(traits.len(), 1);
    assert_eq!(traits[0].name, "Drawable");
}

#[test]
fn test_parse_extracts_impl_symbol() {
    let symbols = parse_file("test.rs", SAMPLE_SOURCE).expect("parse should succeed");

    let impls: Vec<&Symbol> = symbols
        .iter()
        .filter(|s| s.kind == SymbolKind::Impl)
        .collect();

    assert_eq!(impls.len(), 1);
    assert_eq!(impls[0].name, "Point");
}

#[test]
fn test_symbol_line_ranges() {
    let symbols = parse_file("test.rs", SAMPLE_SOURCE).expect("parse should succeed");

    let hello = symbols
        .iter()
        .find(|s| s.name == "hello")
        .expect("hello should exist");
    assert_eq!(hello.line_start, 2, "hello should start at line 2");
    assert_eq!(hello.line_end, 4, "hello should end at line 4");

    let point = symbols
        .iter()
        .find(|s| s.name == "Point" && s.kind == SymbolKind::Struct)
        .expect("Point struct should exist");
    assert_eq!(point.line_start, 6, "Point should start at line 6");
    assert_eq!(point.line_end, 9, "Point should end at line 9");
}

#[test]
fn test_parse_empty_source() {
    let symbols = parse_file("empty.rs", "").expect("parsing empty source should succeed");
    assert!(symbols.is_empty());
}

#[test]
fn test_format_repo_map_output() {
    let map = RepoMap {
        symbols: vec![
            Symbol {
                name: "main".to_string(),
                kind: SymbolKind::Function,
                file_path: "src/main.rs".to_string(),
                line_start: 1,
                line_end: 5,
            },
            Symbol {
                name: "Config".to_string(),
                kind: SymbolKind::Struct,
                file_path: "src/config.rs".to_string(),
                line_start: 3,
                line_end: 10,
            },
        ],
        churn_scores: vec![ChurnScore {
            file_path: "src/main.rs".to_string(),
            commit_count: 12,
            lines_changed: 80,
            normalized_score: "1.00".to_string(),
        }],
        indexed_file_count: 2,
        language_file_counts: counts(2, 0),
        total_lines: 150,
    };

    let output = format_repo_map(&map);

    assert!(output.contains("2 files"), "should mention file count",);
    assert!(output.contains("150 lines"), "should mention line count",);
    assert!(output.contains("fn main"), "should list main function",);
    assert!(
        output.contains("struct Config"),
        "should list Config struct",
    );
    assert!(output.contains("Churn Scores"), "should have churn section",);
    assert!(
        output.contains("src/main.rs"),
        "should reference main.rs in churn",
    );
    assert!(
        output.contains("score=1.00"),
        "should show normalised score",
    );
}

#[test]
fn test_format_repo_map_no_churn() {
    let map = RepoMap {
        symbols: vec![],
        churn_scores: vec![],
        indexed_file_count: 0,
        language_file_counts: counts(0, 0),
        total_lines: 0,
    };

    let output = format_repo_map(&map);
    assert!(
        !output.contains("Churn Scores"),
        "should omit churn section when empty",
    );
}

#[test]
fn test_churn_score_fields() {
    let cs = ChurnScore {
        file_path: "lib.rs".to_string(),
        commit_count: 5,
        lines_changed: 42,
        normalized_score: "0.75".to_string(),
    };
    assert_eq!(cs.commit_count, 5);
    assert_eq!(cs.lines_changed, 42);
    assert_eq!(cs.normalized_score, "0.75");
}

#[test]
fn test_parse_typescript_tracks_multiline_symbols_and_ignores_false_positives() {
    let source = r#"const docs = "function fake() {}";
// class CommentOnly {}
/*
interface Hidden {}
*/
export async function loadThing<T>(
  value: T,
): Promise<T> {
  return value;
}

const handler: (
  input: string,
) => Promise<string> = async (
  input: string,
) => {
  return input;
};

const helper = function namedHelper() {
  return 1;
};

const ViewModel = class InternalViewModel {};
"#;

    let symbols = parse_typescript_file("index.ts", source);
    let summary = symbols
        .iter()
        .map(|symbol| {
            (
                symbol.name.as_str(),
                symbol.kind.clone(),
                symbol.line_start,
                symbol.line_end,
            )
        })
        .collect::<Vec<_>>();

    assert_eq!(
        summary,
        vec![
            ("loadThing", SymbolKind::Function, 6, 10),
            ("handler", SymbolKind::Function, 12, 18),
            ("helper", SymbolKind::Function, 20, 22),
            ("ViewModel", SymbolKind::Struct, 24, 24),
        ]
    );
    assert!(
        !symbols
            .iter()
            .any(|symbol| matches!(symbol.name.as_str(), "fake" | "CommentOnly" | "Hidden")),
        "comments and string literals should not produce symbols"
    );
}

#[test]
fn test_format_repo_map_sorts_symbols_within_each_file() {
    let map = RepoMap {
        symbols: vec![
            Symbol {
                name: "late".to_string(),
                kind: SymbolKind::Function,
                file_path: "src/app.ts".to_string(),
                line_start: 20,
                line_end: 22,
            },
            Symbol {
                name: "ViewModel".to_string(),
                kind: SymbolKind::Struct,
                file_path: "src/app.ts".to_string(),
                line_start: 3,
                line_end: 8,
            },
            Symbol {
                name: "early".to_string(),
                kind: SymbolKind::Function,
                file_path: "src/app.ts".to_string(),
                line_start: 10,
                line_end: 12,
            },
        ],
        churn_scores: vec![],
        indexed_file_count: 1,
        language_file_counts: counts(0, 1),
        total_lines: 30,
    };

    let output = format_repo_map(&map);
    let view_model_idx = output.find("struct ViewModel").expect("ViewModel entry");
    let early_idx = output.find("fn early").expect("early entry");
    let late_idx = output.find("fn late").expect("late entry");

    assert!(view_model_idx < early_idx);
    assert!(early_idx < late_idx);
}

#[test]
fn test_repo_relative_path_rejects_parent_traversal() {
    let err = RepoRelativePath::new("../../etc/passwd").expect_err("path should be rejected");
    assert!(matches!(err, RepoError::InvalidRepoRelativePath { .. }));
    assert!(err.to_string().contains("parent-directory traversal"));
}

#[test]
fn test_repo_relative_path_rejects_absolute_path() {
    let err = RepoRelativePath::new("/tmp/file").expect_err("path should be rejected");
    assert!(matches!(err, RepoError::InvalidRepoRelativePath { .. }));
    assert!(err.to_string().contains("absolute paths are not allowed"));
}

#[test]
fn test_repo_relative_path_rejects_windows_absolute_path() {
    let err = RepoRelativePath::new(r"C:\temp\file.rs").expect_err("path should be rejected");
    assert!(matches!(err, RepoError::InvalidRepoRelativePath { .. }));
    assert!(err
        .to_string()
        .contains("absolute Windows paths are not allowed"));
}

#[test]
fn test_repo_relative_path_rejects_symlink_escape_targets() {
    let entries = [
        PathEntry::Link {
            target: "/outside".to_string(),
        },
        PathEntry::Missing,
    ];
    let err = RepoRelativePath::from_planner_path("/repo", "escape/file.rs", &entries)
        .expect_err("symlink escape should be rejected");
    assert!(matches!(err, RepoError::InvalidRepoRelativePath { .. }));
    assert!(err
        .to_string()
        .contains("symlink escapes the repository root"));
}

#[test]
fn links_inside_the_repository_are_followed() {
    let path = RepoRelativePath::new("./alias/file.rs").expect("path should be accepted");
    assert_eq!(path.as_str(), "alias/file.rs");
    let entries = [
        PathEntry::Link {
            target: "/repo/real".to_string(),
        },
        PathEntry::File,
    ];
    assert_eq!(
        path.resolve_under("/repo", &entries)
            .expect("path should resolve"),
        "/repo/real/file.rs"
    );
    assert_eq!(
        path.next_probe("/repo", &[]).as_deref(),
        Some("/repo/alias")
    );
}

#[test]
fn files_cannot_be_walked_through() {
    let path = RepoRelativePath::new("file.rs/below").expect("path should be accepted");
    let err = path
        .resolve_under("/repo", &[PathEntry::File, PathEntry::Missing])
        .expect_err("a file has nothing below it");
    assert!(err.to_string().contains("path traverses through a file"));
}

fn source(path: &str, content: &str) -> SourceFile {
    SourceFile {
        path: path.to_string(),
        extension: path.rsplit('.').next().unwrap().to_string(),
        content: content.to_string(),
    }
}

fn typescript_only() -> RepoLanguages {
    RepoLanguages {
        rust: false,
        python: false,
        typescript: true,
        go: false,
        java: false,
    }
}

#[test]
fn test_parse_directory_skips_unsupported_language_files_gracefully() {
    let files = [
        source("lib.rs", "fn hello() {}\n"),
        source("tool.py", "def hello():\n    return 1\n"),
    ];
    let languages = RepoLanguages {
        python: true,
        ..Default::default()
    };
    let symbols = parse_directory_with_languages(&files, &languages).unwrap();
    assert!(symbols
        .iter()
        .any(|s| s.name == "hello" && s.file_path.ends_with("lib.rs")));
    assert!(
        !symbols.iter().any(|s| s.file_path.ends_with("tool.py")),
        "python files should be skipped because parser is unsupported"
    );
    assert_eq!(parse_directory(&files).unwrap().len(), symbols.len());
}

#[test]
fn test_build_repo_map_language_counts_follow_enablement() {
    let files = [
        source("a.rs", "fn a() {}\n"),
        source("b.py", "print('hi')\n"),
        source("c.ts", "export const x = 1;\n"),
    ];
    let languages = RepoLanguages {
        python: true,
        ..Default::default()
    };
    let map = build_repo_map_with_languages(&files, &languages, vec![]).unwrap();
    assert_eq!(map.indexed_file_count, 2);
    assert_eq!(map.language_file_counts.get(Language::Rust), Some(1));
    assert_eq!(map.language_file_counts.get(Language::Python), Some(1));
    assert_eq!(map.language_file_counts.get(Language::TypeScript), None);
    assert_eq!(map.total_lines, 2);
    assert_eq!(build_repo_map(&files, vec![]).unwrap().indexed_file_count, 1);
}

#[test]
fn test_build_repo_map_includes_typescript_symbols_when_enabled() {
    let files = [source(
        "index.ts",
        r#"
export function add(a: number, b: number): number { return a + b; }
export class Calculator {}
interface MathOps { add(a: number, b: number): number; }
const handler = () => 42;
"#,
    )];
    let map = build_repo_map_with_languages(&files, &typescript_only(), vec![]).unwrap();
    assert_eq!(map.indexed_file_count, 1);
    assert_eq!(map.language_file_counts.get(Language::TypeScript), Some(1));
    let has = |kind: SymbolKind, name: &str| {
        map.symbols.iter().any(|s| s.kind == kind && s.name == name)
    };
    assert!(has(SymbolKind::Function, "add"));
    assert!(has(SymbolKind::Struct, "Calculator"));
    assert!(has(SymbolKind::Trait, "MathOps"));
    assert!(has(SymbolKind::Function, "handler"));
}

#[test]
fn test_build_repo_map_extracts_typescript_symbols_from_module_extensions() {
    let files = [
        source(
            "view.tsx",
            r#"const first = () => 1,
  second: () => number = () => 2,
  third = function namedThird() {
    return 3;
  },
  Widget = class Widget {};
"#,
        ),
        source(
            "server.mts",
            "export default function renderServer() {\n  return null;\n}\n",
        ),
        source(
            "legacy.cts",
            "export interface LegacyShape {\n  value: string;\n}\n",
        ),
    ];
    let map = build_repo_map_with_languages(&files, &typescript_only(), vec![]).unwrap();
    let symbol_names: Vec<String> = map
        .symbols
        .iter()
        .map(|symbol| format!("{}:{}:{}", symbol.file_path, symbol.kind.as_str(), symbol.name))
        .collect();
    assert_eq!(map.indexed_file_count, 3);
    assert_eq!(map.language_file_counts.get(Language::TypeScript), Some(3));
    assert_eq!(
        symbol_names,
        [
            "legacy.cts:trait:LegacyShape",
            "server.mts:fn:renderServer",
            "view.tsx:fn:first",
            "view.tsx:fn:second",
            "view.tsx:fn:third",
            "view.tsx:struct:Widget",
        ]
    );
}

#[test]
fn languages_without_a_parser_have_no_symbols() {
    assert!(parse_file_for_language("a.go", "package main\n", Language::Go)
        .unwrap()
        .is_empty());
    let rust = parse_file_for_language("a.rs", "fn a() {}\n", Language::Rust).unwrap();
    assert_eq!(rust.len(), 1);
    assert_eq!(Language::from_extension("tsx"), Some(Language::TypeScript));
    assert_eq!(Language::from_extension("md"), None);
}

#[test]
fn churn_adds_commits_and_lines() {
    let mut ledger = ChurnLedger::new();
    ledger.record("a.rs", 3);
    ledger.record("b.rs", 10);
    ledger.record("a.rs", 4);
    assert_eq!(ledger.max_raw(), 11);
    assert!(ledger.fits("a.rs", 100));
    assert!(!ledger.fits("a.rs", u32::MAX));
    let ranked = ledger.ranked();
    assert_eq!(ranked[0].file_path, "b.rs");
    assert_eq!((ranked[1].commit_count, ranked[1].lines_changed), (2, 7));
}

#[test]
fn the_path_is_only_recorded() {
    let here = parse_file("here.rs", SAMPLE_SOURCE).unwrap();
    let there = parse_file("no/such/file.rs", SAMPLE_SOURCE).unwrap();
    assert_eq!(here.len(), there.len());
    for (a, b) in here.iter().zip(&there) {
        assert_eq!(a.file_path, "here.rs");
        assert_eq!(b.file_path, "no/such/file.rs");
        assert_eq!((&a.name, a.kind, a.line_start, a.line_end), (&b.name, b.kind, b.line_start, b.line_end));
        assert!(1 <= a.line_start && a.line_start <= a.line_end);
    }
}
