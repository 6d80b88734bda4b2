use mercury_cli::failure_parser::{
    classify_cargo_command, classify_verifier_command, command_start_index,
    contains_shell_composition, env_option_arity, is_env_assignment, parse_cargo_failure,
    parse_command_parts, parse_verifier_failure, repo_native_tool_surface, CargoCommandKind,
    FailureStage, FailureTarget, ParsedFailureReport, VerifierCommandKind,
};

fn parts(command: &str) -> Vec<String> {
    parse_command_parts(command)
}

fn classes(report: &ParsedFailureReport) -> Vec<&str> {
    report
        .failures
        .iter()
        .map(|failure| failure.error_class.as_str())
        .collect()
}

#[test]
fn commands_are_split_into_words() {
    assert_eq!(parts("cargo  test --quiet"), ["cargo", "test", "--quiet"]);
    assert_eq!(
        parts("npm test -- 'a b' \"c d\" e\\ f"),
        ["npm", "test", "--", "a b", "c d", "e f"]
    );
    assert!(parts("   ").is_empty());
}

#[test]
fn composition_is_found_outside_of_quotes() {
    assert!(contains_shell_composition("cargo test | cat"));
    assert!(contains_shell_composition("cargo test; rm x"));
    assert!(contains_shell_composition("cargo test && true"));
    assert!(!contains_shell_composition("cargo test 'a | b'"));
    assert!(!contains_shell_composition("cargo test --quiet"));
}

#[test]
fn assignments_come_before_the_command() {
    assert!(is_env_assignment("RUST_LOG=debug"));
    assert!(!is_env_assignment("--flag=1"));
    assert!(!is_env_assignment("=1"));
    assert_eq!(env_option_arity("-i"), Some(false));
    assert_eq!(env_option_arity("-u"), Some(true));
    assert_eq!(env_option_arity("-x"), None);
    assert_eq!(command_start_index(&parts("A=1 B=2 cargo test")), 2);
    assert_eq!(command_start_index(&parts("env -u A B=1 cargo test")), 4);
    assert_eq!(
        classify_cargo_command(&parts("A=1 cargo test")),
        CargoCommandKind::Test
    );
}

#[test]
fn verifiers_are_told_apart() {
    let kinds = [
        ("cargo test", VerifierCommandKind::CargoTest),
        ("cargo +nightly clippy", VerifierCommandKind::CargoClippy),
        ("cargo check", VerifierCommandKind::CargoCheck),
        ("tsc --noEmit", VerifierCommandKind::TypeScriptCheck),
        ("npx eslint src", VerifierCommandKind::TypeScriptLint),
        ("npm test", VerifierCommandKind::TypeScriptTest),
        ("cargo build", VerifierCommandKind::Unknown),
        ("make", VerifierCommandKind::Unknown),
    ];
    for (command, kind) in kinds {
        assert_eq!(classify_verifier_command(&parts(command)), kind, "{command}");
    }
}

#[test]
fn compile_errors_have_class_and_place() {
    let report = parse_cargo_failure(
        &parts("cargo check"),
        "",
        "error[E0425]: cannot find function `missing` in this scope\n --> src/main.rs:3:5\n",
    );
    assert_eq!(report.command, CargoCommandKind::Check);
    assert_eq!(report.stage, FailureStage::Compile);
    assert_eq!(classes(&report), ["compile.missing_function"]);
    let target = &report.failures[0].target;
    assert_eq!(target.file_path.as_deref(), Some("src/main.rs"));
    assert_eq!((target.line, target.column), (Some(3), Some(5)));
    assert_eq!(target.symbol.as_deref(), Some("missing"));
}

#[test]
fn every_compile_error_has_its_class() {
    let classes_of = [
        ("error: mismatched types", "compile.type_mismatch"),
        ("error: struct `A` has no field named `b`", "compile.unknown_struct_field"),
        ("error: the trait bound is not satisfied", "compile.missing_trait_bound"),
        ("error: something else", "compile.unknown"),
    ];
    for (line, class) in classes_of {
        let report = parse_cargo_failure(&parts("cargo check"), "", line);
        assert_eq!(classes(&report), [class]);
    }
    let parse = parse_cargo_failure(
        &parts("cargo check"),
        "",
        "error: this file contains an unclosed delimiter\n",
    );
    assert_eq!(parse.stage, FailureStage::Parse);
    assert_eq!(classes(&parse), ["parser.unclosed_delimiter"]);
}

#[test]
fn lints_are_read_from_warnings() {
    let report = parse_cargo_failure(
        &parts("cargo clippy"),
        "",
        "warning: unneeded `return` statement\n --> src/lib.rs:2:1\nwarning: this operation has no effect\n",
    );
    assert_eq!(report.stage, FailureStage::Lint);
    assert_eq!(
        classes(&report),
        ["lint.clippy_needless_return", "lint.clippy_identity_op"]
    );
    assert_eq!(report.failures[0].target.line, Some(2));
    assert_eq!(report.failures[1].target.line, None);
}

#[test]
fn panics_of_tests_are_classified() {
    let report = parse_cargo_failure(
        &parts("cargo test"),
        "test tests::empty ... FAILED\n",
        "called `Option::unwrap()` on a `None` value\n",
    );
    assert_eq!(classes(&report), ["test.panic_unwrap"]);
    assert_eq!(
        report.failures[0].target.symbol.as_deref(),
        Some("tests::empty")
    );
}

#[test]
fn silent_failures_are_still_reported() {
    let tests = parse_cargo_failure(&parts("cargo test"), "", "");
    assert_eq!(tests.failures[0].message, "test failure");
    assert_eq!(classes(&tests), ["test.unknown"]);
    let unknown = parse_cargo_failure(&parts("make"), "out\n", "");
    assert_eq!(unknown.command, CargoCommandKind::Unknown);
    assert_eq!(unknown.stage, FailureStage::Unknown);
    assert_eq!(unknown.failures.len(), 1);
}

#[test]
fn typescript_errors_have_class_and_place() {
    let report = parse_verifier_failure(
        &VerifierCommandKind::TypeScriptCheck,
        &parts("tsc"),
        "src/app.ts(4,7): error TS2304: Cannot find name 'missing'.\nsrc/b.ts(1,2): error TS9999: x is not assignable to y\n",
        "",
    );
    assert_eq!(report.stage, FailureStage::Compile);
    assert_eq!(
        classes(&report),
        ["compile.missing_symbol", "compile.type_mismatch"]
    );
    let target = &report.failures[0].target;
    assert_eq!(target.file_path.as_deref(), Some("src/app.ts"));
    assert_eq!((target.line, target.column), (Some(4), Some(7)));
    assert_eq!(target.symbol.as_deref(), Some("missing"));
    assert!(report.failures[0].message.starts_with("TS2304: "));
}

#[test]
fn script_tests_name_file_and_test() {
    let report = parse_verifier_failure(
        &VerifierCommandKind::TypeScriptTest,
        &parts("npm test"),
        "FAIL src/a.test.ts > math > adds\nError: test timed out in 5000ms\n",
        "",
    );
    assert_eq!(report.stage, FailureStage::Test);
    assert_eq!(classes(&report), ["test.timeout"]);
    let target = &report.failures[0].target;
    assert_eq!(target.file_path.as_deref(), Some("src/a.test.ts"));
    assert_eq!(target.symbol.as_deref(), Some("math::adds"));
}

#[test]
fn script_lints_keep_their_lines() {
    let report = parse_verifier_failure(
        &VerifierCommandKind::TypeScriptLint,
        &parts("npx eslint src"),
        "",
        "",
    );
    assert_eq!(report.stage, FailureStage::Lint);
    assert_eq!(report.failures[0].message, "typescript lint failure");
    let found = parse_verifier_failure(
        &VerifierCommandKind::TypeScriptLint,
        &parts("npx eslint src"),
        "  3:1 error no-unused-vars\nfine\n",
        "",
    );
    assert_eq!(found.failures.len(), 1);
    assert_eq!(found.failures[0].message, "3:1 error no-unused-vars");
}

#[test]
fn targets_take_a_symbol() {
    let target = FailureTarget::default().with_symbol(&Some("a".to_string()));
    assert_eq!(target.symbol.as_deref(), Some("a"));
    assert_eq!(target.file_path, None);
}

#[test]
fn tools_are_offered_in_order() {
    let names: Vec<&str> = repo_native_tool_surface()
        .iter()
        .map(|tool| tool.name)
        .collect();
    assert_eq!(
        names,
        [
            "read_file",
            "search_symbol",
            "run_tests",
            "apply_patch_temp",
            "git_diff",
            "rollback_candidate"
        ]
    );
}
