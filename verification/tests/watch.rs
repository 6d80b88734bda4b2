use mercury_cli::cli::watch::{
    build_watch_repair_description, build_watch_verify_config, classify_rust_repair_command,
    truncate_watch_output, watch_command_result, RepoFileFingerprint, RepoWatchSnapshot,
    RustRepairMode,
};
use mercury_cli::cli::watch_cycle::{
    after_watch_cycle, FixReport, WatchAction, WatchCycle, WatchDecision, WatchStep,
    UNSUPPORTED_REPAIR,
};
use mercury_cli::engine::settings::VerifyConfig;

fn parts(command: &str) -> Vec<String> {
    command.split(' ').map(str::to_string).collect()
}

fn print(modified_unix_nanos: u128, len: u64) -> RepoFileFingerprint {
    RepoFileFingerprint {
        modified_unix_nanos,
        len,
    }
}

#[test]
fn classify_rust_repair_command_supports_env_prefixes_and_toolchains() {
    let target =
        classify_rust_repair_command("RUST_BACKTRACE=1 cargo +nightly test -p mercury-cli")
            .unwrap();
    assert_eq!(
        target.verifier_command,
        "RUST_BACKTRACE=1 cargo +nightly test -p mercury-cli"
    );
    assert_eq!(target.mode, RustRepairMode::TestLike);
}

#[test]
fn classify_rust_repair_command_supports_env_wrapper_prefixes() {
    let target = classify_rust_repair_command("env RUST_BACKTRACE=1 cargo test --quiet")
        .expect("env wrapper command should be supported");
    assert_eq!(target.mode, RustRepairMode::TestLike);

    let clippy_target = classify_rust_repair_command("env -i RUSTFLAGS=-Dwarnings cargo clippy")
        .expect("env wrapper clippy command should be supported");
    assert_eq!(clippy_target.mode, RustRepairMode::Lint);
}

#[test]
fn classify_rust_repair_command_rejects_shell_composition() {
    assert!(classify_rust_repair_command("cargo test && cargo clippy").is_none());
    assert!(classify_rust_repair_command("cargo test | tee out.txt").is_none());
}

#[test]
fn classify_rust_repair_command_supports_direct_cargo_vectors() {
    let parts = [
        "env".to_string(),
        "RUST_BACKTRACE=1".to_string(),
        "cargo".to_string(),
        "check".to_string(),
        "--workspace".to_string(),
    ];
    let target = classify_rust_repair_command(&parts.join(" ")).expect("command should classify");
    assert_eq!(target.mode, RustRepairMode::TestLike);
    assert_eq!(
        target.verifier_command,
        "env RUST_BACKTRACE=1 cargo check --workspace"
    );
}

#[test]
fn build_watch_verify_config_targets_only_the_requested_rust_verifier() {
    let config = VerifyConfig {
        parse_before_write: true,
        test_after_write: true,
        lint_after_write: true,
        mercury2_critique_on_failure: false,
        test_command: "cargo test".to_string(),
        lint_command: "cargo clippy".to_string(),
    };
    let clippy_target = classify_rust_repair_command("cargo clippy --workspace").unwrap();
    let clippy_verify = build_watch_verify_config(&config, &clippy_target);
    assert!(!clippy_verify.test_after_write);
    assert!(clippy_verify.lint_after_write);
    assert_eq!(clippy_verify.lint_command, "cargo clippy --workspace");

    let test_target = classify_rust_repair_command("cargo test -p mercury-cli").unwrap();
    let test_verify = build_watch_verify_config(&config, &test_target);
    assert!(test_verify.test_after_write);
    assert!(!test_verify.lint_after_write);
    assert_eq!(test_verify.test_command, "cargo test -p mercury-cli");
}

#[test]
fn capture_repo_watch_snapshot_ignores_mercury_internal_state() {
    let before = RepoWatchSnapshot::of_files(vec![
        (".mercury/runs/watch.json".to_string(), print(1, 3)),
        ("src/main.rs".to_string(), print(1, 13)),
    ]);
    let after = RepoWatchSnapshot::of_files(vec![
        (".mercury/runs/watch.json".to_string(), print(2, 21)),
        ("src/main.rs".to_string(), print(1, 13)),
    ]);

    assert_eq!(before, after);
    assert!(!after.differs(&before));
}

#[test]
fn changed_files_are_noticed() {
    let before = RepoWatchSnapshot::of_files(vec![("src/main.rs".to_string(), print(1, 13))]);
    let touched = RepoWatchSnapshot::of_files(vec![("src/main.rs".to_string(), print(2, 13))]);
    let added = RepoWatchSnapshot::of_files(vec![
        ("src/lib.rs".to_string(), print(1, 1)),
        ("src/main.rs".to_string(), print(1, 13)),
    ]);
    assert!(touched.differs(&before));
    assert!(added.differs(&before));
}

#[test]
fn long_outputs_are_cut() {
    assert_eq!(truncate_watch_output("  short \n", 10), "short");
    assert_eq!(truncate_watch_output("abcdef", 3), "abc\n...[truncated]");
}

#[test]
fn failed_commands_are_parsed_and_described() {
    let command = parts("cargo test");
    let result = watch_command_result(
        &command,
        false,
        Some(101),
        "test a ... FAILED",
        "error: test failed",
        &[],
    );
    assert!(result.parsed_failure.is_some());
    let text = build_watch_repair_description("cargo test", &result, &None, &[]);
    assert!(text.starts_with(
        "Repair the repository so the Rust verifier command `cargo test` succeeds.\nExit code: 101.\n"
    ));
    assert!(text.contains("\nCommand stderr:\nerror: test failed\n"));
    assert!(text.contains("\nCommand stdout:\ntest a ... FAILED\n"));
    assert!(text.contains("- read_file: Read a repository file for targeted diagnosis.\n"));
    let passed = watch_command_result(&command, true, Some(0), "", "", &[]);
    assert!(passed.parsed_failure.is_none());
}

fn run(command: &str, success: bool) -> mercury_cli::cli::watch::WatchCommandResult {
    watch_command_result(
        &parts(command),
        success,
        Some(if success { 0 } else { 101 }),
        "",
        "",
        &[],
    )
}

fn report(applied: bool) -> FixReport {
    FixReport {
        artifact_root: "/runs/1".to_string(),
        sandbox_run_root: None,
        accepted_steps: 1,
        rejected_steps: 0,
        verification_failures: 0,
        final_bundle_verified: applied,
        applied,
    }
}

#[test]
fn passing_commands_need_no_repair() {
    let mut cycle = WatchCycle::new(&parts("cargo test"), true);
    assert_eq!(cycle.action(), WatchAction::Run);
    cycle.ran(run("cargo test", true));
    assert_eq!(cycle.action(), WatchAction::Finish);
    assert_eq!(cycle.decision, Some(WatchDecision::PassedWithoutRepair));
}

#[test]
fn repaired_commands_are_confirmed() {
    let mut cycle = WatchCycle::new(&parts("cargo test"), true);
    cycle.ran(run("cargo test", false));
    assert_eq!(cycle.action(), WatchAction::Repair);
    cycle.repaired(Ok(report(true)), &[]);
    assert_eq!(cycle.action(), WatchAction::Confirm);
    cycle.confirmed(run("cargo test", true));
    assert_eq!(cycle.decision, Some(WatchDecision::RepairedAndVerified));

    let mut failing = WatchCycle::new(&parts("cargo test"), true);
    failing.ran(run("cargo test", false));
    failing.repaired(Ok(report(false)), &[]);
    failing.confirmed(run("cargo test", false));
    assert_eq!(failing.decision, Some(WatchDecision::RepairNotApplied));
}

#[test]
fn other_commands_are_not_repaired() {
    let mut cycle = WatchCycle::new(&parts("npm test"), true);
    cycle.ran(run("npm test", false));
    assert_eq!(cycle.decision, Some(WatchDecision::RepairNotSupported));
    assert_eq!(
        cycle.repair.and_then(|record| record.error).as_deref(),
        Some(UNSUPPORTED_REPAIR)
    );

    let mut silent = WatchCycle::new(&parts("cargo test"), false);
    silent.ran(run("cargo test", false));
    assert_eq!(silent.decision, Some(WatchDecision::FailedWithoutRepair));

    let mut broken = WatchCycle::new(&parts("cargo test"), true);
    broken.ran(run("cargo test", false));
    broken.repaired(Err("no key".to_string()), &[]);
    assert_eq!(broken.decision, Some(WatchDecision::RepairFlowFailed));
}

#[test]
fn single_cycles_end_with_their_decision() {
    assert_eq!(
        after_watch_cycle(true, WatchDecision::FailedWithoutRepair, "/runs/1"),
        WatchStep::WaitForChange
    );
    assert_eq!(
        after_watch_cycle(false, WatchDecision::RepairedAndVerified, "/runs/1"),
        WatchStep::Stop
    );
    assert_eq!(
        after_watch_cycle(false, WatchDecision::FailedWithoutRepair, "/runs/1"),
        WatchStep::Fail(
            "watch cycle failed: decision=failed_without_repair artifact=/runs/1".to_string()
        )
    );
}
