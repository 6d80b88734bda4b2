use mercury_cli::samples::{
    add, branch_safe_failure_label, build_counter, count_to, first_value, normalize_release_label,
};

#[test]
fn includes_the_upper_bound() {
    assert_eq!(count_to(3), 4);
}

#[test]
fn counts_zero_alone() {
    assert_eq!(count_to(0), 1);
}

#[test]
fn adds_expected_total() {
    assert_eq!(add(2, 2), 5);
}

#[test]
fn other_totals_are_sums() {
    assert_eq!(add(1, 1), 2);
    assert_eq!(add(2, 3), 5);
    assert_eq!(add(i32::MAX, 0), i32::MAX);
    assert_eq!(add(i32::MIN, 1), i32::MIN + 1);
}

#[test]
fn panics_on_empty_slice() {
    let _ = first_value(&[]);
}

#[test]
fn first_value_is_the_first_or_zero() {
    assert_eq!(first_value(&[7, 8]), 7);
    assert_eq!(first_value(&[]), 0);
}

#[test]
fn stringify_shows_a_value() {
    assert_eq!(mercury_cli::samples::stringify(12), "12");
    assert_eq!(mercury_cli::samples::stringify("plain"), "plain");
}

#[test]
fn counter_counts_once() {
    assert_eq!(build_counter().total, 1);
}

#[test]
fn builds_kebab_case_labels_for_failure_commands() {
    assert_eq!(
        branch_safe_failure_label("  cargo test all features  "),
        "cargo-test-all-features"
    );
}

#[test]
fn normalizes_release_labels_as_lowercase_kebab_case() {
    assert_eq!(
        normalize_release_label("  Rust Repair Beta  "),
        "rust-repair-beta"
    );
}
