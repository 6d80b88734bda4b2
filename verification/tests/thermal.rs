use std::cmp::Ordering;

use mercury_cli::cli::snapshot::hottest_aggregate;
use mercury_cli::db::{
    is_finished_status, region_is_locked, score_in_range, AgentLogEntry, CoolLock, DbError,
    ThermalAggregate,
};
use mercury_cli::score::Score;
use mercury_cli::thermal::{
    next_target, phase_from_progress, render_heatmap_to_string, score_bar, score_to_color,
    truncate_path, ExecutionPhase, HeatColor, ScoreFigure, ThermalError,
};

fn score(value: f64) -> Score {
    Score::from_bits(value.to_bits())
}

fn make_aggregate(path: &str, value: f64, locked: bool) -> ThermalAggregate {
    ThermalAggregate {
        file_path: path.to_string(),
        composite_score: score(value),
        max_score: score(value),
        agent_density: 0,
        last_updated: String::new(),
        is_locked: locked,
    }
}

fn make_agent(path: &str) -> AgentLogEntry {
    AgentLogEntry {
        id: 0,
        agent_id: String::from("a1"),
        command: String::new(),
        file_path: path.to_string(),
        status: String::from("running"),
        micro_heatmap: None,
        started_at: String::new(),
        completed_at: None,
        tokens_used: 0,
        cost_usd: score(0.0),
    }
}

#[test]
fn scaffolding_picks_coolest_unlocked() {
    let aggs = vec![
        make_aggregate("hot.rs", 0.9, false),
        make_aggregate("cold.rs", 0.1, false),
        make_aggregate("locked.rs", 0.05, true),
    ];
    let target = next_target(&aggs, &[], &[], ExecutionPhase::Scaffolding, 3);
    assert_eq!(target.as_deref(), Some("cold.rs"));
}

#[test]
fn resolution_picks_hottest_unlocked() {
    let aggs = vec![
        make_aggregate("hot.rs", 0.9, false),
        make_aggregate("cold.rs", 0.1, false),
        make_aggregate("hotter_locked.rs", 0.95, true),
    ];
    let target = next_target(&aggs, &[], &[], ExecutionPhase::Resolution, 3);
    assert_eq!(target.as_deref(), Some("hot.rs"));
}

#[test]
fn annealing_picks_lowest_density() {
    let aggs = vec![
        make_aggregate("busy.rs", 0.5, false),
        make_aggregate("idle.rs", 0.5, false),
    ];
    let agents = vec![make_agent("busy.rs"), make_agent("busy.rs")];
    let target = next_target(&aggs, &[], &agents, ExecutionPhase::Annealing, 5);
    assert_eq!(target.as_deref(), Some("idle.rs"));
}

#[test]
fn next_target_respects_max_density() {
    let aggs = vec![make_aggregate("only.rs", 0.5, false)];
    let agents = vec![make_agent("only.rs"), make_agent("only.rs")];
    let target = next_target(&aggs, &[], &agents, ExecutionPhase::Resolution, 2);
    assert!(target.is_none());
}

#[test]
fn next_target_excludes_cool_locked_files() {
    let aggs = vec![make_aggregate("src/lib.rs", 0.8, false)];
    let locks = vec![CoolLock {
        file_path: String::from("src/lib.rs"),
        line_start: 1,
        line_end: 100,
        locked_hash: String::from("abc"),
        locked_at: String::new(),
        locked_by_agent: String::from("a1"),
    }];
    let target = next_target(&aggs, &locks, &[], ExecutionPhase::Resolution, 5);
    assert!(target.is_none());
}

#[test]
fn next_target_returns_none_when_empty() {
    let target = next_target(&[], &[], &[], ExecutionPhase::Resolution, 5);
    assert!(target.is_none());
}

#[test]
fn phase_boundaries() {
    assert_eq!(phase_from_progress(0, 100), ExecutionPhase::Scaffolding);
    assert_eq!(phase_from_progress(29, 100), ExecutionPhase::Scaffolding);
    assert_eq!(phase_from_progress(30, 100), ExecutionPhase::Resolution);
    assert_eq!(phase_from_progress(69, 100), ExecutionPhase::Resolution);
    assert_eq!(phase_from_progress(70, 100), ExecutionPhase::Annealing);
    assert_eq!(phase_from_progress(100, 100), ExecutionPhase::Annealing);
}

#[test]
fn phase_zero_expected_defaults_to_resolution() {
    assert_eq!(phase_from_progress(5, 0), ExecutionPhase::Resolution);
}

#[test]
fn score_bar_boundaries() {
    assert_eq!(score_bar(0), "[          ]");
    assert_eq!(score_bar(10), "[##########]");
    assert_eq!(score_bar(5), "[#####     ]");
}

#[test]
fn score_to_color_ranges() {
    assert_eq!(score_to_color(score(0.0)), HeatColor::Blue);
    assert_eq!(score_to_color(score(0.24)), HeatColor::Blue);
    assert_eq!(score_to_color(score(0.25)), HeatColor::Cyan);
    assert_eq!(score_to_color(score(0.50)), HeatColor::Yellow);
    assert_eq!(score_to_color(score(0.75)), HeatColor::Red);
    assert_eq!(score_to_color(score(1.0)), HeatColor::Red);
}

#[test]
fn truncate_path_short_unchanged() {
    assert_eq!(truncate_path("src/lib.rs", 20), "src/lib.rs");
}

#[test]
fn truncate_path_long_gets_ellipsis() {
    let long = "a/very/long/deeply/nested/path/to/some/file.rs";
    let truncated = truncate_path(long, 20);
    assert!(truncated.starts_with("..."));
    assert_eq!(truncated.len(), 20);
}

#[test]
fn ascii_heatmap_empty() {
    let output = render_heatmap_to_string(&[], &[], &[]);
    assert_eq!(output, "(no thermal data)");
}

#[test]
fn ascii_heatmap_renders_all_files() {
    let aggs = vec![
        make_aggregate("src/hot.rs", 0.85, false),
        make_aggregate("src/cold.rs", 0.15, true),
    ];
    let agents = vec![make_agent("src/hot.rs")];
    let figures = vec![
        ScoreFigure {
            filled: 9,
            text: "0.85".to_string(),
        },
        ScoreFigure {
            filled: 2,
            text: "0.15".to_string(),
        },
    ];
    let output = render_heatmap_to_string(&aggs, &agents, &figures);

    assert!(output.contains("src/hot.rs"), "should contain file path");
    assert!(output.contains("src/cold.rs"), "should contain file path");
    assert!(output.contains("LOCKED"), "should show lock status");
    assert!(output.contains("UNLOCKED"), "should show unlock status");
    assert!(output.contains("agents: 1"), "should show agent count");
    assert!(output.contains("agents: 0"), "should show zero agents");
}

#[test]
fn scores_are_ordered_like_their_numbers() {
    assert!(score(0.3).above(&score(0.25)));
    assert!(!score(0.25).above(&score(0.3)));
    assert!(score(0.0).above(&score(-0.5)));
    assert!(!score(0.0).above(&score(-0.0)));
    assert!(!score(-0.0).above(&score(0.0)));
    assert!(score_in_range(&score(1.0)));
    assert!(score_in_range(&score(0.0)));
    assert!(!score_in_range(&score(1.5)));
    assert!(!score_in_range(&score(-0.1)));
}

#[test]
fn runs_end_in_success_or_failure() {
    assert!(is_finished_status("success"));
    assert!(is_finished_status("failed"));
    assert!(!is_finished_status("running"));
}

#[test]
fn locks_cover_the_lines_they_share() {
    let locks = [CoolLock {
        file_path: "a.rs".to_string(),
        line_start: 10,
        line_end: 20,
        locked_hash: String::new(),
        locked_at: String::new(),
        locked_by_agent: String::new(),
    }];
    assert!(region_is_locked(&locks, "a.rs", 20, 30));
    assert!(!region_is_locked(&locks, "a.rs", 21, 30));
    assert!(!region_is_locked(&locks, "b.rs", 10, 20));
}

#[test]
fn thermal_errors_name_their_cause() {
    let range = DbError::ScoreOutOfRange {
        score: "1.5".to_string(),
        file: "a.rs".to_string(),
        line: 3,
    };
    assert_eq!(
        range.to_string(),
        "thermal score 1.5 out of range [0.0, 1.0] for a.rs:3"
    );
    assert_eq!(
        DbError::LockConflict {
            file: "a.rs".to_string(),
            locked_by: "agent-1".to_string(),
        }
        .to_string(),
        "cool zone lock conflict: a.rs is locked by agent agent-1"
    );
    assert_eq!(
        ThermalError::Database(DbError::Sqlite("busy".to_string())).to_string(),
        "database error: database error: busy"
    );
    assert_eq!(
        ThermalError::EmptyScores.to_string(),
        "empty score set for merge"
    );
    assert_eq!(
        ThermalError::InvalidTemperature("0".to_string()).to_string(),
        "invalid temperature 0: must be positive"
    );
    assert_eq!(
        ThermalError::Io("gone".to_string()).to_string(),
        "terminal I/O error: gone"
    );
}

#[test]
fn shortened_paths_are_never_too_long() {
    let path = "src/engine/apply.rs";
    let of = |max_len: usize| truncate_path(path, max_len);
    assert_eq!(of(0), "");
    assert_eq!(of(1), ".");
    assert_eq!(of(2), "..");
    assert_eq!(of(3), "...");
    assert_eq!(of(5), "...rs");
    for max_len in 0..25 {
        assert!(of(max_len).len() <= max_len);
    }
}

const MIXED: [f64; 7] = [
    f64::NAN,
    -f64::NAN,
    f64::INFINITY,
    f64::NEG_INFINITY,
    -0.0,
    0.0,
    0.9,
];

fn equal_if_apart(a: f64, b: f64) -> Ordering {
    a.partial_cmp(&b).unwrap_or(Ordering::Equal)
}

#[test]
fn scores_that_are_no_numbers_are_neither_lower_nor_higher() {
    let pair = vec![
        make_aggregate("first.rs", f64::NAN, false),
        make_aggregate("second.rs", 0.9, false),
    ];
    let target = next_target(&pair, &[], &[], ExecutionPhase::Resolution, 3);
    assert_eq!(target.as_deref(), Some("second.rs"));
    for a in MIXED {
        for b in MIXED {
            assert_eq!(score(a).above(&score(b)), a > b);
        }
    }
    assert_eq!(score_to_color(score(f64::NAN)), HeatColor::Red);
    assert_eq!(score_to_color(score(-f64::NAN)), HeatColor::Red);
    assert_eq!(score_to_color(score(f64::NEG_INFINITY)), HeatColor::Blue);
    assert!(!score_in_range(&score(f64::NAN)));
    assert!(!score_in_range(&score(-f64::NAN)));
}

#[test]
fn targets_are_chosen_like_the_least_and_the_greatest_of_a_list() {
    for a in MIXED {
        for b in MIXED {
            for c in MIXED {
                let values = [a, b, c];
                let rows: Vec<ThermalAggregate> = values
                    .iter()
                    .enumerate()
                    .map(|(at, value)| make_aggregate(&at.to_string(), *value, false))
                    .collect();
                let chosen = |phase| next_target(&rows, &[], &[], phase, 3).unwrap();
                let place = |found: Option<usize>| found.unwrap().to_string();
                let coolest = (0..3).min_by(|x, y| equal_if_apart(values[*x], values[*y]));
                assert_eq!(chosen(ExecutionPhase::Scaffolding), place(coolest));
                let hottest = (0..3).max_by(|x, y| equal_if_apart(values[*x], values[*y]));
                assert_eq!(chosen(ExecutionPhase::Resolution), place(hottest));
                assert_eq!(hottest_aggregate(&rows), hottest);
                let warmest = (0..3).min_by(|x, y| equal_if_apart(values[*y], values[*x]));
                assert_eq!(chosen(ExecutionPhase::Annealing), place(warmest));
            }
        }
    }
}
