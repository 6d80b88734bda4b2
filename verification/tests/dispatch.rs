use mercury_cli::score::Score;
use mercury_cli::swarm::agent::{Agent, AgentRole, AgentStatus};
use mercury_cli::swarm::conflict::{
    build_conflict_alerts, classify_conflict_alert, conflict_groups, rank_candidates,
    ArbitrationAction, CandidateScore, ConflictSeverity, ScoreGap,
};
use mercury_cli::swarm::dispatch::{build_dispatch_plan, CandidateAssignment, CandidateWorkItem};
use mercury_cli::swarm::monitor::Monitor;
use mercury_cli::swarm::oscillation::{
    CandidateOutcome, CandidateOutcomeEvent, OscillationTracker,
};
use mercury_cli::swarm::summary::{
    summarize_agent_dispatch, summarize_dispatch_plan, DispatchBackpressure,
};

fn score(value: f64) -> Score {
    Score::from_bits(value.to_bits())
}

fn agent(id: &str, file: &str) -> Agent {
    Agent::with_id(id.to_string(), AgentRole::HotZone, file, "")
}

fn item(id: &str, file: &str, priority: f64) -> CandidateWorkItem {
    CandidateWorkItem::new(id, file, score(priority))
}

fn assignment(candidate: &str, agent: &str, file: &str) -> CandidateAssignment {
    CandidateAssignment {
        candidate_id: candidate.to_string(),
        agent_id: agent.to_string(),
        target_file: file.to_string(),
        queue_position: 0,
    }
}

fn scored(id: &str, value: f64) -> CandidateScore {
    CandidateScore {
        candidate_id: id.to_string(),
        score: score(value),
    }
}

fn texts(values: &[&str]) -> Vec<String> {
    values.iter().map(|value| value.to_string()).collect()
}

fn gap(tied: &[bool], narrow: bool) -> ScoreGap {
    ScoreGap {
        tied: tied.to_vec(),
        best_text: "0.900".to_string(),
        lead_text: "0.400".to_string(),
        narrow,
    }
}

#[test]
fn agents_of_a_file_take_turns() {
    let agents = [agent("x", "a.rs"), agent("y", "a.rs"), agent("z", "b.rs")];
    let candidates = [
        item("c1", "a.rs", 0.1),
        item("c2", "a.rs", 0.9),
        item("c3", "a.rs", 0.5),
        item("c4", "c.rs", 1.0),
    ];
    let plan = build_dispatch_plan(&candidates, &agents, 1);
    let taken: Vec<(&str, &str)> = plan
        .assignments
        .iter()
        .map(|taken| (taken.candidate_id.as_str(), taken.agent_id.as_str()))
        .collect();
    assert_eq!(taken, [("c2", "x"), ("c3", "y")]);
    assert_eq!(plan.unassigned_candidates, ["c4", "c1"]);
    assert_eq!(plan.saturated_agents, ["x", "y"]);
}

#[test]
fn without_room_nothing_is_assigned() {
    let plan = build_dispatch_plan(
        &[item("b", "a.rs", 0.1), item("a", "a.rs", 0.9)],
        &[agent("x", "a.rs")],
        0,
    );
    assert!(plan.assignments.is_empty());
    assert_eq!(plan.unassigned_candidates, ["b", "a"]);
    assert!(plan.saturated_agents.is_empty());
}

#[test]
fn queues_are_filled_up_to_the_limit() {
    let agents = [agent("x", "a.rs")];
    let candidates = [
        item("c1", "a.rs", 0.3),
        item("c2", "a.rs", 0.2),
        item("c3", "a.rs", 0.1),
    ];
    let plan = build_dispatch_plan(&candidates, &agents, 2);
    assert_eq!(plan.assignments.len(), 2);
    assert_eq!(plan.assignments[1].queue_position, 1);
    let agents_told = summarize_agent_dispatch(&plan, &agents, 2);
    assert_eq!(agents_told.len(), 1);
    assert_eq!(agents_told[0].assigned_candidate_ids, ["c1", "c2"]);
    assert!(agents_told[0].saturated);
    let files = summarize_dispatch_plan(&plan, &candidates, &agents, 2);
    assert_eq!(files.len(), 1);
    assert_eq!(files[0].unassigned_candidate_ids, ["c3"]);
    assert_eq!(files[0].max_queue_depth, 2);
    assert_eq!(files[0].remaining_capacity, 0);
    assert_eq!(files[0].backpressure, DispatchBackpressure::Saturated);
}

#[test]
fn files_without_agents_are_blocked() {
    let candidates = [item("c1", "a.rs", 0.3)];
    let plan = build_dispatch_plan(&candidates, &[], 2);
    let files = summarize_dispatch_plan(&plan, &candidates, &[], 2);
    assert_eq!(files[0].backpressure, DispatchBackpressure::BlockedNoAgent);
    let idle = summarize_dispatch_plan(
        &build_dispatch_plan(&[], &[agent("x", "a.rs")], 2),
        &[],
        &[agent("x", "a.rs")],
        2,
    );
    assert_eq!(idle[0].backpressure, DispatchBackpressure::Available);
    assert_eq!(idle[0].remaining_capacity, 2);
}

#[test]
fn finished_agents_take_no_work() {
    let mut done = agent("x", "a.rs");
    done.status = AgentStatus::Success;
    let plan = build_dispatch_plan(&[item("c1", "a.rs", 0.3)], &[done], 2);
    assert!(plan.assignments.is_empty());
}

#[test]
fn duplicated_candidates_win_alone() {
    let (severity, arbitration) =
        classify_conflict_alert(&texts(&["c1"]), &texts(&["x", "y"]), &[], &gap(&[], false));
    assert_eq!(severity, ConflictSeverity::Low);
    assert_eq!(arbitration.winning_candidate_id.as_deref(), Some("c1"));
    assert_eq!(
        arbitration.reason,
        "candidate c1 is duplicated across 2 agents for the same file"
    );
    let (more, _) = classify_conflict_alert(
        &texts(&["c1"]),
        &texts(&["x", "y", "z"]),
        &[],
        &gap(&[], false),
    );
    assert_eq!(more, ConflictSeverity::Medium);
}

#[test]
fn candidates_without_scores_need_a_human() {
    let (severity, arbitration) = classify_conflict_alert(
        &texts(&["c1", "c2"]),
        &texts(&["x", "y"]),
        &[scored("c1", 0.5)],
        &gap(&[], false),
    );
    assert_eq!(severity, ConflictSeverity::High);
    assert_eq!(arbitration.action, ArbitrationAction::RequireHumanReview);
    assert_eq!(
        arbitration.reason,
        "missing arbitration scores for candidates: c2"
    );
}

#[test]
fn tied_candidates_need_a_human() {
    let (severity, arbitration) = classify_conflict_alert(
        &texts(&["c1", "c2"]),
        &texts(&["x", "y"]),
        &[scored("c1", 0.9), scored("c2", 0.9)],
        &gap(&[true, true], true),
    );
    assert_eq!(severity, ConflictSeverity::High);
    assert_eq!(arbitration.winning_candidate_id, None);
    assert_eq!(
        arbitration.reason,
        "candidates c1, c2 are tied at arbitration score 0.900"
    );
}

#[test]
fn the_best_score_wins() {
    let scores = [scored("c1", 0.5), scored("c2", 0.9)];
    let ranked = rank_candidates(&texts(&["c1", "c2"]), &scores).unwrap();
    assert_eq!(ranked[0].candidate_id, "c2");
    let (severity, arbitration) = classify_conflict_alert(
        &texts(&["c1", "c2"]),
        &texts(&["x", "y"]),
        &scores,
        &gap(&[true, false], false),
    );
    assert_eq!(severity, ConflictSeverity::Medium);
    assert_eq!(arbitration.action, ArbitrationAction::PreferCandidate);
    assert_eq!(arbitration.winning_candidate_id.as_deref(), Some("c2"));
    assert_eq!(arbitration.losing_candidate_ids, ["c1"]);
    assert_eq!(
        arbitration.reason,
        "candidate c2 leads arbitration by 0.400 score over the next candidate"
    );
    let (narrow, _) = classify_conflict_alert(
        &texts(&["c1", "c2"]),
        &texts(&["x", "y"]),
        &scores,
        &gap(&[true, false], true),
    );
    assert_eq!(narrow, ConflictSeverity::High);
}

#[test]
fn files_with_several_agents_raise_alerts() {
    let groups = conflict_groups(&[
        assignment("c2", "y", "a.rs"),
        assignment("c1", "x", "a.rs"),
        assignment("c3", "z", "b.rs"),
    ]);
    let found = groups
        .iter()
        .find(|group| group.file_path == "a.rs")
        .unwrap();
    assert_eq!(found.candidate_ids, ["c1", "c2"]);
    assert_eq!(found.agent_ids, ["x", "y"]);
    let gaps: Vec<ScoreGap> = groups
        .iter()
        .map(|_| gap(&[true, false], false))
        .collect();
    let alerts = build_conflict_alerts(&groups, &[scored("c1", 0.5), scored("c2", 0.9)], &gaps);
    assert_eq!(alerts.len(), groups.len());
    let alert = alerts
        .iter()
        .find(|alert| alert.file_path == "a.rs")
        .unwrap();
    assert_eq!(alert.arbitration.winning_candidate_id.as_deref(), Some("c2"));
}

fn event(id: &str, outcome: CandidateOutcome) -> CandidateOutcomeEvent {
    CandidateOutcomeEvent {
        file_path: "a.rs".to_string(),
        candidate_id: id.to_string(),
        outcome,
    }
}

#[test]
fn flipping_outcomes_suppress_a_file_until_they_settle() {
    let mut tracker = OscillationTracker::new(4, 2);
    assert!(tracker.record(event("c1", CandidateOutcome::Accepted)).is_none());
    assert!(tracker.record(event("c2", CandidateOutcome::Rejected)).is_none());
    let alert = tracker
        .record(event("c1", CandidateOutcome::Accepted))
        .unwrap();
    assert_eq!(alert.flip_count, 2);
    assert_eq!(alert.candidate_ids, ["c1", "c2"]);
    assert!(tracker.is_suppressed("a.rs"));
    assert!(!tracker.is_suppressed("b.rs"));
    assert!(tracker.record(event("c3", CandidateOutcome::Rejected)).is_none());
    assert!(tracker.is_suppressed("a.rs"));
    assert!(tracker.record(event("c4", CandidateOutcome::Rejected)).is_none());
    assert!(!tracker.is_suppressed("a.rs"));
    assert_eq!(tracker.history_for("a.rs").len(), 2);
    assert!(tracker.history_for("b.rs").is_empty());
}

#[test]
fn histories_are_cut_to_their_window() {
    let mut tracker = OscillationTracker::with_stabilization_window(3, 9, 2);
    for id in ["c1", "c2", "c3", "c4"] {
        assert!(tracker.record(event(id, CandidateOutcome::Accepted)).is_none());
    }
    let kept: Vec<&str> = tracker
        .history_for("a.rs")
        .iter()
        .map(|event| event.candidate_id.as_str())
        .collect();
    assert_eq!(kept, ["c2", "c3", "c4"]);
}

#[test]
fn suppressed_scores_are_silent_until_they_settle() {
    let mut monitor = Monitor::new(3);
    for value in [0.1, 0.9, 0.1, 0.9] {
        assert!(monitor.record_score("a.rs", score(value)).is_none());
    }
    assert!(monitor.record_score("a.rs", score(0.1)).is_some());
    assert!(monitor.is_suppressed("a.rs"));
    assert!(monitor.record_score("a.rs", score(0.9)).is_none());
    assert!(monitor.is_suppressed("a.rs"));
    assert!(monitor.record_score("a.rs", score(0.95)).is_none());
    assert!(!monitor.is_suppressed("a.rs"));
    assert!(!monitor.is_suppressed("b.rs"));
}

#[test]
fn candidates_whose_scores_are_no_numbers_go_by_their_ids() {
    let agents = [agent("x", "a.rs")];
    let order = |candidates: &[CandidateWorkItem]| {
        build_dispatch_plan(candidates, &agents, 9)
            .assignments
            .into_iter()
            .map(|taken| taken.candidate_id)
            .collect::<Vec<_>>()
    };
    assert_eq!(
        order(&[item("b", "a.rs", f64::NAN), item("a", "a.rs", 0.5)]),
        ["a", "b"]
    );
    assert_eq!(
        order(&[item("c", "a.rs", 0.5), item("b", "a.rs", -f64::NAN)]),
        ["b", "c"]
    );
    let ranked = rank_candidates(
        &texts(&["b", "a"]),
        &[scored("a", 0.5), scored("b", f64::NAN)],
    )
    .unwrap();
    assert_eq!(ranked[0].candidate_id, "a");
}

#[test]
fn steps_to_what_is_no_number_change_no_direction() {
    let mut monitor = Monitor::new(1);
    for value in [0.1, f64::NAN, 0.1, f64::NAN, 0.2, 0.1] {
        assert!(monitor.record_score("a.rs", score(value)).is_none());
    }
    assert!(monitor.record_score("a.rs", score(0.3)).is_some());
}
