use mercury_cli::db::ThermalAggregate;
use mercury_cli::score::Score;
use mercury_cli::swarm::agent::{Agent, AgentRole, AgentStatus, SwarmError};
use mercury_cli::swarm::monitor::{DensityController, Monitor};
use mercury_cli::swarm::spawner::{Spawner, SpawnerConfig};

fn score(value: f64) -> Score {
    Score::from_bits(value.to_bits())
}

fn aggregate(path: &str, value: f64) -> ThermalAggregate {
    ThermalAggregate {
        file_path: path.to_string(),
        composite_score: score(value),
        max_score: score(value),
        agent_density: 0,
        last_updated: String::new(),
        is_locked: false,
    }
}

#[test]
fn test_agent_lifecycle() {
    let agent = Agent::new_cool("src/main.rs", "be careful");
    assert_eq!(agent.status, AgentStatus::Spawned);
    assert!(agent.is_active());
    assert_eq!(agent.role, AgentRole::CoolZone);
}

#[test]
fn test_agent_status_db_str() {
    assert_eq!(AgentStatus::Spawned.as_db_str(), "spawned");
    assert_eq!(AgentStatus::Running.as_db_str(), "running");
    assert_eq!(AgentStatus::Success.as_db_str(), "success");
    assert_eq!(AgentStatus::Failed("err".to_string()).as_db_str(), "failed");
    assert_eq!(AgentStatus::Retrying(2).as_db_str(), "retrying");
}

#[test]
fn agents_have_ids_of_their_own() {
    let first = Agent::new_hot("src/main.rs", "");
    let second = Agent::new_hot("src/main.rs", "");
    assert_eq!(first.id.len(), 36);
    assert_eq!(first.id.matches('-').count(), 4);
    assert_eq!(first.id.as_bytes()[14], b'4');
    assert!(first.id != second.id);
}

#[test]
fn monitors_take_no_work() {
    let monitor = Agent::new_monitor(2, "");
    assert_eq!(monitor.target_file, "monitor-2");
    assert!(monitor.is_active());
    assert!(!monitor.is_assignable());
}

#[test]
fn test_density_controller() {
    let dc = DensityController::new(5);
    let wanted = |value: f64| (1.0 + 4.0 * value) as i32;
    assert_eq!(dc.max_density_for_score(wanted(0.0)), 1);
    assert_eq!(dc.max_density_for_score(wanted(1.0)), 5);
    assert!(dc.can_add_agent(0, wanted(0.5)));
    assert!(!dc.can_add_agent(5, wanted(0.5)));
    assert_eq!(dc.max_density_for_score(-3), 1);
    assert_eq!(dc.max_density_for_score(9), 5);
}

#[test]
fn test_monitor_no_oscillation_monotonic() {
    let mut monitor = Monitor::new(2);
    assert!(monitor.record_score("a.rs", score(0.1)).is_none());
    assert!(monitor.record_score("a.rs", score(0.3)).is_none());
    assert!(monitor.record_score("a.rs", score(0.5)).is_none());
    assert!(monitor.record_score("a.rs", score(0.7)).is_none());
    assert!(monitor.record_score("a.rs", score(0.9)).is_none());
}

#[test]
fn test_monitor_oscillation_detected() {
    let mut monitor = Monitor::new(2);
    assert!(monitor.record_score("a.rs", score(0.5)).is_none());
    assert!(monitor.record_score("a.rs", score(0.7)).is_none());
    assert!(monitor.record_score("a.rs", score(0.4)).is_none());
    let result = monitor.record_score("a.rs", score(0.8));
    assert!(result.is_some());
    assert!(monitor.is_suppressed("a.rs"));
    assert!(!monitor.is_suppressed("b.rs"));
    assert!(monitor.record_score("a.rs", score(0.2)).is_none());
}

#[test]
fn test_conflict_detection() {
    let agents = vec![
        Agent::new_hot("src/a.rs", ""),
        Agent::new_hot("src/a.rs", ""),
        Agent::new_cool("src/b.rs", ""),
    ];
    let conflicts = Monitor::detect_conflicts(&agents);
    assert_eq!(conflicts.len(), 1);
    assert_eq!(conflicts[0].0, "src/a.rs");
    assert_eq!(conflicts[0].1.len(), 2);
}

#[test]
fn test_spawner_basic() {
    let cool = [aggregate("cool.rs", 0.1)];
    let hot = [aggregate("hot.rs", 0.85)];

    let spawner = Spawner::new(SpawnerConfig::default());
    let agents = spawner.spawn_agents(&cool, &hot, 10, "constitutional");

    assert!(!agents.is_empty());
    let has_cool = agents.iter().any(|a| a.role == AgentRole::CoolZone);
    let has_hot = agents.iter().any(|a| a.role == AgentRole::HotZone);
    assert!(has_cool);
    assert!(has_hot);
}

#[test]
fn spawner_keeps_to_the_slots() {
    let cool = [aggregate("a.rs", 0.1), aggregate("b.rs", 0.2)];
    let hot = [aggregate("c.rs", 0.9)];
    let agents = Spawner::new(SpawnerConfig::default()).spawn_agents(&cool, &hot, 2, "");
    assert!(agents.len() <= 2);
}

#[test]
fn swarm_errors_name_their_cause() {
    assert_eq!(
        SwarmError::DensityExceeded {
            file: "a.rs".to_string(),
            current: 3,
            max: 3,
        }
        .to_string(),
        "max density reached for a.rs: 3/3"
    );
    assert_eq!(
        SwarmError::OscillationDetected {
            file: "a.rs".to_string(),
            count: 2,
        }
        .to_string(),
        "oscillation detected on a.rs: 2 flip-flops"
    );
    assert_eq!(
        SwarmError::AgentNotFound("x".to_string()).to_string(),
        "agent x not found"
    );
}
