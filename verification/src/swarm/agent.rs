//! Agents of the swarm.
use crate::text::chars::{concat2, concat3, own};
use crate::text::number;
use crate::text::number::{format_i64, format_u64, format_usize};
use vstd::prelude::*;
use vstd::string::*;

verus! {

/// What can go wrong in the swarm.
#[derive(Debug, Clone, PartialEq, Eq)]
pub enum SwarmError {
    /// The database failed.
    Db(String),
    /// The engine failed.
    Engine(String),
    /// There is no such agent.
    AgentNotFound(String),
    /// A file already has as many agents as it may have.
    DensityExceeded { file: String, current: i32, max: i32 },
    /// The budget is used up.
    BudgetExhausted,
    /// The score of a file keeps changing direction.
    OscillationDetected { file: String, count: u32 },
}

/// What an error says.
pub open spec fn swarm_error_text(e: SwarmError) -> Seq<char> {
    match e {
        SwarmError::Db(m) => "database error: "@ + m@,
        SwarmError::Engine(m) => "engine error: "@ + m@,
        SwarmError::AgentNotFound(id) => "agent "@ + id@ + " not found"@,
        SwarmError::DensityExceeded { file, current, max } => "max density reached for "@ + file@
            + ": "@ + number::decimal_int(current as int) + "/"@ + number::decimal_int(max as int),
        SwarmError::BudgetExhausted => "swarm budget exhausted"@,
        SwarmError::OscillationDetected { file, count } => "oscillation detected on "@ + file@
            + ": "@ + number::decimal(count as nat) + " flip-flops"@,
    }
}

impl SwarmError {
    /// What the error says.
    pub fn to_string(&self) -> (r: String)
        ensures
            r@ == swarm_error_text(*self),
    {
        match self {
            SwarmError::Db(m) => concat2("database error: ", m.as_str()),
            SwarmError::Engine(m) => concat2("engine error: ", m.as_str()),
            SwarmError::AgentNotFound(id) => concat3("agent ", id.as_str(), " not found"),
            SwarmError::DensityExceeded { file, current, max } => {
                let mut r = concat3("max density reached for ", file.as_str(), ": ");
                r.append(format_i64(*current as i64).as_str());
                r.append("/");
                r.append(format_i64(*max as i64).as_str());
                r
            },
            SwarmError::BudgetExhausted => own("swarm budget exhausted"),
            SwarmError::OscillationDetected { file, count } => {
                let mut r = concat3("oscillation detected on ", file.as_str(), ": ");
                r.append(format_u64(*count as u64).as_str());
                r.append(" flip-flops");
                r
            },
        }
    }
}

/// Where an agent stands in its work.
#[derive(Debug, Clone, PartialEq, Eq)]
pub enum AgentStatus {
    Spawned,
    Running,
    Success,
    Failed(String),
    Retrying(u32),
}

/// The name of a status in the database.
pub open spec fn status_name(s: AgentStatus) -> Seq<char> {
    match s {
        AgentStatus::Spawned => "spawned"@,
        AgentStatus::Running => "running"@,
        AgentStatus::Success => "success"@,
        AgentStatus::Failed(_) => "failed"@,
        AgentStatus::Retrying(_) => "retrying"@,
    }
}

/// Whether an agent with the given status still works.
pub open spec fn works(s: AgentStatus) -> bool {
    s is Spawned || s is Running || s is Retrying
}

impl AgentStatus {
    /// The name of the status in the database.
    pub fn as_db_str(&self) -> (r: &'static str)
        ensures
            r@ == status_name(*self),
    {
        match self {
            AgentStatus::Spawned => "spawned",
            AgentStatus::Running => "running",
            AgentStatus::Success => "success",
            AgentStatus::Failed(_) => "failed",
            AgentStatus::Retrying(_) => "retrying",
        }
    }
}

/// What an agent is for.
#[derive(Debug, Clone, Copy, PartialEq, Eq, Structural)]
pub enum AgentRole {
    /// Works on files with a low score.
    CoolZone,
    /// Works on files with a high score.
    HotZone,
    /// Watches the other agents.
    Monitor,
}

/// An agent of the swarm.
#[derive(Debug, Clone)]
pub struct Agent {
    pub id: String,
    pub role: AgentRole,
    pub target_file: String,
    pub status: AgentStatus,
    pub constitutional_prompt: String,
    pub tokens_used: i64,
    /// Cost so far, in millionths of a dollar.
    pub cost_micros: u64,
    pub retry_count: u32,
    pub db_log_id: Option<i64>,
}

/// Whether a character is a hexadecimal digit in lower case.
pub open spec fn is_hex(c: char) -> bool {
    '0' <= c <= '9' || 'a' <= c <= 'f'
}

/// Whether a text is a random UUID: 32 hexadecimal digits in five groups, of which the third
/// begins with the version.
pub open spec fn is_random_id(s: Seq<char>) -> bool {
    &&& s.len() == 36
    &&& s[14] == '4'
    &&& forall|i: int|
        0 <= i < 36 ==> if i == 8 || i == 13 || i == 18 || i == 23 {
            #[trigger] s[i] == '-'
        } else {
            is_hex(s[i])
        }
}

/// `uuid::Uuid::new_v4` in its text form: a version 4 UUID with hyphens, in lower case. Which
/// one it is is random.
#[verifier::external_body]
fn new_agent_id() -> (r: String)
    ensures
        is_random_id(r@),
{
    uuid::Uuid::new_v4().to_string()
}

/// Whether an agent is fresh: just spawned for the given file, and nothing spent yet.
pub open spec fn is_fresh(a: Agent, role: AgentRole, file: Seq<char>, prompt: Seq<char>) -> bool {
    &&& a.role == role
    &&& a.target_file@ == file
    &&& a.status is Spawned
    &&& a.constitutional_prompt@ == prompt
    &&& a.tokens_used == 0
    &&& a.cost_micros == 0
    &&& a.retry_count == 0
    &&& a.db_log_id is None
}

/// The name under which the monitor with the given index is listed.
pub open spec fn monitor_target(index: nat) -> Seq<char> {
    "monitor-"@ + number::decimal(index)
}

impl Agent {
    /// Whether the agent still works.
    pub open spec fn active(self) -> bool {
        works(self.status)
    }

    /// Whether candidates can be given to the agent.
    pub open spec fn assignable(self) -> bool {
        self.active() && self.role != AgentRole::Monitor
    }

    /// A fresh agent with the given id.
    pub fn with_id(id: String, role: AgentRole, target_file: &str, constitutional_prompt: &str) -> (r:
        Agent)
        ensures
            r.id == id,
            is_fresh(r, role, target_file@, constitutional_prompt@),
            r.active(),
    {
        Agent {
            id,
            role,
            target_file: own(target_file),
            status: AgentStatus::Spawned,
            constitutional_prompt: own(constitutional_prompt),
            tokens_used: 0,
            cost_micros: 0,
            retry_count: 0,
            db_log_id: None,
        }
    }

    /// A fresh agent for a file with a low score.
    pub fn new_cool(target_file: &str, constitutional_prompt: &str) -> (r: Agent)
        ensures
            is_fresh(r, AgentRole::CoolZone, target_file@, constitutional_prompt@),
            is_random_id(r.id@),
    {
        Agent::with_id(new_agent_id(), AgentRole::CoolZone, target_file, constitutional_prompt)
    }

    /// A fresh agent for a file with a high score.
    pub fn new_hot(target_file: &str, constitutional_prompt: &str) -> (r: Agent)
        ensures
            is_fresh(r, AgentRole::HotZone, target_file@, constitutional_prompt@),
            is_random_id(r.id@),
    {
        Agent::with_id(new_agent_id(), AgentRole::HotZone, target_file, constitutional_prompt)
    }

    /// A fresh monitor.
    pub fn new_monitor(index: usize, constitutional_prompt: &str) -> (r: Agent)
        ensures
            is_fresh(
                r,
                AgentRole::Monitor,
                monitor_target(index as nat),
                constitutional_prompt@,
            ),
            is_random_id(r.id@),
    {
        let target = concat2("monitor-", format_usize(index).as_str());
        Agent::with_id(new_agent_id(), AgentRole::Monitor, target.as_str(), constitutional_prompt)
    }

    /// Whether the agent still works.
    pub fn is_active(&self) -> (r: bool)
        ensures
            r == self.active(),
    {
        match self.status {
            AgentStatus::Spawned => true,
            AgentStatus::Running => true,
            AgentStatus::Retrying(_) => true,
            _ => false,
        }
    }

    /// Whether candidates can be given to the agent.
    pub fn is_assignable(&self) -> (r: bool)
        ensures
            r == self.assignable(),
    {
        self.is_active() && self.role != AgentRole::Monitor
    }
}

} // verus!
