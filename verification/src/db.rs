//! Records of the thermal database.
use crate::score;
use crate::score::Score;
use crate::text::chars::{concat2, concat3, same};
use crate::text::number;
use crate::text::number::format_u64;
use vstd::prelude::*;
use vstd::string::*;

verus! {

/// What can go wrong in the database.
#[derive(Debug, Clone, PartialEq, Eq)]
pub enum DbError {
    /// The database reported an error.
    Sqlite(String),
    /// A score does not lie between zero and one.
    ScoreOutOfRange { score: String, file: String, line: u32 },
    /// A region is locked by another agent.
    LockConflict { file: String, locked_by: String },
}

/// What an error says.
pub open spec fn db_error_text(e: DbError) -> Seq<char> {
    match e {
        DbError::Sqlite(m) => "database error: "@ + m@,
        DbError::ScoreOutOfRange { score, file, line } => "thermal score "@ + score@
            + " out of range [0.0, 1.0] for "@ + file@ + ":"@ + number::decimal(line as nat),
        DbError::LockConflict { file, locked_by } => "cool zone lock conflict: "@ + file@
            + " is locked by agent "@ + locked_by@,
    }
}

impl DbError {
    /// What the error says.
    pub fn to_string(&self) -> (r: String)
        ensures
            r@ == db_error_text(*self),
    {
        match self {
            DbError::Sqlite(m) => concat2("database error: ", m.as_str()),
            DbError::ScoreOutOfRange { score, file, line } => {
                let mut r = concat3(
                    "thermal score ",
                    score.as_str(),
                    " out of range [0.0, 1.0] for ",
                );
                r.append(file.as_str());
                r.append(":");
                r.append(format_u64(*line as u64).as_str());
                r
            },
            DbError::LockConflict { file, locked_by } => {
                let mut r = concat3(
                    "cool zone lock conflict: ",
                    file.as_str(),
                    " is locked by agent ",
                );
                r.append(locked_by.as_str());
                r
            },
        }
    }
}

/// A score of a region of code.
#[derive(Debug, Clone)]
pub struct ThermalScore {
    pub id: i64,
    pub file_path: String,
    pub line_start: u32,
    pub line_end: u32,
    pub score: Score,
    pub score_type: String,
    pub source_command: String,
    pub source_agent_id: String,
    pub created_at: String,
    pub decay_factor: Score,
}

/// The scores of a file taken together.
#[derive(Debug, Clone)]
pub struct ThermalAggregate {
    pub file_path: String,
    pub composite_score: Score,
    pub max_score: Score,
    pub agent_density: i32,
    pub last_updated: String,
    pub is_locked: bool,
}

/// One run of an agent.
#[derive(Debug, Clone)]
pub struct AgentLogEntry {
    pub id: i64,
    pub agent_id: String,
    pub command: String,
    pub file_path: String,
    pub status: String,
    pub micro_heatmap: Option<String>,
    pub started_at: String,
    pub completed_at: Option<String>,
    pub tokens_used: i64,
    pub cost_usd: Score,
}

/// The state of the whole swarm.
#[derive(Debug, Clone)]
pub struct SwarmState {
    pub id: i64,
    pub total_agents_spawned: i64,
    pub active_agents: i64,
    pub total_tokens_used: i64,
    pub total_cost_usd: Score,
    pub global_temperature: Score,
    pub iteration_count: i64,
    pub started_at: String,
}

/// A lock on a region of code.
#[derive(Debug, Clone)]
pub struct CoolLock {
    pub file_path: String,
    pub line_start: u32,
    pub line_end: u32,
    pub locked_hash: String,
    pub locked_at: String,
    pub locked_by_agent: String,
}

/// Whether a score lies between zero and one, both included.
pub open spec fn in_unit_range(s: Score) -> bool {
    0 <= s.rank <= score::ONE
}

/// Whether a score can be stored: it lies between zero and one, both included.
pub fn score_in_range(s: &Score) -> (r: bool)
    ensures
        r == in_unit_range(*s),
{
    0 <= s.rank && s.rank <= score::ONE
}

/// Whether a run with the given status is over, so that its end is recorded.
pub fn is_finished_status(status: &str) -> (r: bool)
    ensures
        r == (status@ == "success"@ || status@ == "failed"@),
{
    same(status, "success") || same(status, "failed")
}

/// Whether a lock covers a region of a file: same file, and the regions share a line.
pub open spec fn covers(lock: CoolLock, file: Seq<char>, line_start: u32, line_end: u32) -> bool {
    lock.file_path@ == file && lock.line_start <= line_end && lock.line_end >= line_start
}

/// Whether some lock covers a region of a file.
pub fn region_is_locked(locks: &[CoolLock], file_path: &str, line_start: u32, line_end: u32) -> (r:
    bool)
    ensures
        r == exists|i: int|
            0 <= i < locks@.len() && covers(
                #[trigger] locks@[i],
                file_path@,
                line_start,
                line_end,
            ),
{
    let mut i: usize = 0;
    while i < locks.len()
        invariant
            i <= locks@.len(),
            forall|j: int|
                0 <= j < i ==> !covers(#[trigger] locks@[j], file_path@, line_start, line_end),
        decreases locks@.len() - i,
    {
        let l = &locks[i];
        if same(l.file_path.as_str(), file_path) && l.line_start <= line_end && l.line_end
            >= line_start {
            proof {
                assert(covers(locks@[i as int], file_path@, line_start, line_end));
            }
            return true;
        }
        i = i + 1;
    }
    false
}

/// A lock covers a region exactly if some line of the file lies in both, whichever of the two
/// is asked of the other.
pub proof fn law_locks_cover_shared_lines(
    lock: CoolLock,
    file: Seq<char>,
    line_start: u32,
    line_end: u32,
)
    requires
        lock.line_start <= lock.line_end,
        line_start <= line_end,
    ensures
        covers(lock, file, line_start, line_end) <==> lock.file_path@ == file && exists|n: int|
            is_between(n, lock.line_start, lock.line_end) && is_between(n, line_start, line_end),
{
    if covers(lock, file, line_start, line_end) {
        let n = if lock.line_start >= line_start {
            lock.line_start as int
        } else {
            line_start as int
        };
        assert(is_between(n, lock.line_start, lock.line_end) && is_between(
            n,
            line_start,
            line_end,
        ));
    }
}

/// Whether a line lies between two others.
pub open spec fn is_between(n: int, first: u32, last: u32) -> bool {
    first <= n <= last
}

} // verus!
