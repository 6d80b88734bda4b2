//! Slots, the budget of a command, and the aggregates of files.
use crate::db::ThermalScore;
use crate::engine::error::EngineError;
use crate::score;
use crate::score::Score;
use crate::sorting;
use crate::sorting::sort_distinct;
use crate::text::chars;
use crate::text::chars::{own, same};
use vstd::prelude::*;

verus! {

broadcast use chars::lemma_texts_push, chars::lemma_texts_empty;

/// The place of seven tenths.
pub const SEVEN_TENTHS: i64 = 0x3fe6_6666_6666_6666;

/// The place of three tenths.
pub const THREE_TENTHS: i64 = 0x3fd3_3333_3333_3333;

/// The place of three hundred.
pub const THREE_HUNDRED: i64 = 0x4072_c000_0000_0000;

/// The limits of a command.
#[derive(Debug, Clone, Copy, PartialEq, Eq, Structural)]
pub struct SchedulerConfig {
    pub max_concurrency: usize,
    /// What a command may cost, in billionths of a dollar.
    pub max_cost_per_command: i128,
    pub retry_limit: u32,
    pub backoff_base_ms: u64,
    pub decay_half_life_seconds: Score,
    pub hot_threshold: Score,
    pub cool_threshold: Score,
}

impl Default for SchedulerConfig {
    fn default() -> (r: SchedulerConfig)
        ensures
            r.max_concurrency == 20,
            r.max_cost_per_command == 500_000_000,
            r.retry_limit == 3,
            r.backoff_base_ms == 500,
            r.decay_half_life_seconds.rank == THREE_HUNDRED,
            r.hot_threshold.rank == SEVEN_TENTHS,
            r.cool_threshold.rank == THREE_TENTHS,
    {
        SchedulerConfig {
            max_concurrency: 20,
            max_cost_per_command: 500_000_000,
            retry_limit: 3,
            backoff_base_ms: 500,
            decay_half_life_seconds: Score { rank: THREE_HUNDRED },
            hot_threshold: Score { rank: SEVEN_TENTHS },
            cool_threshold: Score { rank: THREE_TENTHS },
        }
    }
}

/// Keeps the slots and the budget of a command.
#[derive(Debug)]
pub struct Scheduler {
    pub config: SchedulerConfig,
    /// What was spent, in millionths of a dollar.
    pub total_micros: u64,
    pub active: usize,
}

/// The whole millionths of a dollar in an amount of billionths; none if it is negative.
pub open spec fn micros(nanos: int) -> int {
    if nanos < 0 {
        0
    } else if nanos / 1000 > u64::MAX {
        u64::MAX as int
    } else {
        nanos / 1000
    }
}

impl Scheduler {
    /// What was spent, in billionths of a dollar.
    pub open spec fn spent(&self) -> int {
        self.total_micros * 1000
    }

    /// A scheduler with the given limits.
    pub fn new(config: SchedulerConfig) -> (r: Scheduler)
        ensures
            r.config == config,
            r.total_micros == 0,
            r.active == 0,
    {
        Scheduler { config, total_micros: 0, active: 0 }
    }

    /// Counts one more active agent.
    pub fn acquire(&mut self)
        requires
            old(self).active < usize::MAX,
        ensures
            *final(self) == (Scheduler { active: (old(self).active + 1) as usize, ..*old(self) }),
    {
        self.active = self.active + 1;
    }

    /// Counts one active agent less.
    pub fn release(&mut self)
        requires
            old(self).active > 0,
        ensures
            *final(self) == (Scheduler { active: (old(self).active - 1) as usize, ..*old(self) }),
    {
        self.active = self.active - 1;
    }

    /// Adds what a request cost, in billionths of a dollar; fractions of a millionth are
    /// dropped. It is added in any case; the budget is exceeded if the sum is above the
    /// limit.
    pub fn record_cost(&mut self, cost: i128) -> (r: Result<(), EngineError>)
        requires
            old(self).total_micros + micros(cost as int) <= u64::MAX,
        ensures
            final(self).config == old(self).config,
            final(self).active == old(self).active,
            final(self).total_micros == old(self).total_micros + micros(cost as int),
            if final(self).spent() > old(self).config.max_cost_per_command {
                r matches Err(EngineError::BudgetExceeded { spent, limit }) && spent
                    == final(self).spent() && limit == old(self).config.max_cost_per_command
            } else {
                r is Ok
            },
    {
        let added: u64 = if cost < 0 {
            0
        } else {
            let m: u128 = (cost as u128) / 1000;
            if m > u64::MAX as u128 {
                u64::MAX
            } else {
                m as u64
            }
        };
        self.total_micros = self.total_micros + added;
        let spent: i128 = (self.total_micros as i128) * 1000;
        if spent > self.config.max_cost_per_command {
            return Err(
                EngineError::BudgetExceeded { spent, limit: self.config.max_cost_per_command },
            );
        }
        Ok(())
    }

    /// What was spent, in billionths of a dollar.
    pub fn current_cost(&self) -> (r: i128)
        ensures
            r == self.spent(),
    {
        (self.total_micros as i128) * 1000
    }

    /// How many agents are active.
    pub fn active_count(&self) -> (r: usize)
        ensures
            r == self.active,
    {
        self.active
    }

    /// What may still be spent, in billionths of a dollar.
    pub fn budget_remaining(&self) -> (r: i128)
        requires
            self.config.max_cost_per_command - self.spent() >= i128::MIN,
        ensures
            r == self.config.max_cost_per_command - self.spent(),
    {
        self.config.max_cost_per_command - self.current_cost()
    }

    /// Whether something may still be spent.
    pub fn has_budget(&self) -> (r: bool)
        ensures
            r == (self.spent() < self.config.max_cost_per_command),
    {
        self.current_cost() < self.config.max_cost_per_command
    }

    /// The limits.
    pub fn config(&self) -> (r: &SchedulerConfig)
        ensures
            *r == self.config,
    {
        &self.config
    }
}

/// Once the budget is exceeded it stays exceeded, whatever is recorded.
pub proof fn law_budget_stays_exceeded(total: u64, limit: i128, cost: int)
    requires
        total * 1000 > limit,
        total + micros(cost) <= u64::MAX,
    ensures
        (total + micros(cost)) * 1000 > limit,
{
}

/// A number held between zero and one.
pub open spec fn clamped(rank: int) -> int {
    if !score::is_number(rank) {
        rank
    } else if rank < 0 {
        0
    } else if rank > score::ONE {
        score::ONE as int
    } else {
        rank
    }
}

/// The larger of two numbers; where one is no number, the other.
pub open spec fn larger(a: int, b: int) -> int {
    if !score::is_number(a) {
        b
    } else if score::lower(a, b) {
        b
    } else {
        a
    }
}

fn larger_score(a: Score, b: Score) -> (r: Score)
    ensures
        r.rank == larger(a.rank as int, b.rank as int),
{
    if !a.is_number() || b.above(&a) {
        b
    } else {
        a
    }
}

/// The scores and the density of a file.
#[derive(Debug, Clone, Copy, PartialEq, Eq, Structural)]
pub struct FileHeat {
    pub composite_score: Score,
    pub max_score: Score,
    pub agent_density: i32,
}

/// The scores of a file once a step of the given priority is planned for it: they are at least
/// the priority, held between zero and one.
pub fn planned_heat(existing: Option<FileHeat>, priority: Score) -> (r: FileHeat)
    ensures
        match existing {
            Some(e) => r.composite_score.rank == larger(
                e.composite_score.rank as int,
                clamped(priority.rank as int),
            ) && r.max_score.rank == larger(
                e.max_score.rank as int,
                clamped(priority.rank as int),
            ) && r.agent_density == e.agent_density,
            None => r.composite_score.rank == clamped(priority.rank as int) && r.max_score.rank
                == clamped(priority.rank as int) && r.agent_density == 0,
        },
{
    let rank: i64 = if !priority.is_number() {
        priority.rank
    } else if priority.rank < 0 {
        0
    } else if priority.rank > score::ONE {
        score::ONE
    } else {
        priority.rank
    };
    match existing {
        Some(e) => FileHeat {
            composite_score: larger_score(e.composite_score, Score { rank }),
            max_score: larger_score(e.max_score, Score { rank }),
            agent_density: e.agent_density,
        },
        None => FileHeat {
            composite_score: Score { rank },
            max_score: Score { rank },
            agent_density: 0,
        },
    }
}

/// The scores of one file, by their position.
#[derive(Debug, Clone, PartialEq, Eq)]
pub struct ScoreGroup {
    pub file_path: String,
    pub positions: Vec<usize>,
}

/// The positions of the first `n` scores that belong to a file.
pub open spec fn positions(scores: Seq<ThermalScore>, n: int, file: Seq<char>) -> Seq<usize>
    decreases n,
{
    if n <= 0 {
        Seq::empty()
    } else {
        let front = positions(scores, n - 1, file);
        if scores[n - 1].file_path@ == file {
            front.push((n - 1) as usize)
        } else {
            front
        }
    }
}

/// The files of the scores, in order.
pub open spec fn scored_files(scores: Seq<ThermalScore>) -> Seq<Seq<char>> {
    sorting::distinct_texts(Seq::new(scores.len(), |i: int| scores[i].file_path@))
}

fn positions_of(scores: &[ThermalScore], file: &str) -> (r: Vec<usize>)
    ensures
        r@ == positions(scores@, scores@.len() as int, file@),
{
    let mut out: Vec<usize> = Vec::new();
    let mut i: usize = 0;
    while i < scores.len()
        invariant
            i <= scores@.len(),
            out@ == positions(scores@, i as int, file@),
        decreases scores@.len() - i,
    {
        if same(scores[i].file_path.as_str(), file) {
            out.push(i);
        }
        i = i + 1;
    }
    out
}

/// Groups the scores by file, in the order of the files.
pub fn group_scores(scores: &[ThermalScore]) -> (r: Vec<ScoreGroup>)
    ensures
        r@.len() == scored_files(scores@).len(),
        forall|i: int|
            0 <= i < r@.len() ==> (#[trigger] r@[i]).file_path@ == scored_files(scores@)[i]
                && r@[i].positions@ == positions(
                scores@,
                scores@.len() as int,
                scored_files(scores@)[i],
            ),
{
    let mut files: Vec<String> = Vec::new();
    let mut i: usize = 0;
    while i < scores.len()
        invariant
            i <= scores@.len(),
            files@.len() == i,
            forall|j: int| 0 <= j < i ==> (#[trigger] files@[j])@ == scores@[j].file_path@,
        decreases scores@.len() - i,
    {
        files.push(own(scores[i].file_path.as_str()));
        i = i + 1;
    }
    proof {
        assert(chars::texts(files@) =~= Seq::new(
            scores@.len(),
            |i: int| scores@[i].file_path@,
        ));
    }
    let names = sort_distinct(files);
    let mut out: Vec<ScoreGroup> = Vec::new();
    let mut k: usize = 0;
    while k < names.len()
        invariant
            chars::texts(names@) == scored_files(scores@),
            k <= names@.len(),
            out@.len() == k,
            forall|i: int|
                0 <= i < k ==> (#[trigger] out@[i]).file_path@ == scored_files(scores@)[i]
                    && out@[i].positions@ == positions(
                    scores@,
                    scores@.len() as int,
                    scored_files(scores@)[i],
                ),
        decreases names@.len() - k,
    {
        proof {
            assert(chars::texts(names@)[k as int] == names@[k as int]@);
        }
        out.push(
            ScoreGroup {
                file_path: own(names[k].as_str()),
                positions: positions_of(scores, names[k].as_str()),
            },
        );
        k = k + 1;
    }
    proof {
        assert(chars::texts(names@).len() == names@.len());
    }
    out
}

/// Costs are counted in whole millionths, never more than was paid, and a higher cost never
/// counts less.
pub proof fn law_costs_are_counted_in_millionths(a: int, b: int)
    requires
        0 <= a <= b,
        b / 1000 <= u64::MAX,
    ensures
        micros(a) * 1000 <= a < micros(a) * 1000 + 1000,
        micros(a) <= micros(b),
        micros(-1 - a) == 0,
{
}

/// Of two scores the higher one is kept; what is no number gives way to what is one.
pub proof fn law_larger_scores_are_kept(a: int, b: int)
    ensures
        score::is_number(a) && score::is_number(b) ==> {
            &&& larger(a, b) == larger(b, a)
            &&& larger(a, b) >= a
            &&& larger(a, b) == a || larger(a, b) == b
        },
        score::is_number(a) && !score::is_number(b) ==> larger(a, b) == a && larger(b, a) == a,
{
}

/// A clamped score lies between nothing and one, and a score that does is left as it is.
pub proof fn law_clamped_scores(rank: int)
    requires
        score::is_number(rank),
    ensures
        0 <= clamped(rank) <= score::ONE,
        0 <= rank <= score::ONE ==> clamped(rank) == rank,
        rank < 0 ==> clamped(rank) == 0,
        rank > score::ONE ==> clamped(rank) == score::ONE,
{
}

/// Whether a place is among the given ones.
pub open spec fn has_place(s: Seq<usize>, i: int) -> bool {
    exists|k: int| 0 <= k < s.len() && #[trigger] s[k] == i
}

/// The places of a file's scores are those of all scores that name it, in order.
pub proof fn law_positions_of_a_file(scores: Seq<ThermalScore>, n: int, file: Seq<char>)
    requires
        0 <= n <= scores.len(),
        scores.len() <= usize::MAX,
    ensures
        ({
            let p = positions(scores, n, file);
            &&& forall|k: int|
                0 <= k < p.len() ==> (#[trigger] p[k]) < n && scores[p[k] as int].file_path@ == file
            &&& forall|a: int, b: int| 0 <= a < b < p.len() ==> #[trigger] p[a] < #[trigger] p[b]
            &&& forall|i: int|
                0 <= i < n && (#[trigger] scores[i]).file_path@ == file ==> has_place(p, i)
        }),
    decreases n,
{
    if n > 0 {
        law_positions_of_a_file(scores, n - 1, file);
        let front = positions(scores, n - 1, file);
        let p = positions(scores, n, file);
        assert forall|k: int| 0 <= k < p.len() implies (#[trigger] p[k]) < n
            && scores[p[k] as int].file_path@ == file by {
            if k < front.len() {
                assert(p[k] == front[k]);
            }
        }
        assert forall|a: int, b: int| 0 <= a < b < p.len() implies #[trigger] p[a]
            < #[trigger] p[b] by {
            assert(p[a] == front[a]);
            if b < front.len() {
                assert(p[b] == front[b]);
            }
        }
        assert forall|i: int|
            0 <= i < n && (#[trigger] scores[i]).file_path@ == file implies has_place(p, i) by {
            if i < n - 1 {
                assert(has_place(front, i));
                let k = choose|k: int| 0 <= k < front.len() && #[trigger] front[k] == i;
                assert(p[k] == i);
            } else {
                assert(p[front.len() as int] == i);
            }
        }
    }
}

} // verus!
