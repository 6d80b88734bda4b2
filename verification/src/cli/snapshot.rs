//! What is known of all runs at one time.
use crate::cli::figure;
use crate::cli::figure::{own_figure, own_figure_opt, same_figure, same_figures, Figure, FigureView};
use crate::cli::progress;
use crate::cli::progress::{goes_on, CandidateLiveState, StateView};
use crate::db::{AgentLogEntry, SwarmState, ThermalAggregate};
use crate::score;
use crate::sorting;
use crate::sorting::{sort_distinct, sort_stable, Ranked};
use crate::text::chars;
use crate::text::chars::{opt_eq, own, same};
use crate::text::order;
use crate::text::order::text_before;
use vstd::prelude::*;

verus! {

broadcast use chars::lemma_texts_push, chars::lemma_texts_empty;

/// The state of the whole swarm at one time.
#[derive(Debug, Clone)]
pub struct RuntimeOverview {
    pub active_agents: i64,
    pub total_agents_spawned: i64,
    pub total_tokens_used: i64,
    pub total_cost_usd: Figure,
    pub global_temperature: Figure,
    pub iteration_count: i64,
    pub hottest_file: Option<String>,
    pub hottest_score: Option<Figure>,
    pub max_agent_density: i32,
    pub locked_files: usize,
}

/// What a [`RuntimeOverview`] stands for.
#[verifier::ext_equal]
pub struct OverviewView {
    pub active: int,
    pub spawned: int,
    pub tokens: int,
    pub cost: FigureView,
    pub temperature: FigureView,
    pub iterations: int,
    pub hottest_file: Option<Seq<char>>,
    pub hottest_score: Option<FigureView>,
    pub density: int,
    pub locked: nat,
}

impl View for RuntimeOverview {
    type V = OverviewView;

    open spec fn view(&self) -> OverviewView {
        OverviewView {
            active: self.active_agents as int,
            spawned: self.total_agents_spawned as int,
            tokens: self.total_tokens_used as int,
            cost: self.total_cost_usd@,
            temperature: self.global_temperature@,
            iterations: self.iteration_count as int,
            hottest_file: chars::opt_text(self.hottest_file),
            hottest_score: figure::opt_figure(self.hottest_score),
            density: self.max_agent_density as int,
            locked: self.locked_files as nat,
        }
    }
}

/// Whether nothing in the overviews differs.
pub open spec fn equal_overviews(a: OverviewView, b: OverviewView) -> bool {
    &&& a.active == b.active
    &&& a.spawned == b.spawned
    &&& a.tokens == b.tokens
    &&& figure::equal_figure(a.cost, b.cost)
    &&& figure::equal_figure(a.temperature, b.temperature)
    &&& a.iterations == b.iterations
    &&& a.hottest_file == b.hottest_file
    &&& figure::equal_figures(a.hottest_score, b.hottest_score)
    &&& a.density == b.density
    &&& a.locked == b.locked
}

/// Whether nothing in the overviews differs.
pub fn same_overview(a: &RuntimeOverview, b: &RuntimeOverview) -> (r: bool)
    ensures
        r == equal_overviews(a@, b@),
{
    a.active_agents == b.active_agents && a.total_agents_spawned == b.total_agents_spawned
        && a.total_tokens_used == b.total_tokens_used && same_figure(
        &a.total_cost_usd,
        &b.total_cost_usd,
    ) && same_figure(&a.global_temperature, &b.global_temperature) && a.iteration_count
        == b.iteration_count && opt_eq(&a.hottest_file, &b.hottest_file) && same_figures(
        &a.hottest_score,
        &b.hottest_score,
    ) && a.max_agent_density == b.max_agent_density && a.locked_files == b.locked_files
}

/// Where the hottest file stands: of two files the later one, unless the score of the earlier
/// one is higher.
pub open spec fn hottest(s: Seq<ThermalAggregate>) -> Option<int>
    decreases s.len(),
{
    if s.len() == 0 {
        None
    } else {
        match hottest(s.drop_last()) {
            Some(k) if score::lower(
                s.last().composite_score.rank as int,
                s[k].composite_score.rank as int,
            ) => Some(k),
            _ => Some(s.len() - 1),
        }
    }
}

/// Finds the hottest file.
pub fn hottest_aggregate(aggregates: &[ThermalAggregate]) -> (r: Option<usize>)
    ensures
        match r {
            Some(k) => k < aggregates@.len() && hottest(aggregates@) == Some(k as int),
            None => hottest(aggregates@) is None,
        },
{
    let ghost all = aggregates@;
    if aggregates.len() == 0 {
        return None;
    }
    let mut best: usize = 0;
    let mut i: usize = 1;
    proof {
        assert(all.take(1).drop_last() =~= Seq::<ThermalAggregate>::empty());
        assert(hottest(all.take(1).drop_last()) is None);
    }
    while i < aggregates.len()
        invariant
            all == aggregates@,
            1 <= i <= all.len(),
            best < i,
            hottest(all.take(i as int)) == Some(best as int),
        decreases all.len() - i,
    {
        proof {
            assert(all.take(i + 1).drop_last() =~= all.take(i as int));
        }
        if !aggregates[best].composite_score.above(&aggregates[i].composite_score) {
            best = i;
        }
        i = i + 1;
    }
    proof {
        assert(all.take(all.len() as int) =~= all);
    }
    Some(best)
}

/// No file has a higher score than the hottest, and none behind it has the same, where all
/// scores are numbers.
pub proof fn law_hottest_has_the_highest_score(s: Seq<ThermalAggregate>)
    requires
        forall|i: int|
            0 <= i < s.len() ==> score::is_number((#[trigger] s[i]).composite_score.rank as int),
    ensures
        match hottest(s) {
            Some(k) => {
                &&& 0 <= k < s.len()
                &&& forall|j: int|
                    0 <= j < s.len() ==> (#[trigger] s[j]).composite_score.rank
                        <= s[k].composite_score.rank
                &&& forall|j: int|
                    k < j < s.len() ==> (#[trigger] s[j]).composite_score.rank
                        < s[k].composite_score.rank
            },
            None => s.len() == 0,
        },
    decreases s.len(),
{
    if s.len() > 0 {
        let front = s.drop_last();
        law_hottest_has_the_highest_score(front);
        assert forall|j: int| 0 <= j < front.len() implies #[trigger] s[j] == front[j] by {}
    }
}

/// How many files are locked.
pub open spec fn locked_count(s: Seq<ThermalAggregate>) -> nat
    decreases s.len(),
{
    if s.len() == 0 {
        0
    } else {
        locked_count(s.drop_last()) + if s.last().is_locked {
            1nat
        } else {
            0nat
        }
    }
}

/// The highest density of agents on a file, or zero if there is no file.
pub open spec fn top_density(s: Seq<ThermalAggregate>) -> int
    decreases s.len(),
{
    if s.len() == 0 {
        0
    } else if s.len() == 1 {
        s[0].agent_density as int
    } else {
        let rest = top_density(s.drop_last());
        if s.last().agent_density > rest {
            s.last().agent_density as int
        } else {
            rest
        }
    }
}

/// How many tokens the first `n` runs used.
pub open spec fn tokens_of(logs: Seq<AgentLogEntry>, n: int) -> int
    decreases n,
{
    if n <= 0 || n > logs.len() {
        0
    } else {
        tokens_of(logs, n - 1) + logs[n - 1].tokens_used
    }
}

/// Whether the tokens of the runs can be added up.
pub open spec fn tokens_fit(logs: Seq<AgentLogEntry>) -> bool {
    forall|n: int| 0 <= n <= logs.len() ==> i64::MIN <= #[trigger] tokens_of(logs, n) <= i64::MAX
}

/// The numbers of an overview that are measured: the cost and the temperature of the swarm,
/// and the score of the hottest file.
#[derive(Debug, Clone)]
pub struct OverviewFigures {
    pub cost: Figure,
    pub temperature: Figure,
    pub hottest: Option<Figure>,
}

/// The state of the swarm: as it was recorded, or else as the runs tell it.
pub open spec fn overview_of(
    aggregates: Seq<ThermalAggregate>,
    active: int,
    logs: Seq<AgentLogEntry>,
    state: Option<SwarmState>,
    figures: OverviewFigures,
) -> OverviewView {
    OverviewView {
        active,
        spawned: match state {
            Some(s) => s.total_agents_spawned as int,
            None => logs.len() as int,
        },
        tokens: match state {
            Some(s) => s.total_tokens_used as int,
            None => tokens_of(logs, logs.len() as int),
        },
        cost: figures.cost@,
        temperature: figures.temperature@,
        iterations: match state {
            Some(s) => s.iteration_count as int,
            None => 0,
        },
        hottest_file: match hottest(aggregates) {
            Some(k) => Some(aggregates[k].file_path@),
            None => None,
        },
        hottest_score: match hottest(aggregates) {
            Some(k) => figure::opt_figure(figures.hottest),
            None => None,
        },
        density: top_density(aggregates),
        locked: locked_count(aggregates),
    }
}

fn count_locked(aggregates: &[ThermalAggregate]) -> (r: usize)
    ensures
        r == locked_count(aggregates@),
{
    let ghost all = aggregates@;
    let mut n: usize = 0;
    let mut i: usize = 0;
    while i < aggregates.len()
        invariant
            all == aggregates@,
            i <= all.len(),
            n <= i,
            n == locked_count(all.take(i as int)),
        decreases all.len() - i,
    {
        proof {
            assert(all.take(i + 1).drop_last() =~= all.take(i as int));
        }
        if aggregates[i].is_locked {
            n = n + 1;
        }
        i = i + 1;
    }
    proof {
        assert(all.take(all.len() as int) =~= all);
    }
    n
}

fn find_density(aggregates: &[ThermalAggregate]) -> (r: i32)
    ensures
        r == top_density(aggregates@),
{
    let ghost all = aggregates@;
    if aggregates.len() == 0 {
        return 0;
    }
    let mut best: i32 = aggregates[0].agent_density;
    let mut i: usize = 1;
    proof {
        assert(all.take(1)[0] == all[0]);
    }
    while i < aggregates.len()
        invariant
            all == aggregates@,
            1 <= i <= all.len(),
            best == top_density(all.take(i as int)),
        decreases all.len() - i,
    {
        proof {
            assert(all.take(i + 1).drop_last() =~= all.take(i as int));
        }
        if aggregates[i].agent_density > best {
            best = aggregates[i].agent_density;
        }
        i = i + 1;
    }
    proof {
        assert(all.take(all.len() as int) =~= all);
    }
    best
}

fn add_tokens(logs: &[AgentLogEntry]) -> (r: i64)
    requires
        tokens_fit(logs@),
    ensures
        r == tokens_of(logs@, logs@.len() as int),
{
    let mut n: i64 = 0;
    let mut i: usize = 0;
    while i < logs.len()
        invariant
            tokens_fit(logs@),
            i <= logs@.len(),
            n == tokens_of(logs@, i as int),
        decreases logs@.len() - i,
    {
        proof {
            assert(i64::MIN <= tokens_of(logs@, i + 1) <= i64::MAX);
        }
        n = n + logs[i].tokens_used;
        i = i + 1;
    }
    n
}

/// The state of the swarm: as it was recorded, or else as the runs tell it. The measured
/// numbers are given.
pub fn build_runtime_overview(
    aggregates: &[ThermalAggregate],
    active_agents: &[AgentLogEntry],
    logs: &[AgentLogEntry],
    state: &Option<SwarmState>,
    figures: &OverviewFigures,
) -> (r: RuntimeOverview)
    requires
        state is None ==> tokens_fit(logs@),
        active_agents@.len() <= i64::MAX,
        logs@.len() <= i64::MAX,
    ensures
        r@ == overview_of(
            aggregates@,
            active_agents@.len() as int,
            logs@,
            *state,
            *figures,
        ),
{
    let (hottest_file, hottest_score) = match hottest_aggregate(aggregates) {
        Some(i) => (
            Some(own(aggregates[i].file_path.as_str())),
            own_figure_opt(&figures.hottest),
        ),
        None => (None, None),
    };
    let (spawned, tokens, iterations) = match state {
        Some(s) => (s.total_agents_spawned, s.total_tokens_used, s.iteration_count),
        None => (logs.len() as i64, add_tokens(logs), 0),
    };
    RuntimeOverview {
        active_agents: active_agents.len() as i64,
        total_agents_spawned: spawned,
        total_tokens_used: tokens,
        total_cost_usd: own_figure(&figures.cost),
        global_temperature: own_figure(&figures.temperature),
        iteration_count: iterations,
        hottest_file,
        hottest_score,
        max_agent_density: find_density(aggregates),
        locked_files: count_locked(aggregates),
    }
}

/// How many runs are in a phase, and how many of them still go on.
#[derive(Debug, Clone, PartialEq, Eq)]
pub struct PhaseCount {
    pub phase: String,
    pub observed: usize,
    pub active: usize,
}

/// What a [`PhaseCount`] stands for.
#[verifier::ext_equal]
pub struct PhaseView {
    pub phase: Seq<char>,
    pub observed: nat,
    pub active: nat,
}

impl View for PhaseCount {
    type V = PhaseView;

    open spec fn view(&self) -> PhaseView {
        PhaseView { phase: self.phase@, observed: self.observed as nat, active: self.active as nat }
    }
}

/// The phases that the runs are in.
pub open spec fn phases_of(states: Seq<StateView>) -> Seq<Seq<char>>
    decreases states.len(),
{
    if states.len() == 0 {
        Seq::empty()
    } else {
        match states.last().meta.phase {
            Some(p) => phases_of(states.drop_last()).push(p),
            None => phases_of(states.drop_last()),
        }
    }
}

/// How many runs are in a phase.
pub open spec fn observed_in(states: Seq<StateView>, phase: Seq<char>) -> nat
    decreases states.len(),
{
    if states.len() == 0 {
        0
    } else {
        observed_in(states.drop_last(), phase) + if states.last().meta.phase == Some(phase) {
            1nat
        } else {
            0nat
        }
    }
}

/// How many runs are in a phase and still go on.
pub open spec fn active_in(states: Seq<StateView>, phase: Seq<char>) -> nat
    decreases states.len(),
{
    if states.len() == 0 {
        0
    } else {
        active_in(states.drop_last(), phase) + if states.last().meta.phase == Some(phase)
            && progress::is_going_on(states.last().status) {
            1nat
        } else {
            0nat
        }
    }
}

/// Each phase once, in order, with its runs.
pub open spec fn phase_counts(states: Seq<StateView>) -> Seq<PhaseView> {
    let phases = sorting::distinct_texts(phases_of(states));
    Seq::new(
        phases.len(),
        |i: int|
            PhaseView {
                phase: phases[i],
                observed: observed_in(states, phases[i]),
                active: active_in(states, phases[i]),
            },
    )
}

/// A run with the time of its start.
#[derive(Debug)]
pub struct RunStart {
    pub id: i64,
    pub started_at: String,
}

impl View for RunStart {
    type V = (i64, Seq<char>);

    open spec fn view(&self) -> (i64, Seq<char>) {
        (self.id, self.started_at@)
    }
}

/// Whether a run started before another; of two that started together, the one with the lower
/// number comes first.
pub open spec fn started_before(a: (i64, Seq<char>), b: (i64, Seq<char>)) -> bool {
    if a.1 != b.1 {
        order::text_less(a.1, b.1)
    } else {
        a.0 < b.0
    }
}

impl Ranked for RunStart {
    open spec fn proper(a: (i64, Seq<char>)) -> bool {
        true
    }

    open spec fn less(a: (i64, Seq<char>), b: (i64, Seq<char>)) -> bool {
        started_before(a, b)
    }

    fn before(&self, other: &RunStart) -> (r: bool) {
        if !same(self.started_at.as_str(), other.started_at.as_str()) {
            text_before(self.started_at.as_str(), other.started_at.as_str())
        } else {
            self.id < other.id
        }
    }

    proof fn around(a: (i64, Seq<char>), b: (i64, Seq<char>), c: (i64, Seq<char>)) {
        if started_before(c, a) && c.1 != a.1 && a.1 != b.1 {
            order::lemma_text_transitive(c.1, a.1, b.1);
            order::lemma_text_irreflexive(b.1);
        }
    }

    proof fn irreflexive(a: (i64, Seq<char>)) {
    }
}

/// The starts of the runs.
pub open spec fn starts(states: Seq<StateView>) -> Seq<(i64, Seq<char>)> {
    Seq::new(states.len(), |i: int| (states[i].id, states[i].started))
}

/// The numbers of the runs in the order in which they started.
pub open spec fn ordered_ids(states: Seq<StateView>) -> Seq<i64> {
    let s = sorting::sorted::<RunStart>(starts(states));
    Seq::new(s.len(), |i: int| s[i].0)
}

/// What is known last of the run with the given number.
pub open spec fn state_with(states: Seq<StateView>, id: i64) -> Option<StateView>
    decreases states.len(),
{
    if states.len() == 0 {
        None
    } else if states.last().id == id {
        Some(states.last())
    } else {
        state_with(states.drop_last(), id)
    }
}

/// What is known of all runs at one time.
#[derive(Debug, Clone)]
pub struct LiveStatusSnapshot {
    pub logs: Vec<CandidateLiveState>,
    pub ordered_log_ids: Vec<i64>,
    pub phases: Vec<PhaseCount>,
    pub runtime: RuntimeOverview,
}

/// What a [`LiveStatusSnapshot`] stands for.
#[verifier::ext_equal]
pub struct SnapshotView {
    pub logs: Seq<StateView>,
    pub ids: Seq<i64>,
    pub phases: Seq<PhaseView>,
    pub runtime: OverviewView,
}

impl View for LiveStatusSnapshot {
    type V = SnapshotView;

    open spec fn view(&self) -> SnapshotView {
        SnapshotView {
            logs: sorting::views(self.logs@),
            ids: self.ordered_log_ids@,
            phases: sorting::views(self.phases@),
            runtime: self.runtime@,
        }
    }
}

fn collect_phases(states: &[CandidateLiveState]) -> (r: Vec<String>)
    ensures
        chars::texts(r@) == phases_of(sorting::views(states@)),
{
    let ghost all = sorting::views(states@);
    let mut out: Vec<String> = Vec::new();
    let mut i: usize = 0;
    while i < states.len()
        invariant
            all == sorting::views(states@),
            i <= all.len(),
            chars::texts(out@) == phases_of(all.take(i as int)),
        decreases all.len() - i,
    {
        proof {
            assert(all.take(i + 1).drop_last() =~= all.take(i as int));
            assert(all.take(i + 1).last() == states@[i as int]@);
        }
        match &states[i].metadata.phase {
            Some(p) => {
                out.push(own(p.as_str()));
            },
            None => {},
        }
        i = i + 1;
    }
    proof {
        assert(all.take(all.len() as int) =~= all);
    }
    out
}

fn count_phase(states: &[CandidateLiveState], phase: String) -> (r: PhaseCount)
    ensures
        r@ == (PhaseView {
            phase: phase@,
            observed: observed_in(sorting::views(states@), phase@),
            active: active_in(sorting::views(states@), phase@),
        }),
{
    let ghost all = sorting::views(states@);
    let mut observed: usize = 0;
    let mut active: usize = 0;
    let mut i: usize = 0;
    while i < states.len()
        invariant
            all == sorting::views(states@),
            i <= all.len(),
            all.len() == states@.len(),
            observed <= i,
            active <= i,
            observed == observed_in(all.take(i as int), phase@),
            active == active_in(all.take(i as int), phase@),
        decreases all.len() - i,
    {
        proof {
            assert(all.take(i + 1).drop_last() =~= all.take(i as int));
            assert(all.take(i + 1).last() == states@[i as int]@);
        }
        let here = match &states[i].metadata.phase {
            Some(p) => same(p.as_str(), phase.as_str()),
            None => false,
        };
        if here {
            observed = observed + 1;
            if goes_on(states[i].status.as_str()) {
                active = active + 1;
            }
        }
        i = i + 1;
    }
    proof {
        assert(all.take(all.len() as int) =~= all);
    }
    PhaseCount { phase, observed, active }
}

fn count_phases(states: &[CandidateLiveState]) -> (r: Vec<PhaseCount>)
    ensures
        sorting::views(r@) == phase_counts(sorting::views(states@)),
{
    let mut phases = sort_distinct(collect_phases(states));
    let ghost all = sorting::distinct_texts(phases_of(sorting::views(states@)));
    let ghost wanted = phase_counts(sorting::views(states@));
    let mut reversed: Vec<PhaseCount> = Vec::new();
    let mut out: Vec<PhaseCount> = Vec::new();
    while phases.len() > 0
        invariant
            all == sorting::distinct_texts(phases_of(sorting::views(states@))),
            wanted == phase_counts(sorting::views(states@)),
            phases@.len() + reversed@.len() == all.len(),
            forall|i: int| 0 <= i < phases@.len() ==> (#[trigger] phases@[i])@ == all[i],
            forall|i: int|
                0 <= i < reversed@.len() ==> (#[trigger] reversed@[i])@ == wanted[all.len() - 1
                    - i],
        decreases phases@.len(),
    {
        match phases.pop() {
            Some(p) => {
                reversed.push(count_phase(states, p));
            },
            None => {},
        }
    }
    while reversed.len() > 0
        invariant
            wanted.len() == all.len(),
            out@.len() + reversed@.len() == all.len(),
            forall|i: int|
                0 <= i < reversed@.len() ==> (#[trigger] reversed@[i])@ == wanted[all.len() - 1
                    - i],
            forall|i: int| 0 <= i < out@.len() ==> (#[trigger] out@[i])@ == wanted[i],
        decreases reversed@.len(),
    {
        match reversed.pop() {
            Some(p) => {
                out.push(p);
            },
            None => {},
        }
    }
    proof {
        assert(sorting::views(out@) =~= wanted);
    }
    out
}

fn order_ids(states: &[CandidateLiveState]) -> (r: Vec<i64>)
    ensures
        r@ == ordered_ids(sorting::views(states@)),
{
    let ghost all = starts(sorting::views(states@));
    let mut runs: Vec<RunStart> = Vec::new();
    let mut i: usize = 0;
    while i < states.len()
        invariant
            all == starts(sorting::views(states@)),
            i <= states@.len(),
            runs@.len() == i,
            forall|j: int| 0 <= j < i ==> (#[trigger] runs@[j])@ == all[j],
        decreases states@.len() - i,
    {
        runs.push(
            RunStart { id: states[i].log_id, started_at: own(states[i].started_at.as_str()) },
        );
        i = i + 1;
    }
    proof {
        assert(sorting::views(runs@) =~= all);
    }
    let sorted = sort_stable(runs);
    let ghost wanted = sorting::sorted::<RunStart>(all);
    let mut out: Vec<i64> = Vec::new();
    let mut k: usize = 0;
    while k < sorted.len()
        invariant
            sorting::views(sorted@) == wanted,
            k <= sorted@.len(),
            out@.len() == k,
            forall|j: int| 0 <= j < k ==> #[trigger] out@[j] == wanted[j].0,
        decreases sorted@.len() - k,
    {
        proof {
            assert(wanted[k as int] == sorted@[k as int]@);
        }
        out.push(sorted[k].id);
        k = k + 1;
    }
    proof {
        assert(out@ =~= ordered_ids(sorting::views(states@)));
    }
    out
}

/// What is known of all runs, given each of them and the state of the swarm.
pub fn build_live_status_snapshot(states: Vec<CandidateLiveState>, runtime: RuntimeOverview) -> (r:
    LiveStatusSnapshot)
    ensures
        r@ == (SnapshotView {
            logs: sorting::views(states@),
            ids: ordered_ids(sorting::views(states@)),
            phases: phase_counts(sorting::views(states@)),
            runtime: runtime@,
        }),
{
    let ordered_log_ids = order_ids(states.as_slice());
    let phases = count_phases(states.as_slice());
    LiveStatusSnapshot { logs: states, ordered_log_ids, phases, runtime }
}

/// Where the last entry of the run with the given number stands.
pub fn find_state(states: &[CandidateLiveState], id: i64) -> (r: Option<usize>)
    ensures
        match r {
            Some(k) => k < states@.len() && state_with(sorting::views(states@), id) == Some(
                states@[k as int]@,
            ),
            None => state_with(sorting::views(states@), id) is None,
        },
{
    let ghost all = sorting::views(states@);
    let mut i: usize = states.len();
    proof {
        assert(all.take(all.len() as int) =~= all);
    }
    while i > 0
        invariant
            all == sorting::views(states@),
            i <= states@.len(),
            state_with(all, id) == state_with(all.take(i as int), id),
        decreases i,
    {
        proof {
            assert(all.take(i as int).drop_last() =~= all.take(i - 1));
            assert(all.take(i as int).last() == states@[i - 1]@);
        }
        if states[i - 1].log_id == id {
            return Some(i - 1);
        }
        i = i - 1;
    }
    None
}

/// No phase has more runs going on than runs.
pub proof fn law_active_runs_are_observed(states: Seq<StateView>, phase: Seq<char>)
    ensures
        active_in(states, phase) <= observed_in(states, phase) <= states.len(),
    decreases states.len(),
{
    if states.len() > 0 {
        law_active_runs_are_observed(states.drop_last(), phase);
    }
}

proof fn lemma_phase_is_listed(states: Seq<StateView>, i: int)
    requires
        0 <= i < states.len(),
        states[i].meta.phase is Some,
    ensures
        phases_of(states).contains(states[i].meta.phase.unwrap()),
    decreases states.len(),
{
    let front = phases_of(states.drop_last());
    if i < states.len() - 1 {
        lemma_phase_is_listed(states.drop_last(), i);
        assert(states.drop_last()[i] == states[i]);
        let p = states[i].meta.phase.unwrap();
        let k = choose|k: int| 0 <= k < front.len() && front[k] == p;
        assert(phases_of(states)[k] == p);
    } else {
        let all = phases_of(states);
        assert(all[all.len() - 1] == states[i].meta.phase.unwrap());
    }
}

/// The phase of every run is among the phases that are counted, each of which is counted once.
pub proof fn law_every_phase_is_counted(states: Seq<StateView>, i: int)
    requires
        0 <= i < states.len(),
        states[i].meta.phase is Some,
    ensures
        exists|k: int|
            0 <= k < phase_counts(states).len() && Some(
                (#[trigger] phase_counts(states)[k]).phase,
            ) == states[i].meta.phase,
        forall|a: int, b: int|
            0 <= a < b < phase_counts(states).len() ==> (#[trigger] phase_counts(states)[a]).phase
                != (#[trigger] phase_counts(states)[b]).phase,
{
    lemma_phase_is_listed(states, i);
    let phases = sorting::distinct_texts(phases_of(states));
    sorting::law_distinct_texts(phases_of(states));
    let p = states[i].meta.phase.unwrap();
    assert(phases.contains(p));
    let k = choose|k: int| 0 <= k < phases.len() && phases[k] == p;
    assert(phase_counts(states)[k].phase == p);
    assert forall|a: int, b: int| 0 <= a < b < phase_counts(states).len() implies (
    #[trigger] phase_counts(states)[a]).phase != (#[trigger] phase_counts(states)[b]).phase by {
        assert(order::text_less(phases[a], phases[b]));
        order::lemma_text_irreflexive(phases[a]);
    }
}

} // verus!
