//! Laws of what the live status counts and tells.
use crate::cli::events;
use crate::cli::events::{EventView, LiveRenderMode, Transition};
use crate::cli::progress;
use crate::cli::progress::StateView;
use crate::cli::snapshot;
use crate::cli::snapshot::{OverviewView, PhaseView, RunStart, SnapshotView};
use crate::db::{AgentLogEntry, ThermalAggregate};
use crate::sorting;
use crate::swarm::track;
use crate::text::order;
use vstd::prelude::*;

verus! {

/// Locked files are counted, and the density is the highest of all files.
pub proof fn law_files_are_counted(s: Seq<ThermalAggregate>)
    ensures
        snapshot::locked_count(s) == s.filter(|a: ThermalAggregate| a.is_locked).len(),
        forall|i: int|
            0 <= i < s.len() ==> (#[trigger] s[i]).agent_density <= snapshot::top_density(s),
        s.len() > 0 ==> exists|i: int|
            0 <= i < s.len() && (#[trigger] s[i]).agent_density == snapshot::top_density(s),
        s.len() == 0 ==> snapshot::top_density(s) == 0,
    decreases s.len(),
{
    reveal(Seq::filter);
    if s.len() > 0 {
        let front = s.drop_last();
        let n = s.len() - 1;
        law_files_are_counted(front);
        if s.len() > 1 {
            assert forall|i: int| 0 <= i < s.len() implies (#[trigger] s[i]).agent_density
                <= snapshot::top_density(s) by {
                if i < n {
                    assert(front[i].agent_density <= snapshot::top_density(front));
                }
            }
            let k = choose|k: int|
                0 <= k < front.len() && (#[trigger] front[k]).agent_density
                    == snapshot::top_density(front);
            if s[n].agent_density <= snapshot::top_density(front) {
                assert(s[k].agent_density == snapshot::top_density(s));
            }
        } else {
            assert(s[0].agent_density == snapshot::top_density(s));
        }
    }
}

/// Tokens are summed up over all log entries.
pub proof fn law_tokens_add_up(a: Seq<AgentLogEntry>, b: Seq<AgentLogEntry>, n: int)
    requires
        0 <= n <= b.len(),
    ensures
        snapshot::tokens_of(a + b, a.len() + n) == snapshot::tokens_of(a, a.len() as int)
            + snapshot::tokens_of(b, n),
        b.len() == 1 ==> snapshot::tokens_of(b, 1) == b[0].tokens_used,
    decreases n,
{
    if b.len() == 1 {
        assert(snapshot::tokens_of(b, 0) == 0);
    }
    if n > 0 {
        law_tokens_add_up(a, b, n - 1);
        assert((a + b)[a.len() + n - 1] == b[n - 1]);
    } else {
        lemma_tokens_front(a, b, a.len() as int);
    }
}

proof fn lemma_tokens_front(a: Seq<AgentLogEntry>, b: Seq<AgentLogEntry>, n: int)
    requires
        0 <= n <= a.len(),
    ensures
        snapshot::tokens_of(a + b, n) == snapshot::tokens_of(a, n),
    decreases n,
{
    if n > 0 {
        lemma_tokens_front(a, b, n - 1);
        assert((a + b)[n - 1] == a[n - 1]);
    }
}

/// The runs of a phase are counted, and so are those of them that are still going on.
pub proof fn law_runs_of_a_phase_are_counted(states: Seq<StateView>, phase: Seq<char>)
    ensures
        snapshot::observed_in(states, phase) == states.filter(
            |s: StateView| s.meta.phase == Some(phase),
        ).len(),
        snapshot::active_in(states, phase) == states.filter(
            |s: StateView| s.meta.phase == Some(phase) && progress::is_going_on(s.status),
        ).len(),
    decreases states.len(),
{
    reveal(Seq::filter);
    if states.len() > 0 {
        law_runs_of_a_phase_are_counted(states.drop_last(), phase);
    }
}

/// Each phase is counted with the runs that are in it.
pub proof fn law_phase_counts_are_those_of_the_phase(states: Seq<StateView>, k: int)
    requires
        0 <= k < snapshot::phase_counts(states).len(),
    ensures
        ({
            let p = snapshot::phase_counts(states)[k];
            &&& p.observed == snapshot::observed_in(states, p.phase)
            &&& p.active == snapshot::active_in(states, p.phase)
            &&& p.observed > 0
        }),
{
    let phases = snapshot::phases_of(states);
    let p = snapshot::phase_counts(states)[k];
    sorting::law_distinct_texts(phases);
    assert(sorting::distinct_texts(phases)[k] == p.phase);
    assert(sorting::distinct_texts(phases).contains(p.phase));
    assert(phases.contains(p.phase));
    lemma_phase_is_observed(states, p.phase);
}

proof fn lemma_phase_is_observed(states: Seq<StateView>, phase: Seq<char>)
    requires
        snapshot::phases_of(states).contains(phase),
    ensures
        snapshot::observed_in(states, phase) > 0,
    decreases states.len(),
{
    if states.len() > 0 && states.last().meta.phase != Some(phase) {
        let front = snapshot::phases_of(states.drop_last());
        let all = snapshot::phases_of(states);
        let i = choose|i: int| 0 <= i < all.len() && all[i] == phase;
        assert(front[i] == phase);
        lemma_phase_is_observed(states.drop_last(), phase);
    }
}

/// Every run has its place in the order of starting, and runs that started at the same time
/// are ordered by their numbers.
pub proof fn law_runs_are_ordered_by_start(states: Seq<StateView>)
    ensures
        snapshot::ordered_ids(states).len() == states.len(),
        ({
            let s = sorting::sorted::<RunStart>(snapshot::starts(states));
            &&& s.to_multiset() == snapshot::starts(states).to_multiset()
            &&& forall|i: int| 0 <= i < s.len() ==> #[trigger] snapshot::ordered_ids(states)[i]
                == s[i].0
            &&& forall|a: int, b: int|
                0 <= a < b < s.len() ==> !order::text_less(
                    (#[trigger] s[b]).1,
                    (#[trigger] s[a]).1,
                ) && (s[a].1 == s[b].1 ==> s[a].0 <= s[b].0)
        }),
{
    let x = snapshot::starts(states);
    let s = sorting::sorted::<RunStart>(x);
    sorting::law_sorted::<RunStart>(x);
    assert forall|a: int, b: int| 0 <= a < b < s.len() implies !order::text_less(
        (#[trigger] s[b]).1,
        (#[trigger] s[a]).1,
    ) && (s[a].1 == s[b].1 ==> s[a].0 <= s[b].0) by {
        assert(!<RunStart as sorting::Ranked>::less(s[b], s[a]));
        order::lemma_text_irreflexive(s[a].1);
    }
}

/// The state of a run is the one that was recorded last for its number.
pub proof fn law_last_state_of_a_run_counts(states: Seq<StateView>, s: StateView, id: i64)
    ensures
        snapshot::state_with(states.push(s), s.id) == Some(s),
        id != s.id ==> snapshot::state_with(states.push(s), id) == snapshot::state_with(states, id),
        snapshot::state_with(Seq::empty(), id) is None,
        snapshot::state_with(states, id) matches Some(x) ==> x.id == id,
    decreases states.len(),
{
    assert(states.push(s).drop_last() =~= states);
    if states.len() > 0 {
        law_last_state_of_a_run_counts(states.drop_last(), s, id);
    }
}

/// Two overviews count as equal only if no number and no file in them differs.
pub proof fn law_differing_overviews_are_noticed(a: OverviewView, b: OverviewView)
    requires
        a.active != b.active || a.spawned != b.spawned || a.tokens != b.tokens || a.iterations
            != b.iterations || a.hottest_file != b.hottest_file || a.density != b.density
            || a.locked != b.locked,
    ensures
        !snapshot::equal_overviews(a, b),
{
}

/// Where no swarm is recorded, agents and tokens are taken from the log entries; else from the
/// record.
pub proof fn law_overviews_go_by_the_record(
    aggregates: Seq<ThermalAggregate>,
    active: int,
    logs: Seq<AgentLogEntry>,
    state: Option<crate::db::SwarmState>,
    figures: snapshot::OverviewFigures,
)
    ensures
        ({
            let o = snapshot::overview_of(aggregates, active, logs, state, figures);
            &&& o.active == active
            &&& state is None ==> o.spawned == logs.len() && o.tokens == snapshot::tokens_of(
                logs,
                logs.len() as int,
            ) && o.iterations == 0
            &&& state matches Some(s) ==> o.spawned == s.total_agents_spawned && o.tokens
                == s.total_tokens_used && o.iterations == s.iteration_count
            &&& o.hottest_file is None <==> aggregates.len() == 0
            &&& o.hottest_score is Some ==> aggregates.len() > 0
        }),
{
}

/// A run that was not known before was launched; one whose status differs has changed its
/// status; one that differs otherwise was updated; and of one that does not differ nothing is
/// told.
pub proof fn law_transitions(before: Option<StateView>, now: StateView)
    ensures
        events::change(before, now) == Some(Transition::Launched) <==> before is None,
        before matches Some(b) ==> {
            &&& events::change(before, now) == Some(Transition::StatusChanged) <==> b.status
                != now.status
            &&& events::change(before, now) == Some(Transition::MetadataUpdated) <==> b.status
                == now.status && !progress::equal_states(b, now)
            &&& events::change(before, now) is None <==> b.status == now.status
                && progress::equal_states(b, now)
        },
        events::change(before, now) != Some(Transition::Observed),
{
}

/// Changes are told run by run, in the order of the runs: each with its transition and its
/// state, if there is something to tell.
pub proof fn law_changes_are_told_run_by_run(
    before: Seq<StateView>,
    now: Seq<StateView>,
    a: Seq<i64>,
    b: Seq<i64>,
    id: i64,
)
    ensures
        events::change_events(before, now, a + b) == events::change_events(before, now, a)
            + events::change_events(before, now, b),
        ({
            let told = events::change_events(before, now, seq![id]);
            match snapshot::state_with(now, id) {
                Some(s) => match events::change(snapshot::state_with(before, id), s) {
                    Some(t) => told == seq![EventView::Candidate(t, false, s)],
                    None => told.len() == 0,
                },
                None => told.len() == 0,
            }
        }),
    decreases b.len(),
{
    let x = events::change_events(before, now, a);
    assert(seq![id].drop_last() =~= Seq::<i64>::empty());
    assert(seq![id].last() == id);
    let none = events::change_events(before, now, Seq::<i64>::empty());
    assert(none =~= Seq::<EventView>::empty());
    if b.len() == 0 {
        assert(a + b =~= a);
        assert(x + events::change_events(before, now, b) =~= x);
    } else {
        assert((a + b).drop_last() =~= a + b.drop_last());
        assert((a + b).last() == b.last());
        law_changes_are_told_run_by_run(before, now, a, b.drop_last(), id);
        let y = events::change_events(before, now, b.drop_last());
        if let Some(s) = snapshot::state_with(now, b.last()) {
            if let Some(t) = events::change(snapshot::state_with(before, b.last()), s) {
                let e = EventView::Candidate(t, false, s);
                assert((x + y).push(e) =~= x + y.push(e));
            }
        }
    }
}

/// A phase that was not there before is told of as started, once and in order; phases that were
/// there are not.
pub proof fn law_new_phases_are_told(before: Seq<PhaseView>, now: Seq<PhaseView>)
    ensures
        ({
            let new = now.filter(|p: PhaseView| !events::has_phase(before, p.phase));
            events::new_phase_events(before, now) == Seq::new(
                new.len(),
                |i: int| EventView::PhaseStarted(new[i], false),
            )
        }),
    decreases now.len(),
{
    reveal(Seq::filter);
    let new = now.filter(|p: PhaseView| !events::has_phase(before, p.phase));
    if now.len() > 0 {
        law_new_phases_are_told(before, now.drop_last());
    }
    assert(events::new_phase_events(before, now) =~= Seq::new(
        new.len(),
        |i: int| EventView::PhaseStarted(new[i], false),
    ));
}

/// A change of the whole is told last, exactly if the overview differs.
pub proof fn law_runtime_changes_are_told_last(before: SnapshotView, now: SnapshotView)
    ensures
        ({
            let told = events::diff_events(before, now);
            let rest = events::new_phase_events(before.phases, now.phases) + events::change_events(
                before.logs,
                now.logs,
                now.ids,
            );
            if snapshot::equal_overviews(before.runtime, now.runtime) {
                told == rest
            } else {
                told == rest.push(EventView::Runtime(now.runtime, false))
            }
        }),
{
    let rest = events::new_phase_events(before.phases, now.phases) + events::change_events(
        before.logs,
        now.logs,
        now.ids,
    );
    assert(rest + Seq::<EventView>::empty() =~= rest);
    assert(rest + seq![EventView::Runtime(now.runtime, false)] =~= rest.push(
        EventView::Runtime(now.runtime, false),
    ));
}

/// The first report says that someone attached, tells every phase and the latest runs as
/// backlog, and ends with the overview.
pub proof fn law_first_report_tells_the_backlog(
    s: SnapshotView,
    mode: LiveRenderMode,
    ms: u64,
    k: int,
)
    requires
        0 <= k < s.phases.len(),
    ensures
        ({
            let told = events::initial_events(s, mode, ms);
            &&& told.first() == EventView::Attached(mode, ms)
            &&& told[1 + k] == EventView::PhaseStarted(s.phases[k], true)
            &&& told.last() == EventView::Runtime(s.runtime, true)
            &&& told.len() == 2 + s.phases.len() + events::observed_events(
                s.logs,
                track::latest(s.ids, events::LIVE_EVENT_BACKLOG_LIMIT as nat),
            ).len()
        }),
{
}

/// Runs of the backlog are told in order, each that is known once.
pub proof fn law_known_runs_are_observed(
    states: Seq<StateView>,
    a: Seq<i64>,
    b: Seq<i64>,
    id: i64,
)
    ensures
        events::observed_events(states, a + b) == events::observed_events(states, a)
            + events::observed_events(states, b),
        ({
            let told = events::observed_events(states, seq![id]);
            match snapshot::state_with(states, id) {
                Some(s) => told == seq![EventView::Candidate(Transition::Observed, true, s)],
                None => told.len() == 0,
            }
        }),
    decreases b.len(),
{
    let x = events::observed_events(states, a);
    assert(seq![id].drop_last() =~= Seq::<i64>::empty());
    assert(seq![id].last() == id);
    assert(events::observed_events(states, Seq::<i64>::empty()) =~= Seq::<EventView>::empty());
    if b.len() == 0 {
        assert(a + b =~= a);
        assert(x + events::observed_events(states, b) =~= x);
    } else {
        assert((a + b).drop_last() =~= a + b.drop_last());
        assert((a + b).last() == b.last());
        law_known_runs_are_observed(states, a, b.drop_last(), id);
        let y = events::observed_events(states, b.drop_last());
        if let Some(s) = snapshot::state_with(states, b.last()) {
            let e = EventView::Candidate(Transition::Observed, true, s);
            assert((x + y).push(e) =~= x + y.push(e));
        }
    }
}

/// An overview tells the density and the locks of the files, and the file that is hottest.
pub proof fn law_overviews_tell_of_the_files(
    aggregates: Seq<ThermalAggregate>,
    active: int,
    logs: Seq<AgentLogEntry>,
    state: Option<crate::db::SwarmState>,
    figures: snapshot::OverviewFigures,
)
    ensures
        ({
            let o = snapshot::overview_of(aggregates, active, logs, state, figures);
            &&& o.locked == aggregates.filter(|a: ThermalAggregate| a.is_locked).len()
            &&& forall|i: int|
                0 <= i < aggregates.len() ==> (#[trigger] aggregates[i]).agent_density <= o.density
            &&& aggregates.len() > 0 ==> exists|i: int|
                0 <= i < aggregates.len() && (#[trigger] aggregates[i]).agent_density == o.density
            &&& snapshot::hottest(aggregates) matches Some(k) ==> o.hottest_file == Some(
                aggregates[k].file_path@,
            )
        }),
{
    law_files_are_counted(aggregates);
}

} // verus!
