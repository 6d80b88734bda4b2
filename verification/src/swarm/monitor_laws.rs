//! Laws of watching scores and outcomes, of crowded files, and of new agents.
use crate::db::ThermalAggregate;
use crate::swarm::agent::{Agent, AgentRole};
use crate::swarm::monitor;
use crate::swarm::monitor::MonitorLimits;
use crate::swarm::oscillation;
use crate::swarm::oscillation::{OutcomeView, TrackerLimits};
use crate::swarm::spawner;
use crate::swarm::spawner::{Post, SpawnerConfig};
use crate::swarm::track;
use vstd::prelude::*;

verus! {

/// Only the latest values are kept: as many as asked for, or all if there are no more.
pub proof fn law_latest_is_the_end<A>(old: Seq<A>, new: Seq<A>)
    ensures
        track::latest(old + new, new.len()) == new,
        track::latest(new, new.len() + old.len()) == new,
{
    if old.len() > 0 {
        assert(track::latest(old + new, new.len()) =~= new);
    } else {
        assert(old + new =~= new);
    }
    assert(new.subrange(0, new.len() as int) =~= new);
}

/// Whether the value at `i` is higher than both its neighbours or lower than both.
pub open spec fn turns_at(s: Seq<i64>, i: int) -> bool {
    ||| monitor::is_lower(s[i - 1], s[i]) && monitor::is_lower(s[i + 1], s[i])
    ||| monitor::is_lower(s[i], s[i - 1]) && monitor::is_lower(s[i], s[i + 1])
}

/// How many places of a sequence are turns.
pub open spec fn turn_places(s: Seq<i64>) -> Set<int> {
    Set::new(|i: int| 0 < i < s.len() - 1 && turns_at(s, i))
}

proof fn lemma_turns(s: Seq<i64>)
    ensures
        turn_places(s).finite(),
        turn_places(s).len() == monitor::score_flips(s),
    decreases s.len(),
{
    if s.len() < 3 {
        assert(turn_places(s) =~= Set::<int>::empty());
    } else {
        let front = s.drop_last();
        let n = s.len() - 2;
        lemma_turns(front);
        assert(turn_places(s) =~= if turns_at(s, n as int) {
            turn_places(front).insert(n as int)
        } else {
            turn_places(front)
        });
        assert(!turn_places(front).contains(n as int));
    }
}

/// Scores flip as often as a score is higher than both its neighbours or lower than both.
pub proof fn law_flips_count_turns(s: Seq<i64>)
    ensures
        turn_places(s).finite(),
        monitor::score_flips(s) == turn_places(s).len(),
{
    lemma_turns(s);
}

/// A recording raises an alert exactly if the file is not silenced, there are three recent
/// scores or more, and they flip as often as the threshold says or more; the alert tells how
/// often, and silences the file.
pub proof fn law_score_alerts(c: MonitorLimits, t: track::Seen<i64>, rank: i64)
    requires
        !t.suppressed,
    ensures
        ({
            let recent = track::latest(t.history.push(rank), c.window);
            let step = monitor::score_step(c, t, rank);
            let flips = turn_places(recent).len();
            &&& step.1 is Some <==> recent.len() >= 3 && flips >= c.threshold
            &&& step.1 is Some ==> step.1 == Some(flips)
            &&& step.0.suppressed == (step.1 is Some)
            &&& step.0.history == recent
        }),
{
    lemma_turns(track::latest(t.history.push(rank), c.window));
}

/// The latest scores, as many as the run says, only rise or only fall, and no more than that
/// many do.
pub proof fn law_run_is_the_longest(s: Seq<i64>)
    requires
        s.len() > 0,
    ensures
        ({
            let run = monitor::monotonic_run(s);
            &&& 1 <= run <= s.len()
            &&& one_way(track::latest(s, run))
            &&& run < s.len() ==> !one_way(track::latest(s, run + 1))
        }),
{
    let n = s.len() - 1;
    lemma_run(s, n as int, 0);
    let run = monitor::monotonic_run(s);
    let d = choose|d: int| #[trigger] is_way(s, n - (run - 1), n as int, d);
    lemma_one_way_tail(s, (run - 1) as nat, d);
    if run < s.len() {
        assert(!exists|d: int| #[trigger] is_way(s, n - run, n as int, d));
        if one_way(track::latest(s, run + 1)) {
            lemma_way_of_tail(s, run);
        }
    }
}

/// Whether scores only rise or only fall.
pub open spec fn one_way(s: Seq<i64>) -> bool {
    ||| forall|i: int| 0 < i < s.len() ==> monitor::direction(s[i - 1], #[trigger] s[i]) >= 0
    ||| forall|i: int| 0 < i < s.len() ==> monitor::direction(s[i - 1], #[trigger] s[i]) <= 0
}

/// Whether the scores between two places go in the direction `d`, upwards or downwards, where
/// they move at all.
pub open spec fn is_way(s: Seq<i64>, lo: int, hi: int, d: int) -> bool {
    &&& d == 1 || d == -1
    &&& forall|j: int|
        lo < j <= hi ==> monitor::direction(s[j - 1], #[trigger] s[j]) == 0 || monitor::direction(
            s[j - 1],
            s[j],
        ) == d
}

proof fn lemma_run(s: Seq<i64>, i: int, dir: int)
    requires
        0 <= i < s.len(),
        -1 <= dir <= 1,
    ensures
        ({
            let r = monitor::run_before(s, i, dir);
            &&& r <= i
            &&& exists|d: int| #[trigger] is_way(s, i - r, i, d) && (dir == 0 || d == dir)
            &&& r < i ==> !exists|d: int|
                #[trigger] is_way(s, i - r - 1, i, d) && (dir == 0 || d == dir)
        }),
    decreases i,
{
    let r = monitor::run_before(s, i, dir);
    if i == 0 {
        let d = if dir == 0 {
            1
        } else {
            dir
        };
        assert(is_way(s, 0, 0, d));
    } else {
        let m = monitor::direction(s[i - 1], s[i]);
        if m == 0 || dir == 0 || m == dir {
            let next = if m == 0 {
                dir
            } else {
                m
            };
            lemma_run(s, i - 1, next);
            let q = monitor::run_before(s, i - 1, next);
            assert(r == q + 1);
            let d = choose|d: int| #[trigger] is_way(s, i - 1 - q, i - 1, d) && (next == 0 || d == next);
            assert(is_way(s, i - r, i, d)) by {
                assert forall|j: int| i - r < j <= i implies monitor::direction(
                    s[j - 1],
                    #[trigger] s[j],
                ) == 0 || monitor::direction(s[j - 1], s[j]) == d by {}
            }
            if r < i {
                assert forall|d: int| !(#[trigger] is_way(s, i - r - 1, i, d) && (dir == 0 || d
                    == dir)) by {
                    if is_way(s, i - r - 1, i, d) && (dir == 0 || d == dir) {
                        assert(monitor::direction(s[i - 1], s[i]) == m);
                        assert(m == 0 || m == d);
                        assert(is_way(s, i - 1 - q - 1, i - 1, d));
                    }
                }
            }
        } else {
            assert(r == 0);
            assert(is_way(s, i, i, dir));
            assert forall|d: int| !(#[trigger] is_way(s, i - 1, i, d) && (dir == 0 || d == dir)) by {
                if is_way(s, i - 1, i, d) && d == dir {
                    assert(monitor::direction(s[i - 1], s[i]) == m);
                }
            }
        }
    }
}

proof fn lemma_one_way_tail(s: Seq<i64>, r: nat, d: int)
    requires
        r < s.len(),
        is_way(s, s.len() - 1 - r, s.len() - 1, d),
    ensures
        one_way(track::latest(s, r + 1)),
{
    let t = track::latest(s, r + 1);
    let at = s.len() - 1 - r;
    assert forall|i: int| 0 < i < t.len() implies {
        let m = monitor::direction(t[i - 1], #[trigger] t[i]);
        m == 0 || m == d
    } by {
        assert(t[i] == s[at + i] && t[i - 1] == s[at + i - 1]);
    }
}

proof fn lemma_way_of_tail(s: Seq<i64>, r: nat)
    requires
        r < s.len(),
        one_way(track::latest(s, r + 1)),
    ensures
        exists|d: int| #[trigger] is_way(s, s.len() - 1 - r, s.len() - 1, d),
{
    let t = track::latest(s, r + 1);
    let at = s.len() - 1 - r;
    let up = forall|i: int| 0 < i < t.len() ==> monitor::direction(t[i - 1], #[trigger] t[i]) >= 0;
    let d = if up {
        1
    } else {
        -1
    };
    assert forall|j: int| at < j <= s.len() - 1 implies monitor::direction(s[j - 1], #[trigger] s[j])
        == 0 || monitor::direction(s[j - 1], s[j]) == d by {
        assert(t[j - at] == s[j] && t[j - at - 1] == s[j - 1]);
    }
    assert(is_way(s, s.len() - 1 - r, s.len() - 1, d));
}

/// A silenced file is heard again exactly if its latest scores have only risen or only fallen
/// for as long as the limits say; until then every score is kept and none is forgotten but by
/// the window.
pub proof fn law_silence_ends_when_scores_settle(
    c: MonitorLimits,
    t: track::Seen<i64>,
    rank: i64,
)
    requires
        t.suppressed,
        c.threshold > 0,
    ensures
        ({
            let recent = track::latest(t.history.push(rank), c.window);
            let run = monitor::monotonic_run(recent);
            let step = monitor::score_step(c, t, rank);
            &&& step.0.suppressed <==> run < c.stabilization
            &&& step.0.suppressed ==> step.0.history == recent
            &&& !step.0.suppressed ==> step.0.history == track::latest(recent, run)
        }),
{
    monitor::law_suppressed_scores_stay_silent(c, t, rank);
}

/// How many places of a history differ in outcome from the place before.
pub open spec fn changes(s: Seq<OutcomeView>) -> Set<int> {
    Set::new(|i: int| 0 < i < s.len() && s[i].outcome != s[i - 1].outcome)
}

proof fn lemma_changes(s: Seq<OutcomeView>)
    ensures
        changes(s).finite(),
        changes(s).len() == oscillation::outcome_flips(s),
    decreases s.len(),
{
    if s.len() < 2 {
        assert(changes(s) =~= Set::<int>::empty());
    } else {
        let front = s.drop_last();
        let n = s.len() - 1;
        lemma_changes(front);
        assert(changes(s) =~= if s[n].outcome != s[n - 1].outcome {
            changes(front).insert(n)
        } else {
            changes(front)
        });
        assert(!changes(front).contains(n));
    }
}

/// Outcomes flip as often as an outcome differs from the one before it.
pub proof fn law_flips_count_changes(s: Seq<OutcomeView>)
    ensures
        changes(s).finite(),
        oscillation::outcome_flips(s) == changes(s).len(),
{
    lemma_changes(s);
}

/// An outcome raises an alert exactly if the file is not silenced, there are three recent
/// outcomes or more, and they flip as often as the threshold says or more; the alert tells the
/// file, how often, and which candidates took part.
pub proof fn law_outcome_alerts(c: TrackerLimits, t: track::Seen<OutcomeView>, e: OutcomeView)
    requires
        !t.suppressed,
    ensures
        ({
            let recent = track::latest(t.history.push(e), c.window);
            let step = oscillation::outcome_step(c, t, e);
            let flips = changes(recent).len();
            &&& step.1 is Some <==> recent.len() >= 3 && flips >= c.threshold
            &&& step.1 matches Some(a) ==> {
                &&& a.file == e.file
                &&& a.flips == flips
                &&& forall|id: Seq<char>| #[trigger]
                    a.ids.contains(id) <==> exists|i: int|
                        0 <= i < recent.len() && (#[trigger] recent[i]).id == id
            }
            &&& step.0.suppressed == (step.1 is Some)
            &&& step.0.history == recent
        }),
{
    let recent = track::latest(t.history.push(e), c.window);
    lemma_changes(recent);
    let ids = oscillation::outcome_ids(recent);
    crate::sorting::law_distinct_texts(ids);
    assert forall|id: Seq<char>| #[trigger]
        crate::sorting::distinct_texts(ids).contains(id) <==> exists|i: int|
            0 <= i < recent.len() && (#[trigger] recent[i]).id == id by {
        if ids.contains(id) {
            let i = choose|i: int| 0 <= i < ids.len() && ids[i] == id;
            assert(recent[i].id == id);
        }
        if exists|i: int| 0 <= i < recent.len() && (#[trigger] recent[i]).id == id {
            let i = choose|i: int| 0 <= i < recent.len() && (#[trigger] recent[i]).id == id;
            assert(ids[i] == id);
        }
    }
}

/// The latest outcomes, as many as the run says, are all the same, and the one before differs.
pub proof fn law_settled_outcomes_are_the_same(s: Seq<OutcomeView>)
    requires
        s.len() > 0,
    ensures
        ({
            let run = oscillation::settled_run(s);
            &&& 1 <= run <= s.len()
            &&& forall|i: int|
                s.len() - run <= i < s.len() ==> (#[trigger] s[i]).outcome == s.last().outcome
            &&& run < s.len() ==> s[s.len() - run - 1].outcome != s.last().outcome
        }),
    decreases s.len(),
{
    if s.len() >= 2 && s[s.len() - 2].outcome == s.last().outcome {
        law_settled_outcomes_are_the_same(s.drop_last());
        let run = oscillation::settled_run(s);
        assert forall|i: int| s.len() - run <= i < s.len() implies (#[trigger] s[i]).outcome
            == s.last().outcome by {
            if i < s.len() - 1 {
                assert(s.drop_last()[i].outcome == s.drop_last().last().outcome);
            }
        }
    }
}

/// A silenced file is heard again exactly if its latest outcomes have been the same for as long
/// as the limits say; then only those are remembered.
pub proof fn law_silence_ends_when_outcomes_settle(
    c: TrackerLimits,
    t: track::Seen<OutcomeView>,
    e: OutcomeView,
)
    requires
        t.suppressed,
        c.threshold > 0,
    ensures
        ({
            let recent = track::latest(t.history.push(e), c.window);
            let run = oscillation::settled_run(recent);
            let step = oscillation::outcome_step(c, t, e);
            &&& step.0.suppressed <==> run < c.stabilization
            &&& step.0.suppressed ==> step.0.history == recent
            &&& !step.0.suppressed ==> step.0.history == track::latest(recent, run)
        }),
{
    oscillation::law_suppressed_files_stay_silent(c, t, e);
}

/// The agents on a file are those that work on it and take candidates, in their order.
pub proof fn law_agents_on_a_file(agents: Seq<Agent>, file: Seq<char>)
    ensures
        ({
            let on_file = agents.filter(|a: Agent| a.assignable() && a.target_file@ == file);
            monitor::agents_on(agents, file) == Seq::new(on_file.len(), |i: int| on_file[i].id@)
        }),
    decreases agents.len(),
{
    reveal(Seq::filter);
    let on_file = agents.filter(|a: Agent| a.assignable() && a.target_file@ == file);
    if agents.len() > 0 {
        law_agents_on_a_file(agents.drop_last(), file);
    }
    assert(monitor::agents_on(agents, file) =~= Seq::new(
        on_file.len(),
        |i: int| on_file[i].id@,
    ));
}

proof fn lemma_crowded(agents: Seq<Agent>, n: int)
    requires
        0 <= n <= agents.len(),
    ensures
        forall|k: int|
            0 <= k < monitor::crowded(agents, n).len() ==> {
                let c = #[trigger] monitor::crowded(agents, n)[k];
                &&& c.1 == monitor::agents_on(agents, c.0)
                &&& c.1.len() > 1
                &&& monitor::known(agents, c.0, n)
            },
        forall|a: int, b: int|
            0 <= a < b < monitor::crowded(agents, n).len() ==> (#[trigger] monitor::crowded(
                agents,
                n,
            )[a]).0 != (#[trigger] monitor::crowded(agents, n)[b]).0,
        forall|file: Seq<char>| #[trigger]
            monitor::known(agents, file, n) && monitor::agents_on(agents, file).len() > 1
                ==> is_listed(monitor::crowded(agents, n), file),
    decreases n,
{
    if n > 0 {
        lemma_crowded(agents, n - 1);
        let front = monitor::crowded(agents, n - 1);
        let all = monitor::crowded(agents, n);
        let f = agents[n - 1].target_file@;
        assert forall|k: int| 0 <= k < all.len() implies {
            let c = #[trigger] all[k];
            &&& c.1 == monitor::agents_on(agents, c.0)
            &&& c.1.len() > 1
            &&& monitor::known(agents, c.0, n)
        } by {
            if k < front.len() {
                assert(front[k] == all[k]);
                let j = choose|j: int|
                    0 <= j < n - 1 && (#[trigger] agents[j]).assignable() && agents[j].target_file@
                        == all[k].0;
                assert(agents[j].assignable());
            } else {
                assert(agents[n - 1].assignable());
            }
        }
        assert forall|a: int, b: int| 0 <= a < b < all.len() implies (#[trigger] all[a]).0 != (
        #[trigger] all[b]).0 by {
            assert(front[a] == all[a]);
            if b < front.len() {
                assert(front[b] == all[b]);
            }
        }
        assert forall|file: Seq<char>| #[trigger]
            monitor::known(agents, file, n) && monitor::agents_on(agents, file).len()
                > 1 implies is_listed(all, file) by {
            if monitor::known(agents, file, n - 1) {
                assert(is_listed(front, file));
                let k = choose|k: int| 0 <= k < front.len() && (#[trigger] front[k]).0 == file;
                assert(all[k].0 == file);
            } else {
                let j = choose|j: int|
                    0 <= j < n && (#[trigger] agents[j]).assignable() && agents[j].target_file@
                        == file;
                assert(j == n - 1);
                assert(all[front.len() as int].0 == file);
            }
        }
    }
}

/// Whether a file is listed as crowded.
pub open spec fn is_listed(s: Seq<(Seq<char>, Seq<Seq<char>>)>, file: Seq<char>) -> bool {
    exists|k: int| 0 <= k < s.len() && (#[trigger] s[k]).0 == file
}

/// A file is listed as a conflict exactly if two agents or more work on it, once and with all of
/// these agents.
pub proof fn law_crowded_files_are_listed_once(agents: Seq<Agent>, file: Seq<char>)
    ensures
        ({
            let listed = monitor::crowded(agents, agents.len() as int);
            &&& is_listed(listed, file) <==> monitor::agents_on(agents, file).len() > 1
            &&& forall|k: int|
                0 <= k < listed.len() && (#[trigger] listed[k]).0 == file ==> listed[k].1
                    == monitor::agents_on(agents, file)
            &&& forall|a: int, b: int|
                0 <= a < b < listed.len() ==> (#[trigger] listed[a]).0 != (#[trigger] listed[b]).0
        }),
{
    let n = agents.len() as int;
    lemma_crowded(agents, n);
    if monitor::agents_on(agents, file).len() > 1 {
        lemma_on_is_known(agents, file);
        assert(monitor::known(agents, file, n));
    }
}

proof fn lemma_on_is_known(agents: Seq<Agent>, file: Seq<char>)
    requires
        monitor::agents_on(agents, file).len() > 0,
    ensures
        monitor::known(agents, file, agents.len() as int),
    decreases agents.len(),
{
    let a = agents.last();
    if a.assignable() && a.target_file@ == file {
        assert(agents[agents.len() - 1].assignable());
    } else {
        let front = agents.drop_last();
        lemma_on_is_known(front, file);
        let j = choose|j: int|
            0 <= j < front.len() && (#[trigger] front[j]).assignable() && front[j].target_file@
                == file;
        assert(agents[j].assignable());
    }
}

/// Cool zones get an agent exactly if they are not locked and not crowded, hot zones exactly if
/// they are not crowded; each agent is sent to the file of its zone, in their order.
pub proof fn law_zones_get_their_agents(zones: Seq<ThermalAggregate>, max_density: i32)
    ensures
        ({
            let free = zones.filter(
                |z: ThermalAggregate| !z.is_locked && z.agent_density < max_density,
            );
            spawner::cool_posts(zones, max_density) == Seq::new(
                free.len(),
                |i: int| Post { role: AgentRole::CoolZone, file: free[i].file_path@ },
            )
        }),
        ({
            let free = zones.filter(|z: ThermalAggregate| z.agent_density < max_density);
            spawner::hot_posts(zones, max_density) == Seq::new(
                free.len(),
                |i: int| Post { role: AgentRole::HotZone, file: free[i].file_path@ },
            )
        }),
    decreases zones.len(),
{
    reveal(Seq::filter);
    let cool = zones.filter(|z: ThermalAggregate| !z.is_locked && z.agent_density < max_density);
    let hot = zones.filter(|z: ThermalAggregate| z.agent_density < max_density);
    if zones.len() > 0 {
        law_zones_get_their_agents(zones.drop_last(), max_density);
    }
    assert(spawner::cool_posts(zones, max_density) =~= Seq::new(
        cool.len(),
        |i: int| Post { role: AgentRole::CoolZone, file: cool[i].file_path@ },
    ));
    assert(spawner::hot_posts(zones, max_density) =~= Seq::new(
        hot.len(),
        |i: int| Post { role: AgentRole::HotZone, file: hot[i].file_path@ },
    ));
}

/// Agents for cool zones come first and take half of the slots at most, agents for hot zones
/// take of the slots what is left, and there is one monitor for as many of both as the ratio
/// says, as far as the cap on all agents allows.
pub proof fn law_slots_are_shared_out(
    c: SpawnerConfig,
    cool: Seq<ThermalAggregate>,
    hot: Seq<ThermalAggregate>,
    slots: nat,
)
    requires
        c.monitor_ratio > 0,
    ensures
        ({
            let all = spawner::posts(c, cool, hot, slots);
            let a = spawner::cool_posts(
                spawner::first(cool, slots / 2),
                c.max_density_per_file,
            );
            let b = spawner::hot_posts(
                spawner::first(hot, (slots - a.len()) as nat),
                c.max_density_per_file,
            );
            let workers = a.len() + b.len();
            let cap = c.max_agents_per_command as nat;
            &&& a.len() <= slots / 2
            &&& workers <= slots
            &&& all.len() == spawner::first(
                Seq::new(workers + workers / c.monitor_ratio as nat, |i: int| i),
                cap,
            ).len()
            &&& forall|i: int|
                0 <= i < all.len() ==> (#[trigger] all[i]).role == (if i < a.len() {
                    AgentRole::CoolZone
                } else if i < workers {
                    AgentRole::HotZone
                } else {
                    AgentRole::Monitor
                })
        }),
{
    let a = spawner::cool_posts(spawner::first(cool, slots / 2), c.max_density_per_file);
    spawner::law_spawned_agents_fit_slots(c, cool, hot, slots);
    let left = (slots - a.len()) as nat;
    let b = spawner::hot_posts(spawner::first(hot, left), c.max_density_per_file);
    lemma_posts(spawner::first(cool, slots / 2), c.max_density_per_file);
    lemma_posts(spawner::first(hot, left), c.max_density_per_file);
}

proof fn lemma_posts(zones: Seq<ThermalAggregate>, max_density: i32)
    ensures
        spawner::cool_posts(zones, max_density).len() <= zones.len(),
        spawner::hot_posts(zones, max_density).len() <= zones.len(),
        forall|i: int|
            0 <= i < spawner::cool_posts(zones, max_density).len() ==> (
            #[trigger] spawner::cool_posts(zones, max_density)[i]).role == AgentRole::CoolZone,
        forall|i: int|
            0 <= i < spawner::hot_posts(zones, max_density).len() ==> (#[trigger] spawner::hot_posts(
                zones,
                max_density,
            )[i]).role == AgentRole::HotZone,
    decreases zones.len(),
{
    if zones.len() > 0 {
        lemma_posts(zones.drop_last(), max_density);
    }
}

} // verus!
