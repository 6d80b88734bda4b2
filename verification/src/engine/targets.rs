//! The files that agents can be sent to.
use crate::db::{AgentLogEntry, CoolLock, ThermalAggregate};
use crate::engine::batch::{DispatchTarget, TargetView};
use crate::sorting;
use crate::text::chars::own;
use crate::thermal;
use crate::thermal::{count_agents, target_index, ExecutionPhase};
use vstd::prelude::*;

verus! {

/// A file that can take as many agents as are missing to the highest density.
pub open spec fn open_target(row: ThermalAggregate, agents: Seq<AgentLogEntry>, max_density: i32) ->
    TargetView {
    let active = thermal::agents_at(agents, row.file_path@);
    TargetView {
        file: row.file_path@,
        active: active as i32,
        launchable: (max_density - active) as nat,
        now: true,
    }
}

/// The files that agents can be sent to, in the order in which they come next.
pub open spec fn targets(
    rows: Seq<ThermalAggregate>,
    locks: Seq<CoolLock>,
    agents: Seq<AgentLogEntry>,
    phase: ExecutionPhase,
    max_density: i32,
) -> Seq<TargetView>
    decreases rows.len(),
{
    match thermal::target(rows, locks, agents, phase, max_density) {
        Some(k) => if 0 <= k < rows.len() {
            seq![open_target(rows[k], agents, max_density)] + targets(
                rows.remove(k),
                locks,
                agents,
                phase,
                max_density,
            )
        } else {
            Seq::empty()
        },
        None => Seq::empty(),
    }
}

/// The files that agents can be sent to, in the order in which they come next. The order, and
/// that every such file takes agents at once up to the highest density, are rules of this
/// library.
pub fn dispatch_targets(
    aggregates: Vec<ThermalAggregate>,
    locks: &[CoolLock],
    active_agents: &[AgentLogEntry],
    phase: ExecutionPhase,
    max_density: i32,
) -> (r: Vec<DispatchTarget>)
    ensures
        sorting::views(r@) == targets(
            aggregates@,
            locks@,
            active_agents@,
            phase,
            max_density,
        ),
{
    let ghost all = targets(aggregates@, locks@, active_agents@, phase, max_density);
    let mut rows = aggregates;
    let mut out: Vec<DispatchTarget> = Vec::new();
    proof {
        assert(sorting::views(out@) + all =~= all);
    }
    loop
        invariant
            all == sorting::views(out@) + targets(
                rows@,
                locks@,
                active_agents@,
                phase,
                max_density,
            ),
        ensures
            all == sorting::views(out@),
        decreases rows@.len(),
    {
        match target_index(rows.as_slice(), locks, active_agents, phase, max_density) {
            Some(k) => {
                let ghost before = rows@;
                let ghost done = sorting::views(out@);
                let n: usize = count_agents(active_agents, rows[k].file_path.as_str());
                proof {
                    thermal::law_target_is_eligible(
                        before,
                        locks@,
                        active_agents@,
                        phase,
                        max_density,
                    );
                }
                let active: i32 = n as i32;
                let target = DispatchTarget {
                    file_path: own(rows[k].file_path.as_str()),
                    active_agents: active,
                    launchable_agents: (max_density - active) as usize,
                    launch_now: true,
                };
                let ghost seen = target@;
                out.push(target);
                rows.remove(k);
                proof {
                    assert(seen == open_target(before[k as int], active_agents@, max_density));
                    assert(sorting::views(out@) =~= done.push(seen));
                    assert(done.push(seen) =~= done + seq![seen]);
                    assert(all =~= sorting::views(out@) + targets(
                        rows@,
                        locks@,
                        active_agents@,
                        phase,
                        max_density,
                    ));
                }
            },
            None => {
                proof {
                    assert(all =~= sorting::views(out@));
                }
                break;
            },
        }
    }
    out
}

/// Every file that agents can be sent to has room for one, and is not locked.
pub proof fn law_targets_have_room(
    rows: Seq<ThermalAggregate>,
    locks: Seq<CoolLock>,
    agents: Seq<AgentLogEntry>,
    phase: ExecutionPhase,
    max_density: i32,
    i: int,
)
    requires
        0 <= i < targets(rows, locks, agents, phase, max_density).len(),
    ensures
        targets(rows, locks, agents, phase, max_density)[i].launchable > 0,
        !thermal::lock_on(locks, targets(rows, locks, agents, phase, max_density)[i].file),
    decreases rows.len(),
{
    let k = thermal::target(rows, locks, agents, phase, max_density)->0;
    thermal::law_target_is_eligible(rows, locks, agents, phase, max_density);
    let rest = targets(rows.remove(k), locks, agents, phase, max_density);
    let whole = targets(rows, locks, agents, phase, max_density);
    assert(whole =~= seq![open_target(rows[k], agents, max_density)] + rest);
    if i > 0 {
        assert(whole[i] == rest[i - 1]);
        law_targets_have_room(rows.remove(k), locks, agents, phase, max_density, i - 1);
    }
}

/// Every file that can take agents is a target, whichever others are.
pub proof fn law_every_open_file_is_a_target(
    rows: Seq<ThermalAggregate>,
    locks: Seq<CoolLock>,
    agents: Seq<AgentLogEntry>,
    phase: ExecutionPhase,
    max_density: i32,
    i: int,
)
    requires
        0 <= i < rows.len(),
        thermal::eligible(rows, locks, agents, max_density, i),
    ensures
        exists|k: int|
            0 <= k < targets(rows, locks, agents, phase, max_density).len() && (#[trigger] targets(
                rows,
                locks,
                agents,
                phase,
                max_density,
            )[k]).file == rows[i].file_path@,
    decreases rows.len(),
{
    let all = targets(rows, locks, agents, phase, max_density);
    thermal::law_target_is_eligible(rows, locks, agents, phase, max_density);
    match thermal::target(rows, locks, agents, phase, max_density) {
        Some(k) => {
            let rest = rows.remove(k);
            if k == i {
                assert(all[0].file == rows[i].file_path@);
            } else {
                let j = if i < k {
                    i
                } else {
                    i - 1
                };
                assert(rest[j] == rows[i]);
                law_every_open_file_is_a_target(rest, locks, agents, phase, max_density, j);
                let more = targets(rest, locks, agents, phase, max_density);
                let at = choose|at: int|
                    0 <= at < more.len() && (#[trigger] more[at]).file == rest[j].file_path@;
                assert(all[at + 1] == more[at]);
            }
        },
        None => {},
    }
}

/// A target is told with the agents that are at it and the room that is left.
pub proof fn law_targets_tell_their_room(
    row: ThermalAggregate,
    agents: Seq<AgentLogEntry>,
    max_density: i32,
)
    requires
        thermal::agents_at(agents, row.file_path@) < max_density,
    ensures
        ({
            let t = open_target(row, agents, max_density);
            &&& t.file == row.file_path@
            &&& t.active == thermal::agents_at(agents, row.file_path@)
            &&& t.active + t.launchable == max_density
            &&& t.now
        }),
{
}

} // verus!
