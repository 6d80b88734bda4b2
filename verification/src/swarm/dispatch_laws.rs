//! Laws of dispatch.
use crate::sorting;
use crate::swarm::agent::Agent;
use crate::swarm::dispatch;
use crate::swarm::dispatch::{AssignmentView, CandidateWorkItem, ItemView};
use vstd::prelude::*;

verus! {

/// The candidates of assignments.
pub open spec fn assigned_ids(given: Seq<AssignmentView>) -> Seq<Seq<char>> {
    Seq::new(given.len(), |i: int| given[i].candidate)
}

/// Every candidate is either assigned once or listed once as unassigned, and nothing else
/// is.
pub proof fn law_dispatch_loses_no_candidate(cs: Seq<ItemView>, agents: Seq<Agent>, limit: nat)
    ensures
        ({
            let plan = dispatch::dispatch_plan(cs, agents, limit);
            (assigned_ids(plan.assignments) + plan.unassigned).to_multiset()
                == dispatch::item_ids(cs).to_multiset()
        }),
{
    if limit == 0 {
        let plan = dispatch::dispatch_plan(cs, agents, limit);
        assert(assigned_ids(plan.assignments) + plan.unassigned =~= dispatch::item_ids(cs));
    } else {
        let s = sorting::sorted::<CandidateWorkItem>(cs);
        sorting::law_sorting_keeps::<CandidateWorkItem>(cs);
        lemma_outcomes(agents, limit, s);
        lemma_ids_of_same(s, cs);
    }
}

proof fn lemma_outcomes(agents: Seq<Agent>, limit: nat, cs: Seq<ItemView>)
    ensures
        ({
            let d = dispatch::dispatch_all(agents, limit, cs);
            (assigned_ids(d.assignments) + d.unassigned).to_multiset() == dispatch::item_ids(
                cs,
            ).to_multiset()
        }),
    decreases cs.len(),
{
    if cs.len() == 0 {
        let d = dispatch::dispatch_all(agents, limit, cs);
        assert(assigned_ids(d.assignments) + d.unassigned =~= dispatch::item_ids(cs));
    } else {
        let front = cs.drop_last();
        let c = cs.last();
        lemma_outcomes(agents, limit, front);
        let st = dispatch::dispatch_all(agents, limit, front);
        let d = dispatch::dispatch_all(agents, limit, cs);
        let a = assigned_ids(st.assignments);
        assert(dispatch::item_ids(cs) =~= dispatch::item_ids(front).push(c.id));
        vstd::seq_lib::to_multiset_build(dispatch::item_ids(front), c.id);
        vstd::seq_lib::lemma_multiset_commutative(a, st.unassigned);
        vstd::seq_lib::lemma_multiset_commutative(assigned_ids(d.assignments), d.unassigned);
        let ids = dispatch::file_agents(agents, c.file);
        match dispatch::with_room(
            ids,
            st.assignments,
            limit,
            dispatch::turn(st.turns, c.file),
            0,
        ) {
            Some(k) => {
                assert(assigned_ids(d.assignments) =~= a.push(c.id));
                vstd::seq_lib::to_multiset_build(a, c.id);
                assert(a.to_multiset().insert(c.id).add(st.unassigned.to_multiset())
                    =~= a.to_multiset().add(st.unassigned.to_multiset()).insert(c.id));
            },
            None => {
                vstd::seq_lib::to_multiset_build(st.unassigned, c.id);
                assert(a.to_multiset().add(st.unassigned.to_multiset().insert(c.id))
                    =~= a.to_multiset().add(st.unassigned.to_multiset()).insert(c.id));
            },
        }
    }
}

proof fn lemma_ids_of_same(s: Seq<ItemView>, t: Seq<ItemView>)
    requires
        s.to_multiset() == t.to_multiset(),
    ensures
        dispatch::item_ids(s).to_multiset() == dispatch::item_ids(t).to_multiset(),
    decreases s.len(),
{
    vstd::seq_lib::to_multiset_len(s);
    vstd::seq_lib::to_multiset_len(t);
    if s.len() == 0 {
        assert(dispatch::item_ids(s) =~= dispatch::item_ids(t));
    } else {
        let x = s.last();
        assert(s[s.len() - 1] == x);
        assert(s.contains(x));
        vstd::seq_lib::to_multiset_contains(s, x);
        vstd::seq_lib::to_multiset_contains(t, x);
        let k = choose|k: int| 0 <= k < t.len() && t[k] == x;
        let s1 = s.drop_last();
        let t1 = t.remove(k);
        assert(s1 =~= s.remove(s.len() - 1));
        vstd::seq_lib::to_multiset_remove(s, s.len() - 1);
        vstd::seq_lib::to_multiset_remove(t, k);
        lemma_ids_of_same(s1, t1);
        let si = dispatch::item_ids(s);
        let ti = dispatch::item_ids(t);
        assert(dispatch::item_ids(s1) =~= si.remove(s.len() - 1));
        assert(dispatch::item_ids(t1) =~= ti.remove(k));
        vstd::seq_lib::to_multiset_remove(si, s.len() - 1);
        vstd::seq_lib::to_multiset_remove(ti, k);
        assert(si.contains(x.id)) by {
            assert(si[s.len() - 1] == x.id);
        }
        assert(ti.contains(x.id)) by {
            assert(ti[k] == x.id);
        }
        vstd::seq_lib::to_multiset_contains(si, x.id);
        vstd::seq_lib::to_multiset_contains(ti, x.id);
        assert(si.to_multiset() =~= si.to_multiset().remove(x.id).insert(x.id));
        assert(ti.to_multiset() =~= ti.to_multiset().remove(x.id).insert(x.id));
    }
}

proof fn lemma_load_push(given: Seq<AssignmentView>, a: AssignmentView, agent: Seq<char>)
    ensures
        dispatch::load(given.push(a), agent) == dispatch::load(given, agent) + (if a.agent
            == agent {
            1nat
        } else {
            0nat
        }),
{
    assert(given.push(a).drop_last() =~= given);
}

/// No agent is given more candidates than the limit, and each of its candidates stands in
/// its queue behind those that it was given before.
pub proof fn law_dispatch_respects_limit(
    cs: Seq<ItemView>,
    agents: Seq<Agent>,
    limit: nat,
    agent: Seq<char>,
)
    ensures
        ({
            let given = dispatch::dispatch_plan(cs, agents, limit).assignments;
            &&& dispatch::load(given, agent) <= limit
            &&& forall|i: int|
                0 <= i < given.len() ==> (#[trigger] given[i]).position == dispatch::load(
                    given.take(i),
                    given[i].agent,
                )
        }),
{
    if limit > 0 {
        lemma_limit(agents, limit, sorting::sorted::<CandidateWorkItem>(cs), agent);
    }
}

proof fn lemma_limit(agents: Seq<Agent>, limit: nat, cs: Seq<ItemView>, agent: Seq<char>)
    ensures
        ({
            let given = dispatch::dispatch_all(agents, limit, cs).assignments;
            &&& dispatch::load(given, agent) <= limit
            &&& forall|i: int|
                0 <= i < given.len() ==> (#[trigger] given[i]).position == dispatch::load(
                    given.take(i),
                    given[i].agent,
                )
        }),
    decreases cs.len(),
{
    if cs.len() > 0 {
        let front = cs.drop_last();
        let c = cs.last();
        lemma_limit(agents, limit, front, agent);
        let st = dispatch::dispatch_all(agents, limit, front);
        let ids = dispatch::file_agents(agents, c.file);
        let t = dispatch::turn(st.turns, c.file);
        dispatch::lemma_with_room(ids, st.assignments, limit, t, 0);
        match dispatch::with_room(ids, st.assignments, limit, t, 0) {
            Some(k) => {
                let a = AssignmentView {
                    candidate: c.id,
                    agent: ids[k],
                    file: c.file,
                    position: dispatch::load(st.assignments, ids[k]),
                };
                let given = st.assignments.push(a);
                lemma_load_push(st.assignments, a, agent);
                assert forall|i: int| 0 <= i < given.len() implies (#[trigger] given[i]).position
                    == dispatch::load(given.take(i), given[i].agent) by {
                    if i < st.assignments.len() {
                        assert(given[i] == st.assignments[i]);
                        assert(given.take(i) =~= st.assignments.take(i));
                    } else {
                        assert(given.take(i) =~= st.assignments);
                    }
                }
            },
            None => {},
        }
    }
}

/// A candidate is only given to an agent that works on the candidate's file and is no
/// monitor.
pub proof fn law_dispatch_keeps_to_files(
    cs: Seq<ItemView>,
    agents: Seq<Agent>,
    limit: nat,
    i: int,
)
    requires
        0 <= i < dispatch::dispatch_plan(cs, agents, limit).assignments.len(),
    ensures
        ({
            let a = dispatch::dispatch_plan(cs, agents, limit).assignments[i];
            exists|k: int|
                0 <= k < agents.len() && (#[trigger] agents[k]).assignable() && agents[k].id@
                    == a.agent && agents[k].target_file@ == a.file
        }),
{
    lemma_files(agents, limit, sorting::sorted::<CandidateWorkItem>(cs), i);
}

proof fn lemma_files(agents: Seq<Agent>, limit: nat, cs: Seq<ItemView>, i: int)
    requires
        0 <= i < dispatch::dispatch_all(agents, limit, cs).assignments.len(),
    ensures
        ({
            let a = dispatch::dispatch_all(agents, limit, cs).assignments[i];
            exists|k: int|
                0 <= k < agents.len() && (#[trigger] agents[k]).assignable() && agents[k].id@
                    == a.agent && agents[k].target_file@ == a.file
        }),
    decreases cs.len(),
{
    let front = cs.drop_last();
    let c = cs.last();
    let st = dispatch::dispatch_all(agents, limit, front);
    if i < st.assignments.len() {
        lemma_files(agents, limit, front, i);
    } else {
        let ids = dispatch::file_agents(agents, c.file);
        let t = dispatch::turn(st.turns, c.file);
        dispatch::lemma_with_room(ids, st.assignments, limit, t, 0);
        match dispatch::with_room(ids, st.assignments, limit, t, 0) {
            Some(k) => {
                lemma_file_agent(agents, c.file, k);
            },
            None => {},
        }
    }
}

proof fn lemma_file_agent(agents: Seq<Agent>, file: Seq<char>, j: int)
    requires
        0 <= j < dispatch::file_agents(agents, file).len(),
    ensures
        exists|k: int|
            0 <= k < agents.len() && (#[trigger] agents[k]).assignable() && agents[k].id@
                == dispatch::file_agents(agents, file)[j] && agents[k].target_file@ == file,
    decreases agents.len(),
{
    let front = agents.drop_last();
    let before = dispatch::file_agents(front, file);
    if j < before.len() {
        lemma_file_agent(front, file, j);
        let k = choose|k: int|
            0 <= k < front.len() && (#[trigger] front[k]).assignable() && front[k].id@
                == before[j] && front[k].target_file@ == file;
        assert(agents[k] == front[k]);
    } else {
        assert(agents[agents.len() - 1] == agents.last());
    }
}

/// How many candidates belong to a file.
pub open spec fn items_of_file(cs: Seq<ItemView>, file: Seq<char>) -> nat
    decreases cs.len(),
{
    if cs.len() == 0 {
        0
    } else {
        items_of_file(cs.drop_last(), file) + (if cs.last().file == file {
            1nat
        } else {
            0nat
        })
    }
}

/// How many assignments belong to a file.
pub open spec fn given_in_file(given: Seq<AssignmentView>, file: Seq<char>) -> nat
    decreases given.len(),
{
    if given.len() == 0 {
        0
    } else {
        given_in_file(given.drop_last(), file) + (if given.last().file == file {
            1nat
        } else {
            0nat
        })
    }
}

/// Candidates of a file stay unassigned only if its agents have no room: where one of them
/// still has room in the end, every candidate of the file was assigned.
pub proof fn law_dispatch_fills_room(
    cs: Seq<ItemView>,
    agents: Seq<Agent>,
    limit: nat,
    file: Seq<char>,
    j: int,
)
    requires
        0 <= j < dispatch::file_agents(agents, file).len(),
        dispatch::load(
            dispatch::dispatch_plan(cs, agents, limit).assignments,
            dispatch::file_agents(agents, file)[j],
        ) < limit,
    ensures
        given_in_file(dispatch::dispatch_plan(cs, agents, limit).assignments, file)
            == items_of_file(sorting::sorted::<CandidateWorkItem>(cs), file),
{
    lemma_fills(agents, limit, sorting::sorted::<CandidateWorkItem>(cs), file, j);
}

proof fn lemma_fills(agents: Seq<Agent>, limit: nat, cs: Seq<ItemView>, file: Seq<char>, j: int)
    requires
        0 <= j < dispatch::file_agents(agents, file).len(),
        dispatch::load(
            dispatch::dispatch_all(agents, limit, cs).assignments,
            dispatch::file_agents(agents, file)[j],
        ) < limit,
    ensures
        given_in_file(dispatch::dispatch_all(agents, limit, cs).assignments, file)
            == items_of_file(cs, file),
    decreases cs.len(),
{
    if cs.len() > 0 {
        let front = cs.drop_last();
        let c = cs.last();
        let st = dispatch::dispatch_all(agents, limit, front);
        let ids = dispatch::file_agents(agents, c.file);
        let t = dispatch::turn(st.turns, c.file);
        let mine = dispatch::file_agents(agents, file)[j];
        dispatch::lemma_with_room(ids, st.assignments, limit, t, 0);
        match dispatch::with_room(ids, st.assignments, limit, t, 0) {
            Some(k) => {
                let a = AssignmentView {
                    candidate: c.id,
                    agent: ids[k],
                    file: c.file,
                    position: dispatch::load(st.assignments, ids[k]),
                };
                lemma_load_push(st.assignments, a, mine);
                lemma_fills(agents, limit, front, file, j);
                assert(st.assignments.push(a).drop_last() =~= st.assignments);
            },
            None => {
                lemma_fills(agents, limit, front, file, j);
                if c.file == file {
                    let n = ids.len() as int;
                    let o = ((j - t) % n) as nat;
                    assert(dispatch::seat(t, o, ids.len()) == j) by {
                        vstd::arithmetic::div_mod::lemma_fundamental_div_mod(j - t, n);
                        let q = (j - t) / n;
                        assert(t + o == j + n * (-q)) by (nonlinear_arith)
                            requires
                                j - t == n * q + o,
                        ;
                        vstd::arithmetic::div_mod::lemma_mod_multiples_vanish(-q, j, n);
                        vstd::arithmetic::div_mod::lemma_small_mod(j as nat, n as nat);
                    }
                    assert(false);
                }
            },
        }
    }
}

/// The ids of the candidates of a file, in their order.
pub open spec fn ids_for_file(cs: Seq<ItemView>, file: Seq<char>) -> Seq<Seq<char>> {
    dispatch::item_ids(cs.filter(|c: ItemView| c.file == file))
}

/// The ids of the candidates of a file that were assigned, in the order of assignment.
pub open spec fn ids_given_for_file(given: Seq<AssignmentView>, file: Seq<char>) -> Seq<Seq<char>> {
    assigned_ids(given.filter(|a: AssignmentView| a.file == file))
}

proof fn lemma_ids_for_file_push(cs: Seq<ItemView>, file: Seq<char>)
    requires
        cs.len() > 0,
    ensures
        ids_for_file(cs, file) == (if cs.last().file == file {
            ids_for_file(cs.drop_last(), file).push(cs.last().id)
        } else {
            ids_for_file(cs.drop_last(), file)
        }),
{
    reveal(Seq::filter);
    if cs.last().file == file {
        assert(ids_for_file(cs, file) =~= ids_for_file(cs.drop_last(), file).push(cs.last().id));
    }
}

proof fn lemma_ids_given_push(given: Seq<AssignmentView>, a: AssignmentView, file: Seq<char>)
    ensures
        ids_given_for_file(given.push(a), file) == (if a.file == file {
            ids_given_for_file(given, file).push(a.candidate)
        } else {
            ids_given_for_file(given, file)
        }),
{
    reveal(Seq::filter);
    assert(given.push(a).drop_last() =~= given);
    if a.file == file {
        assert(ids_given_for_file(given.push(a), file) =~= ids_given_for_file(given, file).push(
            a.candidate,
        ));
    }
}

/// Whether no agent of a file can take another candidate.
pub open spec fn all_full(
    agents: Seq<Agent>,
    file: Seq<char>,
    given: Seq<AssignmentView>,
    limit: nat,
) -> bool {
    forall|j: int|
        0 <= j < dispatch::file_agents(agents, file).len() ==> dispatch::load(
            given,
            #[trigger] dispatch::file_agents(agents, file)[j],
        ) >= limit
}

proof fn lemma_every_seat(start: nat, j: int, n: nat) -> (o: nat)
    requires
        0 <= j < n,
    ensures
        o < n,
        dispatch::seat(start, o, n) == j,
{
    let m = n as int;
    let o = ((j - start) % m) as nat;
    vstd::arithmetic::div_mod::lemma_fundamental_div_mod(j - start, m);
    let q = (j - start) / m;
    assert(start + o == j + m * (-q)) by (nonlinear_arith)
        requires
            j - start == m * q + o,
    ;
    vstd::arithmetic::div_mod::lemma_mod_multiples_vanish(-q, j, m);
    vstd::arithmetic::div_mod::lemma_small_mod(j as nat, n);
    o
}

proof fn lemma_no_room_is_full(
    agents: Seq<Agent>,
    file: Seq<char>,
    given: Seq<AssignmentView>,
    limit: nat,
    start: nat,
)
    requires
        dispatch::with_room(dispatch::file_agents(agents, file), given, limit, start, 0) is None,
    ensures
        all_full(agents, file, given, limit),
{
    let ids = dispatch::file_agents(agents, file);
    dispatch::lemma_with_room(ids, given, limit, start, 0);
    assert forall|j: int| 0 <= j < ids.len() implies dispatch::load(given, #[trigger] ids[j])
        >= limit by {
        let o = lemma_every_seat(start, j, ids.len());
        assert(dispatch::load(given, ids[dispatch::seat(start, o, ids.len())]) >= limit);
    }
}

proof fn lemma_served_in_order(agents: Seq<Agent>, limit: nat, cs: Seq<ItemView>, file: Seq<char>)
    ensures
        ({
            let given = dispatch::dispatch_all(agents, limit, cs).assignments;
            let served = ids_given_for_file(given, file);
            &&& served.is_prefix_of(ids_for_file(cs, file))
            &&& served == ids_for_file(cs, file) || all_full(agents, file, given, limit)
        }),
    decreases cs.len(),
{
    if cs.len() == 0 {
        reveal(Seq::filter);
        assert(ids_for_file(cs, file) =~= Seq::<Seq<char>>::empty());
        assert(ids_given_for_file(
            dispatch::dispatch_all(agents, limit, cs).assignments,
            file,
        ) =~= Seq::<Seq<char>>::empty());
    } else {
        let front = cs.drop_last();
        let c = cs.last();
        let st = dispatch::dispatch_all(agents, limit, front);
        let ids = dispatch::file_agents(agents, c.file);
        let t = dispatch::turn(st.turns, c.file);
        lemma_served_in_order(agents, limit, front, file);
        lemma_ids_for_file_push(cs, file);
        dispatch::lemma_with_room(ids, st.assignments, limit, t, 0);
        match dispatch::with_room(ids, st.assignments, limit, t, 0) {
            Some(k) => {
                let a = AssignmentView {
                    candidate: c.id,
                    agent: ids[k],
                    file: c.file,
                    position: dispatch::load(st.assignments, ids[k]),
                };
                lemma_ids_given_push(st.assignments, a, file);
                if all_full(agents, file, st.assignments, limit) {
                    assert forall|j: int|
                        0 <= j < dispatch::file_agents(agents, file).len() implies dispatch::load(
                        st.assignments.push(a),
                        #[trigger] dispatch::file_agents(agents, file)[j],
                    ) >= limit by {
                        lemma_load_push(
                            st.assignments,
                            a,
                            dispatch::file_agents(agents, file)[j],
                        );
                    }
                    assert(all_full(agents, file, st.assignments.push(a), limit));
                    if c.file == file {
                        assert(dispatch::load(st.assignments, ids[k]) >= limit);
                    }
                }
            },
            None => {
                if c.file == file {
                    lemma_no_room_is_full(agents, file, st.assignments, limit, t);
                    assert(ids_given_for_file(st.assignments, file).is_prefix_of(
                        ids_for_file(cs, file),
                    ));
                }
            },
        }
    }
}

/// The candidates of a file are served in the order of their priority: those that are assigned
/// are the first ones, and any stay behind only if no agent of the file has room.
pub proof fn law_dispatch_serves_first_candidates_first(
    cs: Seq<ItemView>,
    agents: Seq<Agent>,
    limit: nat,
    file: Seq<char>,
)
    ensures
        ({
            let given = dispatch::dispatch_plan(cs, agents, limit).assignments;
            let wanted = ids_for_file(sorting::sorted::<CandidateWorkItem>(cs), file);
            &&& ids_given_for_file(given, file).is_prefix_of(wanted)
            &&& ids_given_for_file(given, file) == wanted || all_full(agents, file, given, limit)
        }),
{
    if limit == 0 {
        reveal(Seq::filter);
        let given = dispatch::dispatch_plan(cs, agents, limit).assignments;
        assert(ids_given_for_file(given, file) =~= Seq::<Seq<char>>::empty());
    } else {
        lemma_served_in_order(agents, limit, sorting::sorted::<CandidateWorkItem>(cs), file);
    }
}

/// A candidate of higher priority is dispatched before one of lower priority, and of two with
/// the same priority the one with the smaller id.
pub proof fn law_higher_priority_goes_first(a: ItemView, b: ItemView)
    requires
        crate::score::is_number(a.priority),
        crate::score::is_number(b.priority),
    ensures
        a.priority > b.priority ==> dispatch::dispatched_before(a, b)
            && !dispatch::dispatched_before(b, a),
        a.priority == b.priority ==> dispatch::dispatched_before(a, b)
            == crate::text::order::text_less(a.id, b.id),
{
}

proof fn lemma_room_offset(
    ids: Seq<Seq<char>>,
    given: Seq<AssignmentView>,
    limit: nat,
    start: nat,
    from: nat,
    to: nat,
) -> (o: nat)
    requires
        from <= to < ids.len(),
        dispatch::load(given, ids[dispatch::seat(start, to, ids.len())]) < limit,
    ensures
        from <= o <= to,
        dispatch::with_room(ids, given, limit, start, from) == Some(
            dispatch::seat(start, o, ids.len()),
        ),
    decreases to - from,
{
    if dispatch::load(given, ids[dispatch::seat(start, from, ids.len())]) < limit {
        from
    } else {
        assert(from < to);
        lemma_room_offset(ids, given, limit, start, from + 1, to)
    }
}

proof fn lemma_last_seat(k: int, o: nat, n: nat)
    requires
        0 <= k < n,
        o < n,
        dispatch::seat(((k + 1) % (n as int)) as nat, o, n) == k,
    ensures
        o == n - 1,
{
    let m = n as int;
    if k + 1 < m {
        vstd::arithmetic::div_mod::lemma_small_mod((k + 1) as nat, n);
    } else {
        vstd::arithmetic::div_mod::lemma_mod_self_0(m);
    }
    let s = (k + 1) % m;
    let x = s + o;
    if x < m {
        vstd::arithmetic::div_mod::lemma_small_mod(x as nat, n);
    } else {
        vstd::arithmetic::div_mod::lemma_fundamental_div_mod_converse(x, m, 1, x - m);
    }
}

/// Agents of a file take turns: where another one has room, no agent gets two candidates of
/// the file in a row.
pub proof fn law_agents_take_turns(
    st: dispatch::Dispatched,
    agents: Seq<Agent>,
    limit: nat,
    c: ItemView,
    d: ItemView,
    j: int,
)
    requires
        c.file == d.file,
        ({
            let ids = dispatch::file_agents(agents, c.file);
            let next = dispatch::dispatch_one(st, agents, limit, c);
            &&& next.assignments.len() > st.assignments.len()
            &&& 0 <= j < ids.len()
            &&& ids[j] != next.assignments.last().agent
            &&& dispatch::load(next.assignments, ids[j]) < limit
            &&& ids.no_duplicates()
        }),
    ensures
        ({
            let next = dispatch::dispatch_one(st, agents, limit, c);
            let then = dispatch::dispatch_one(next, agents, limit, d);
            &&& then.assignments.len() == next.assignments.len() + 1
            &&& then.assignments.last().agent != next.assignments.last().agent
        }),
{
    let ids = dispatch::file_agents(agents, c.file);
    let n = ids.len();
    let next = dispatch::dispatch_one(st, agents, limit, c);
    let t = dispatch::turn(st.turns, c.file);
    dispatch::lemma_with_room(ids, st.assignments, limit, t, 0);
    let k = dispatch::with_room(ids, st.assignments, limit, t, 0).unwrap();
    let start = dispatch::turn(next.turns, d.file);
    vstd::arithmetic::div_mod::lemma_mod_bound(k + 1, n as int);
    assert(start == ((k + 1) % (n as int)) as nat);
    assert(next.assignments.last().agent == ids[k]);
    let to = lemma_every_seat(start, j, n);
    let o = lemma_room_offset(ids, next.assignments, limit, start, 0, to);
    let r = dispatch::seat(start, o, n);
    dispatch::lemma_with_room(ids, next.assignments, limit, start, 0);
    if r == k {
        lemma_last_seat(k, o, n);
        assert(to == o);
    }
    let then = dispatch::dispatch_one(next, agents, limit, d);
    assert(then.assignments.last().agent == ids[r]);
}

/// An agent counts as saturated exactly if it was given something and has no room left.
pub proof fn law_saturated_agents_have_no_room(
    cs: Seq<ItemView>,
    agents: Seq<Agent>,
    limit: nat,
    agent: Seq<char>,
)
    requires
        limit > 0,
    ensures
        ({
            let plan = dispatch::dispatch_plan(cs, agents, limit);
            plan.saturated.contains(agent) <==> dispatch::load(plan.assignments, agent) >= limit
        }),
{
    let given = dispatch::dispatch_plan(cs, agents, limit).assignments;
    let n = given.len() as int;
    sorting::law_distinct_texts(dispatch::full_agents(given, limit, n));
    lemma_full_agents(given, limit, n, agent);
    if dispatch::load(given, agent) >= limit {
        lemma_loaded_appears(given, agent);
    }
}

proof fn lemma_full_agents(given: Seq<AssignmentView>, limit: nat, n: int, agent: Seq<char>)
    requires
        0 <= n <= given.len(),
    ensures
        dispatch::full_agents(given, limit, n).contains(agent) <==> dispatch::load(given, agent)
            >= limit && exists|i: int| 0 <= i < n && (#[trigger] given[i]).agent == agent,
    decreases n,
{
    if n > 0 {
        lemma_full_agents(given, limit, n - 1, agent);
        let before = dispatch::full_agents(given, limit, n - 1);
        let all = dispatch::full_agents(given, limit, n);
        if before.contains(agent) {
            let i = choose|i: int| 0 <= i < before.len() && before[i] == agent;
            assert(all[i] == agent);
        }
        if given[n - 1].agent == agent && dispatch::load(given, agent) >= limit {
            assert(all[before.len() as int] == agent);
        }
    }
}

proof fn lemma_loaded_appears(given: Seq<AssignmentView>, agent: Seq<char>)
    requires
        dispatch::load(given, agent) > 0,
    ensures
        exists|i: int| 0 <= i < given.len() && (#[trigger] given[i]).agent == agent,
    decreases given.len(),
{
    if given.last().agent == agent {
        assert(given[given.len() - 1].agent == agent);
    } else {
        lemma_loaded_appears(given.drop_last(), agent);
        let i = choose|i: int|
            0 <= i < given.drop_last().len() && (#[trigger] given.drop_last()[i]).agent == agent;
        assert(given[i].agent == agent);
    }
}

/// The load of an agent is the number of its assignments.
pub proof fn law_load_counts_assignments(given: Seq<AssignmentView>, agent: Seq<char>)
    ensures
        dispatch::load(given, agent) == given.filter(
            |a: AssignmentView| a.agent == agent,
        ).len(),
    decreases given.len(),
{
    reveal(Seq::filter);
    if given.len() > 0 {
        law_load_counts_assignments(given.drop_last(), agent);
    }
}

/// With no room for anything, every candidate stays unassigned.
pub proof fn law_no_room_assigns_nothing(cs: Seq<ItemView>, agents: Seq<Agent>)
    ensures
        dispatch::dispatch_plan(cs, agents, 0).assignments.len() == 0,
        dispatch::dispatch_plan(cs, agents, 0).unassigned.len() == cs.len(),
        dispatch::dispatch_plan(cs, agents, 0).saturated.len() == 0,
{
}

/// The agents of a file are those that work on it and take candidates, in their order.
pub proof fn law_file_agents_are_those_of_the_file(agents: Seq<Agent>, file: Seq<char>)
    ensures
        ({
            let on_file = agents.filter(|a: Agent| a.assignable() && a.target_file@ == file);
            dispatch::file_agents(agents, file) == Seq::new(
                on_file.len(),
                |i: int| on_file[i].id@,
            )
        }),
    decreases agents.len(),
{
    reveal(Seq::filter);
    let on_file = agents.filter(|a: Agent| a.assignable() && a.target_file@ == file);
    if agents.len() > 0 {
        law_file_agents_are_those_of_the_file(agents.drop_last(), file);
    }
    assert(dispatch::file_agents(agents, file) =~= Seq::new(
        on_file.len(),
        |i: int| on_file[i].id@,
    ));
}

} // verus!
