//! Laws of the summaries of a dispatch.
use crate::sorting;
use crate::swarm::agent::Agent;
use crate::swarm::dispatch;
use crate::swarm::dispatch::{AssignmentView, CandidateAssignment, ItemView, PlanView};
use crate::swarm::summary;
use crate::swarm::summary::{
    AgentDispatchSummary, AgentSummaryView, FileAgents,
};
use crate::text::order;
use vstd::prelude::*;

verus! {

/// What was given to an agent are the assignments that name it, in their order, and as many as
/// its load says.
pub proof fn law_given_to_agent(given: Seq<AssignmentView>, agent: Seq<char>)
    ensures
        summary::given_to(given, agent) == given.filter(|a: AssignmentView| a.agent == agent),
        summary::given_to(given, agent).len() == dispatch::load(given, agent),
    decreases given.len(),
{
    reveal(Seq::filter);
    if given.len() > 0 {
        law_given_to_agent(given.drop_last(), agent);
    }
}

/// The queue of an agent holds all candidates that were given to it, in the order of their
/// places in the queue.
pub proof fn law_queue_holds_what_was_given(
    given: Seq<AssignmentView>,
    agents: Seq<Agent>,
    i: int,
)
    requires
        0 <= i < agents.len(),
        !summary::id_taken(agents, agents[i].id@, i),
    ensures
        ({
            let mine = given.filter(|a: AssignmentView| a.agent == agents[i].id@);
            let queue = summary::queue_of(given, agents, i);
            &&& queue.len() == mine.len()
            &&& exists|s: Seq<AssignmentView>|
                s.to_multiset() == mine.to_multiset() && queue == #[trigger] summary::candidates_of(
                    s,
                ) && forall|x: int, y: int|
                    0 <= x < y < s.len() ==> (#[trigger] s[x]).position <= (
                    #[trigger] s[y]).position
        }),
{
    let mine = given.filter(|a: AssignmentView| a.agent == agents[i].id@);
    law_given_to_agent(given, agents[i].id@);
    let s = sorting::sorted::<CandidateAssignment>(mine);
    sorting::law_sorted::<CandidateAssignment>(mine);
    assert forall|x: int, y: int| 0 <= x < y < s.len() implies (#[trigger] s[x]).position <= (
    #[trigger] s[y]).position by {
        assert(!<CandidateAssignment as sorting::Ranked>::less(s[y], s[x]));
    }
    assert(summary::queue_of(given, agents, i) == summary::candidates_of(s));
}

/// What an agent has in its queue and what it can still take add up to the limit; it is
/// saturated exactly if it can take nothing more.
pub proof fn law_agent_room_adds_up(
    given: Seq<AssignmentView>,
    agents: Seq<Agent>,
    limit: nat,
    i: int,
)
    requires
        0 <= i < agents.len(),
    ensures
        ({
            let s = summary::agent_summary(given, agents, limit, i);
            &&& s.agent == agents[i].id@
            &&& s.file == agents[i].target_file@
            &&& s.depth == s.candidates.len()
            &&& s.depth <= limit ==> s.depth + s.remaining == limit
            &&& s.depth > limit ==> s.remaining == 0
            &&& s.saturated <==> s.depth >= limit
        }),
{
}

/// Every agent that takes candidates is summarised once, in the order of the agents, and no
/// other is.
pub proof fn law_every_agent_is_summarised(
    given: Seq<AssignmentView>,
    agents: Seq<Agent>,
    limit: nat,
    n: int,
)
    requires
        0 <= n <= agents.len(),
    ensures
        ({
            let taking = agents.take(n).filter(|a: Agent| a.assignable());
            let said = summary::agent_summaries(given, agents, limit, n);
            &&& said.len() == taking.len()
            &&& forall|k: int|
                0 <= k < said.len() ==> (#[trigger] said[k]).agent == taking[k].id@ && said[k].file
                    == taking[k].target_file@
        }),
    decreases n,
{
    reveal(Seq::filter);
    if n > 0 {
        law_every_agent_is_summarised(given, agents, limit, n - 1);
        assert(agents.take(n).drop_last() =~= agents.take(n - 1));
        assert(agents.take(n).last() == agents[n - 1]);
        let before = agents.take(n - 1).filter(|a: Agent| a.assignable());
        let taking = agents.take(n).filter(|a: Agent| a.assignable());
        let was = summary::agent_summaries(given, agents, limit, n - 1);
        let said = summary::agent_summaries(given, agents, limit, n);
        assert forall|k: int| 0 <= k < said.len() implies (#[trigger] said[k]).agent
            == taking[k].id@ && said[k].file == taking[k].target_file@ by {
            if k < was.len() {
                assert(was[k].agent == before[k].id@);
            }
        }
    }
}

/// Agents are listed by their files and then by their ids.
pub proof fn law_agents_are_listed_by_file_and_id(
    given: Seq<AssignmentView>,
    agents: Seq<Agent>,
    limit: nat,
    a: int,
    b: int,
)
    requires
        0 <= a < b < summary::listed_agents(given, agents, limit).len(),
    ensures
        ({
            let x = summary::listed_agents(given, agents, limit)[a];
            let y = summary::listed_agents(given, agents, limit)[b];
            &&& !order::text_less(y.file, x.file)
            &&& x.file == y.file ==> !order::text_less(y.agent, x.agent)
        }),
        summary::listed_agents(given, agents, limit).to_multiset() == summary::agent_summaries(
            given,
            agents,
            limit,
            agents.len() as int,
        ).to_multiset(),
{
    let s = summary::agent_summaries(given, agents, limit, agents.len() as int);
    sorting::law_sorted::<AgentDispatchSummary>(s);
    let l = summary::listed_agents(given, agents, limit);
    assert(!<AgentDispatchSummary as sorting::Ranked>::less(l[b], l[a]));
    order::lemma_text_irreflexive(l[a].file);
}

/// The totals of a file add up over its agents: those who can take candidates and those who
/// are full are listed one after the other, room is summed, and the longest queue counts.
pub proof fn law_file_totals_add_up(
    a: Seq<AgentSummaryView>,
    b: Seq<AgentSummaryView>,
    file: Seq<char>,
)
    ensures
        ({
            let x = summary::agents_in(a, file);
            let y = summary::agents_in(b, file);
            let all = summary::agents_in(a + b, file);
            &&& all.eligible == x.eligible + y.eligible
            &&& all.saturated == x.saturated + y.saturated
            &&& all.remaining == x.remaining + y.remaining
            &&& all.max_depth == (if x.max_depth >= y.max_depth {
                x.max_depth
            } else {
                y.max_depth
            })
        }),
    decreases b.len(),
{
    let x = summary::agents_in(a, file);
    if b.len() == 0 {
        assert(a + b =~= a);
        let y = summary::agents_in(b, file);
        assert(x.eligible + y.eligible =~= x.eligible);
        assert(x.saturated + y.saturated =~= x.saturated);
    } else {
        assert((a + b).drop_last() =~= a + b.drop_last());
        assert((a + b).last() == b.last());
        law_file_totals_add_up(a, b.drop_last(), file);
        let y = summary::agents_in(b.drop_last(), file);
        let id = b.last().agent;
        assert((x.eligible + y.eligible).push(id) =~= x.eligible + y.eligible.push(id));
        assert((x.saturated + y.saturated).push(id) =~= x.saturated + y.saturated.push(id));
    }
}

/// One agent counts for its own file with its own numbers, and for no other file.
pub proof fn law_one_agent_totals(s: AgentSummaryView, file: Seq<char>)
    ensures
        ({
            let t = summary::agents_in(seq![s], file);
            &&& s.file == file ==> {
                &&& t.eligible == seq![s.agent]
                &&& t.saturated == (if s.saturated {
                    seq![s.agent]
                } else {
                    Seq::empty()
                })
                &&& t.remaining == s.remaining
                &&& t.max_depth == s.depth
            }
            &&& s.file != file ==> {
                &&& t.eligible.len() == 0
                &&& t.saturated.len() == 0
                &&& t.remaining == 0
                &&& t.max_depth == 0
            }
        }),
{
    let one = seq![s];
    assert(one.drop_last() =~= Seq::<AgentSummaryView>::empty());
    let none = summary::agents_in(one.drop_last(), file);
    assert(none.eligible.push(s.agent) =~= seq![s.agent]);
    assert(none.saturated.push(s.agent) =~= seq![s.agent]);
}

/// A file is blocked exactly if it has no agent, saturated if it has agents without room,
/// limited if something stayed unassigned although there is room, and else available.
pub proof fn law_backpressure(agents: FileAgents, unassigned: Seq<Seq<char>>)
    ensures
        ({
            let b = summary::backpressure_of(agents, unassigned);
            &&& b is BlockedNoAgent <==> agents.eligible.len() == 0
            &&& b is Saturated <==> agents.eligible.len() > 0 && agents.remaining == 0
            &&& b is Limited <==> agents.eligible.len() > 0 && agents.remaining > 0
                && unassigned.len() > 0
            &&& b is Available <==> agents.eligible.len() > 0 && agents.remaining > 0
                && unassigned.len() == 0
        }),
{
}

/// The assigned and the unassigned candidates of a file are those that belong to it, in order.
pub proof fn law_candidates_of_a_file(
    given: Seq<AssignmentView>,
    cs: Seq<ItemView>,
    ids: Seq<Seq<char>>,
    file: Seq<char>,
)
    ensures
        summary::assigned_in(given, file) == summary::candidates_of(
            given.filter(|a: AssignmentView| a.file == file),
        ),
        summary::belonging_to(cs, ids, file) == ids.filter(
            |id: Seq<char>| summary::file_of_candidate(cs, id) == Some(file),
        ),
{
    lemma_assigned_in(given, file);
    lemma_belonging_to(cs, ids, file);
}

proof fn lemma_assigned_in(given: Seq<AssignmentView>, file: Seq<char>)
    ensures
        summary::assigned_in(given, file) == summary::candidates_of(
            given.filter(|a: AssignmentView| a.file == file),
        ),
    decreases given.len(),
{
    reveal(Seq::filter);
    if given.len() > 0 {
        lemma_assigned_in(given.drop_last(), file);
    }
    assert(summary::assigned_in(given, file) =~= summary::candidates_of(
        given.filter(|a: AssignmentView| a.file == file),
    ));
}

proof fn lemma_belonging_to(cs: Seq<ItemView>, ids: Seq<Seq<char>>, file: Seq<char>)
    ensures
        summary::belonging_to(cs, ids, file) == ids.filter(
            |id: Seq<char>| summary::file_of_candidate(cs, id) == Some(file),
        ),
    decreases ids.len(),
{
    reveal(Seq::filter);
    if ids.len() > 0 {
        lemma_belonging_to(cs, ids.drop_last(), file);
    }
}

/// A candidate belongs to the file that it was given last.
pub proof fn law_candidate_belongs_to_its_last_file(
    cs: Seq<ItemView>,
    c: ItemView,
    id: Seq<char>,
)
    ensures
        summary::file_of_candidate(cs.push(c), c.id) == Some(c.file),
        id != c.id ==> summary::file_of_candidate(cs.push(c), id) == summary::file_of_candidate(
            cs,
            id,
        ),
        summary::file_of_candidate(Seq::empty(), id) is None,
{
    assert(cs.push(c).drop_last() =~= cs);
}

proof fn lemma_mentioned(cs: Seq<ItemView>, agents: Seq<Agent>, n: int, file: Seq<char>)
    requires
        0 <= n <= agents.len(),
    ensures
        summary::mentioned_files(cs, agents, n).contains(file) <==> (exists|i: int|
            0 <= i < cs.len() && (#[trigger] cs[i]).file == file) || (exists|k: int|
            0 <= k < n && (#[trigger] agents[k]).assignable() && agents[k].target_file@ == file),
    decreases n,
{
    let all = summary::mentioned_files(cs, agents, n);
    if n == 0 {
        if exists|i: int| 0 <= i < cs.len() && (#[trigger] cs[i]).file == file {
            let i = choose|i: int| 0 <= i < cs.len() && (#[trigger] cs[i]).file == file;
            assert(all[i] == file);
        }
        if all.contains(file) {
            let i = choose|i: int| 0 <= i < all.len() && all[i] == file;
            assert(cs[i].file == file);
        }
    } else {
        lemma_mentioned(cs, agents, n - 1, file);
        let before = summary::mentioned_files(cs, agents, n - 1);
        if before.contains(file) {
            let i = choose|i: int| 0 <= i < before.len() && before[i] == file;
            assert(all[i] == file);
        }
        if agents[n - 1].assignable() && agents[n - 1].target_file@ == file {
            assert(all[before.len() as int] == file);
        }
    }
}

/// There is one summary for each file that a candidate belongs to or that an agent works on, in
/// the order of their names, and none for any other file.
pub proof fn law_every_file_is_summarised(
    plan: PlanView,
    cs: Seq<ItemView>,
    agents: Seq<Agent>,
    limit: nat,
    file: Seq<char>,
)
    ensures
        ({
            let said = summary::file_summaries(plan, cs, agents, limit);
            &&& (exists|k: int| 0 <= k < said.len() && (#[trigger] said[k]).file == file) <==> (
            exists|i: int| 0 <= i < cs.len() && (#[trigger] cs[i]).file == file) || (exists|k: int|
                0 <= k < agents.len() && (#[trigger] agents[k]).assignable()
                    && agents[k].target_file@ == file)
            &&& forall|a: int, b: int|
                0 <= a < b < said.len() ==> order::text_less(
                    (#[trigger] said[a]).file,
                    (#[trigger] said[b]).file,
                )
        }),
{
    let m = summary::mentioned_files(cs, agents, agents.len() as int);
    let files = sorting::distinct_texts(m);
    let said = summary::file_summaries(plan, cs, agents, limit);
    lemma_mentioned(cs, agents, agents.len() as int, file);
    sorting::law_distinct_texts(m);
    assert(files.contains(file) <==> m.contains(file));
    if files.contains(file) {
        let k = choose|k: int| 0 <= k < files.len() && files[k] == file;
        assert(said[k].file == file);
    }
    if exists|k: int| 0 <= k < said.len() && (#[trigger] said[k]).file == file {
        let k = choose|k: int| 0 <= k < said.len() && (#[trigger] said[k]).file == file;
        assert(files[k] == file);
    }
    assert forall|a: int, b: int| 0 <= a < b < said.len() implies order::text_less(
        (#[trigger] said[a]).file,
        (#[trigger] said[b]).file,
    ) by {
        assert(order::text_less(files[a], files[b]));
    }
}

/// The summary of a file holds the candidates and agents of the file in the order of their
/// ids, and the numbers of its agents.
pub proof fn law_file_summary_holds_its_file(
    plan: PlanView,
    cs: Seq<ItemView>,
    listed: Seq<AgentSummaryView>,
    file: Seq<char>,
)
    ensures
        ({
            let s = summary::file_summary(plan, cs, listed, file);
            let t = summary::agents_in(listed, file);
            &&& s.assigned.to_multiset() == summary::assigned_in(
                plan.assignments,
                file,
            ).to_multiset()
            &&& s.unassigned.to_multiset() == summary::belonging_to(
                cs,
                plan.unassigned,
                file,
            ).to_multiset()
            &&& s.eligible.to_multiset() == t.eligible.to_multiset()
            &&& s.saturated.to_multiset() == t.saturated.to_multiset()
            &&& sorting::in_rank::<String>(s.assigned)
            &&& sorting::in_rank::<String>(s.unassigned)
            &&& sorting::in_rank::<String>(s.eligible)
            &&& sorting::in_rank::<String>(s.saturated)
            &&& s.max_depth == t.max_depth
            &&& s.remaining == t.remaining
        }),
{
    sorting::law_sorted::<String>(summary::assigned_in(plan.assignments, file));
    sorting::law_sorted::<String>(summary::belonging_to(cs, plan.unassigned, file));
    sorting::law_sorted::<String>(summary::agents_in(listed, file).eligible);
    sorting::law_sorted::<String>(summary::agents_in(listed, file).saturated);
}

} // verus!
