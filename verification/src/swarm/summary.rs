//! Summaries of a dispatch plan.
use crate::sorting;
use crate::sorting::{sort_distinct, sort_stable, sort_texts, Ranked};
use crate::swarm::agent::Agent;
use crate::swarm::dispatch::{
    AssignmentView, CandidateAssignment, CandidateWorkItem, DispatchPlan, ItemView, PlanView,
};
use crate::text::chars;
use crate::text::chars::{own, same};
use crate::text::order;
use crate::text::order::text_before;
use vstd::prelude::*;

verus! {

broadcast use chars::lemma_texts_push, chars::lemma_texts_empty;

/// How much room the queue of a file has left.
#[derive(Debug, Clone, Copy, PartialEq, Eq, Structural)]
pub enum DispatchBackpressure {
    /// Every candidate found an agent, and there is room for more.
    Available,
    /// Some candidate found no agent, though there is room.
    Limited,
    /// No agent has room left.
    Saturated,
    /// The file has no agent.
    BlockedNoAgent,
}

/// The queue of one agent.
#[derive(Debug, Clone, PartialEq, Eq)]
pub struct AgentDispatchSummary {
    pub agent_id: String,
    pub target_file: String,
    pub assigned_candidate_ids: Vec<String>,
    pub queue_depth: usize,
    pub remaining_capacity: usize,
    pub saturated: bool,
}

/// What an [`AgentDispatchSummary`] stands for.
#[verifier::ext_equal]
pub struct AgentSummaryView {
    pub agent: Seq<char>,
    pub file: Seq<char>,
    pub candidates: Seq<Seq<char>>,
    pub depth: nat,
    pub remaining: nat,
    pub saturated: bool,
}

impl View for AgentDispatchSummary {
    type V = AgentSummaryView;

    open spec fn view(&self) -> AgentSummaryView {
        AgentSummaryView {
            agent: self.agent_id@,
            file: self.target_file@,
            candidates: chars::texts(self.assigned_candidate_ids@),
            depth: self.queue_depth as nat,
            remaining: self.remaining_capacity as nat,
            saturated: self.saturated,
        }
    }
}

/// Whether one agent is listed before another: by file, then by id.
pub open spec fn listed_before(a: AgentSummaryView, b: AgentSummaryView) -> bool {
    if a.file != b.file {
        order::text_less(a.file, b.file)
    } else {
        order::text_less(a.agent, b.agent)
    }
}

impl Ranked for AgentDispatchSummary {
    open spec fn proper(a: AgentSummaryView) -> bool {
        true
    }

    open spec fn less(a: AgentSummaryView, b: AgentSummaryView) -> bool {
        listed_before(a, b)
    }

    fn before(&self, other: &AgentDispatchSummary) -> (r: bool) {
        if !same(self.target_file.as_str(), other.target_file.as_str()) {
            text_before(self.target_file.as_str(), other.target_file.as_str())
        } else {
            text_before(self.agent_id.as_str(), other.agent_id.as_str())
        }
    }

    proof fn around(a: AgentSummaryView, b: AgentSummaryView, c: AgentSummaryView) {
        if listed_before(c, a) {
            if c.file != a.file && a.file != b.file {
                order::lemma_text_transitive(c.file, a.file, b.file);
                order::lemma_text_irreflexive(b.file);
            } else if c.file == a.file && a.file == b.file {
                order::lemma_text_transitive(c.agent, a.agent, b.agent);
            }
        }
    }

    proof fn irreflexive(a: AgentSummaryView) {
        order::lemma_text_irreflexive(a.agent);
    }
}

impl Ranked for CandidateAssignment {
    open spec fn proper(a: AssignmentView) -> bool {
        true
    }

    open spec fn less(a: AssignmentView, b: AssignmentView) -> bool {
        a.position < b.position
    }

    fn before(&self, other: &CandidateAssignment) -> (r: bool) {
        self.queue_position < other.queue_position
    }

    proof fn around(a: AssignmentView, b: AssignmentView, c: AssignmentView) {
    }

    proof fn irreflexive(a: AssignmentView) {
    }
}

/// The assignments of an agent, in the order of the plan.
pub open spec fn given_to(given: Seq<AssignmentView>, agent: Seq<char>) -> Seq<AssignmentView>
    decreases given.len(),
{
    if given.len() == 0 {
        Seq::<AssignmentView>::empty()
    } else {
        let before = given_to(given.drop_last(), agent);
        if given.last().agent == agent {
            before.push(given.last())
        } else {
            before
        }
    }
}

/// The candidates of assignments.
pub open spec fn candidates_of(given: Seq<AssignmentView>) -> Seq<Seq<char>> {
    Seq::new(given.len(), |i: int| given[i].candidate)
}

/// Whether one of the first `n` agents takes assignments under the given id.
pub open spec fn id_taken(agents: Seq<Agent>, id: Seq<char>, n: int) -> bool {
    exists|k: int| 0 <= k < n && (#[trigger] agents[k]).assignable() && agents[k].id@ == id
}

/// The queue of the agent at `i`: its candidates by queue position. Where two agents share
/// an id, the first has the queue.
pub open spec fn queue_of(given: Seq<AssignmentView>, agents: Seq<Agent>, i: int) -> Seq<Seq<char>> {
    if id_taken(agents, agents[i].id@, i) {
        Seq::<Seq<char>>::empty()
    } else {
        candidates_of(
            sorting::sorted::<CandidateAssignment>(given_to(given, agents[i].id@)),
        )
    }
}

/// The summary of the agent at `i`.
pub open spec fn agent_summary(
    given: Seq<AssignmentView>,
    agents: Seq<Agent>,
    limit: nat,
    i: int,
) -> AgentSummaryView {
    let queue = queue_of(given, agents, i);
    let remaining = if queue.len() <= limit {
        (limit - queue.len()) as nat
    } else {
        0
    };
    AgentSummaryView {
        agent: agents[i].id@,
        file: agents[i].target_file@,
        candidates: queue,
        depth: queue.len(),
        remaining,
        saturated: remaining == 0,
    }
}

/// The summaries of those of the first `n` agents that take assignments, in order.
pub open spec fn agent_summaries(
    given: Seq<AssignmentView>,
    agents: Seq<Agent>,
    limit: nat,
    n: int,
) -> Seq<AgentSummaryView>
    decreases n,
{
    if n <= 0 {
        Seq::<AgentSummaryView>::empty()
    } else {
        let before = agent_summaries(given, agents, limit, n - 1);
        if agents[n - 1].assignable() {
            before.push(agent_summary(given, agents, limit, n - 1))
        } else {
            before
        }
    }
}

/// The summaries of all agents that take assignments, by file and id.
pub open spec fn listed_agents(given: Seq<AssignmentView>, agents: Seq<Agent>, limit: nat) -> Seq<
    AgentSummaryView,
> {
    sorting::sorted::<AgentDispatchSummary>(
        agent_summaries(given, agents, limit, agents.len() as int),
    )
}

fn copy_assignment(a: &CandidateAssignment) -> (r: CandidateAssignment)
    ensures
        r@ == a@,
{
    CandidateAssignment {
        candidate_id: own(a.candidate_id.as_str()),
        agent_id: own(a.agent_id.as_str()),
        target_file: own(a.target_file.as_str()),
        queue_position: a.queue_position,
    }
}

fn assignments_of(given: &[CandidateAssignment], agent: &str) -> (r: Vec<CandidateAssignment>)
    ensures
        sorting::views(r@) == given_to(sorting::views(given@), agent@),
{
    let ghost all = sorting::views(given@);
    let mut out: Vec<CandidateAssignment> = Vec::new();
    let mut i: usize = 0;
    proof {
        assert(all.take(0) =~= Seq::<AssignmentView>::empty());
        assert(sorting::views(out@) =~= Seq::<AssignmentView>::empty());
    }
    while i < given.len()
        invariant
            all == sorting::views(given@),
            i <= given@.len(),
            sorting::views(out@) == given_to(all.take(i as int), agent@),
        decreases given@.len() - i,
    {
        proof {
            assert(all.take(i + 1).drop_last() =~= all.take(i as int));
            assert(all.take(i + 1).last() == given@[i as int]@);
        }
        if same(given[i].agent_id.as_str(), agent) {
            let ghost before = out@;
            out.push(copy_assignment(&given[i]));
            proof {
                assert(sorting::views(out@) =~= sorting::views(before).push(given@[i as int]@));
            }
        }
        i = i + 1;
    }
    proof {
        assert(all.take(all.len() as int) =~= all);
    }
    out
}

fn candidate_ids_of(given: &[CandidateAssignment]) -> (r: Vec<String>)
    ensures
        chars::texts(r@) == candidates_of(sorting::views(given@)),
{
    let mut out: Vec<String> = Vec::new();
    let mut i: usize = 0;
    while i < given.len()
        invariant
            i <= given@.len(),
            out@.len() == i,
            forall|j: int| 0 <= j < i ==> (#[trigger] out@[j])@ == given@[j].candidate_id@,
        decreases given@.len() - i,
    {
        out.push(own(given[i].candidate_id.as_str()));
        i = i + 1;
    }
    proof {
        assert(chars::texts(out@) =~= candidates_of(sorting::views(given@)));
    }
    out
}

fn is_id_taken(agents: &[Agent], id: &str, n: usize) -> (r: bool)
    requires
        n <= agents@.len(),
    ensures
        r == id_taken(agents@, id@, n as int),
{
    let mut k: usize = 0;
    while k < n
        invariant
            k <= n <= agents@.len(),
            forall|j: int|
                0 <= j < k ==> !((#[trigger] agents@[j]).assignable() && agents@[j].id@ == id@),
        decreases n - k,
    {
        if agents[k].is_assignable() && same(agents[k].id.as_str(), id) {
            return true;
        }
        k = k + 1;
    }
    false
}

fn summarize_agent(
    given: &[CandidateAssignment],
    agents: &[Agent],
    limit: usize,
    i: usize,
) -> (r: AgentDispatchSummary)
    requires
        i < agents@.len(),
    ensures
        r@ == agent_summary(sorting::views(given@), agents@, limit as nat, i as int),
{
    let queue = if is_id_taken(agents, agents[i].id.as_str(), i) {
        Vec::new()
    } else {
        let mine = assignments_of(given, agents[i].id.as_str());
        let ordered = sort_stable(mine);
        candidate_ids_of(ordered.as_slice())
    };
    proof {
        assert(chars::texts(queue@) =~= queue_of(sorting::views(given@), agents@, i as int));
        assert(queue@.len() == chars::texts(queue@).len());
    }
    let depth: usize = queue.len();
    let remaining: usize = limit.saturating_sub(depth);
    AgentDispatchSummary {
        agent_id: own(agents[i].id.as_str()),
        target_file: own(agents[i].target_file.as_str()),
        assigned_candidate_ids: queue,
        queue_depth: depth,
        remaining_capacity: remaining,
        saturated: remaining == 0,
    }
}

/// Summarizes the queue of each agent that takes assignments.
pub fn summarize_agent_dispatch(
    plan: &DispatchPlan,
    agents: &[Agent],
    max_assignments_per_agent: usize,
) -> (r: Vec<AgentDispatchSummary>)
    ensures
        sorting::views(r@) == listed_agents(
            plan@.assignments,
            agents@,
            max_assignments_per_agent as nat,
        ),
{
    let limit = max_assignments_per_agent;
    let ghost given = sorting::views(plan.assignments@);
    let mut out: Vec<AgentDispatchSummary> = Vec::new();
    let mut i: usize = 0;
    proof {
        assert(sorting::views(out@) =~= Seq::<AgentSummaryView>::empty());
    }
    while i < agents.len()
        invariant
            given == sorting::views(plan.assignments@),
            i <= agents@.len(),
            sorting::views(out@) == agent_summaries(given, agents@, limit as nat, i as int),
        decreases agents@.len() - i,
    {
        if agents[i].is_assignable() {
            let ghost before = out@;
            let s = summarize_agent(plan.assignments.as_slice(), agents, limit, i);
            let ghost sv = s@;
            out.push(s);
            proof {
                assert(sorting::views(out@) =~= sorting::views(before).push(sv));
            }
        }
        i = i + 1;
    }
    sort_stable(out)
}

/// The dispatch state of one file.
#[derive(Debug, Clone, PartialEq, Eq)]
pub struct FileDispatchSummary {
    pub target_file: String,
    pub assigned_candidate_ids: Vec<String>,
    pub unassigned_candidate_ids: Vec<String>,
    pub eligible_agent_ids: Vec<String>,
    pub saturated_agent_ids: Vec<String>,
    pub max_queue_depth: usize,
    pub remaining_capacity: usize,
    pub backpressure: DispatchBackpressure,
}

/// What a [`FileDispatchSummary`] stands for.
#[verifier::ext_equal]
pub struct FileSummaryView {
    pub file: Seq<char>,
    pub assigned: Seq<Seq<char>>,
    pub unassigned: Seq<Seq<char>>,
    pub eligible: Seq<Seq<char>>,
    pub saturated: Seq<Seq<char>>,
    pub max_depth: nat,
    pub remaining: nat,
    pub backpressure: DispatchBackpressure,
}

impl View for FileDispatchSummary {
    type V = FileSummaryView;

    open spec fn view(&self) -> FileSummaryView {
        FileSummaryView {
            file: self.target_file@,
            assigned: chars::texts(self.assigned_candidate_ids@),
            unassigned: chars::texts(self.unassigned_candidate_ids@),
            eligible: chars::texts(self.eligible_agent_ids@),
            saturated: chars::texts(self.saturated_agent_ids@),
            max_depth: self.max_queue_depth as nat,
            remaining: self.remaining_capacity as nat,
            backpressure: self.backpressure,
        }
    }
}

/// The file of the last candidate with the given id.
pub open spec fn file_of_candidate(cs: Seq<ItemView>, id: Seq<char>) -> Option<Seq<char>>
    decreases cs.len(),
{
    if cs.len() == 0 {
        None
    } else if cs.last().id == id {
        Some(cs.last().file)
    } else {
        file_of_candidate(cs.drop_last(), id)
    }
}

/// The files of candidates and, after them, of the agents that take assignments.
pub open spec fn mentioned_files(cs: Seq<ItemView>, agents: Seq<Agent>, n: int) -> Seq<Seq<char>>
    decreases n,
{
    if n <= 0 {
        Seq::new(cs.len(), |i: int| cs[i].file)
    } else {
        let before = mentioned_files(cs, agents, n - 1);
        if agents[n - 1].assignable() {
            before.push(agents[n - 1].target_file@)
        } else {
            before
        }
    }
}

/// The candidates that were assigned in a file, in the order of the plan.
pub open spec fn assigned_in(given: Seq<AssignmentView>, file: Seq<char>) -> Seq<Seq<char>>
    decreases given.len(),
{
    if given.len() == 0 {
        Seq::<Seq<char>>::empty()
    } else {
        let before = assigned_in(given.drop_last(), file);
        if given.last().file == file {
            before.push(given.last().candidate)
        } else {
            before
        }
    }
}

/// Those of the given candidates that belong to a file.
pub open spec fn belonging_to(cs: Seq<ItemView>, ids: Seq<Seq<char>>, file: Seq<char>) -> Seq<
    Seq<char>,
>
    decreases ids.len(),
{
    if ids.len() == 0 {
        Seq::<Seq<char>>::empty()
    } else {
        let before = belonging_to(cs, ids.drop_last(), file);
        if file_of_candidate(cs, ids.last()) == Some(file) {
            before.push(ids.last())
        } else {
            before
        }
    }
}

/// What the agents of one file have together.
#[verifier::ext_equal]
pub struct FileAgents {
    pub eligible: Seq<Seq<char>>,
    pub saturated: Seq<Seq<char>>,
    pub max_depth: nat,
    pub remaining: nat,
}

/// What those of the given agents that work on a file have together.
pub open spec fn agents_in(s: Seq<AgentSummaryView>, file: Seq<char>) -> FileAgents
    decreases s.len(),
{
    if s.len() == 0 {
        FileAgents {
            eligible: Seq::<Seq<char>>::empty(),
            saturated: Seq::<Seq<char>>::empty(),
            max_depth: 0,
            remaining: 0,
        }
    } else {
        let before = agents_in(s.drop_last(), file);
        let a = s.last();
        if a.file == file {
            FileAgents {
                eligible: before.eligible.push(a.agent),
                saturated: if a.saturated {
                    before.saturated.push(a.agent)
                } else {
                    before.saturated
                },
                max_depth: if a.depth > before.max_depth {
                    a.depth
                } else {
                    before.max_depth
                },
                remaining: before.remaining + a.remaining,
            }
        } else {
            before
        }
    }
}

/// The room that the queue of a file has left.
pub open spec fn backpressure_of(agents: FileAgents, unassigned: Seq<Seq<char>>) ->
    DispatchBackpressure {
    if agents.eligible.len() == 0 {
        DispatchBackpressure::BlockedNoAgent
    } else if agents.remaining == 0 {
        DispatchBackpressure::Saturated
    } else if unassigned.len() > 0 {
        DispatchBackpressure::Limited
    } else {
        DispatchBackpressure::Available
    }
}

/// The summary of a file.
pub open spec fn file_summary(
    plan: PlanView,
    cs: Seq<ItemView>,
    listed: Seq<AgentSummaryView>,
    file: Seq<char>,
) -> FileSummaryView {
    let a = agents_in(listed, file);
    let unassigned = sorting::sorted_texts(belonging_to(cs, plan.unassigned, file));
    FileSummaryView {
        file,
        assigned: sorting::sorted_texts(assigned_in(plan.assignments, file)),
        unassigned,
        eligible: sorting::sorted_texts(a.eligible),
        saturated: sorting::sorted_texts(a.saturated),
        max_depth: a.max_depth,
        remaining: a.remaining,
        backpressure: backpressure_of(a, unassigned),
    }
}

/// The summaries of all files that candidates or agents name, by file.
pub open spec fn file_summaries(
    plan: PlanView,
    cs: Seq<ItemView>,
    agents: Seq<Agent>,
    limit: nat,
) -> Seq<FileSummaryView> {
    let files = sorting::distinct_texts(mentioned_files(cs, agents, agents.len() as int));
    let listed = listed_agents(plan.assignments, agents, limit);
    Seq::new(files.len(), |i: int| file_summary(plan, cs, listed, files[i]))
}

fn candidate_file_is(cs: &[CandidateWorkItem], id: &str, file: &str) -> (r: bool)
    ensures
        r == (file_of_candidate(sorting::views(cs@), id@) == Some(file@)),
{
    let ghost all = sorting::views(cs@);
    let mut n: usize = cs.len();
    proof {
        assert(all.take(all.len() as int) =~= all);
    }
    while n > 0
        invariant
            all == sorting::views(cs@),
            n <= cs@.len(),
            file_of_candidate(all, id@) == file_of_candidate(all.take(n as int), id@),
        decreases n,
    {
        proof {
            assert(all.take(n as int).last() == cs@[n - 1]@);
            assert(all.take(n as int).drop_last() =~= all.take(n - 1));
        }
        if same(cs[n - 1].candidate_id.as_str(), id) {
            return same(cs[n - 1].target_file.as_str(), file);
        }
        n = n - 1;
    }
    false
}

fn list_files(cs: &[CandidateWorkItem], agents: &[Agent]) -> (r: Vec<String>)
    ensures
        chars::texts(r@) == mentioned_files(
            sorting::views(cs@),
            agents@,
            agents@.len() as int,
        ),
{
    let ghost all = sorting::views(cs@);
    let mut out: Vec<String> = Vec::new();
    let mut i: usize = 0;
    while i < cs.len()
        invariant
            i <= cs@.len(),
            out@.len() == i,
            forall|j: int| 0 <= j < i ==> (#[trigger] out@[j])@ == cs@[j].target_file@,
        decreases cs@.len() - i,
    {
        out.push(own(cs[i].target_file.as_str()));
        i = i + 1;
    }
    proof {
        assert(chars::texts(out@) =~= mentioned_files(all, agents@, 0));
    }
    let mut k: usize = 0;
    while k < agents.len()
        invariant
            k <= agents@.len(),
            chars::texts(out@) == mentioned_files(all, agents@, k as int),
        decreases agents@.len() - k,
    {
        if agents[k].is_assignable() {
            out.push(own(agents[k].target_file.as_str()));
        }
        k = k + 1;
    }
    out
}

fn list_assigned(given: &[CandidateAssignment], file: &str) -> (r: Vec<String>)
    ensures
        chars::texts(r@) == assigned_in(sorting::views(given@), file@),
{
    let ghost all = sorting::views(given@);
    let mut out: Vec<String> = Vec::new();
    let mut i: usize = 0;
    proof {
        assert(all.take(0) =~= Seq::<AssignmentView>::empty());
    }
    while i < given.len()
        invariant
            all == sorting::views(given@),
            i <= given@.len(),
            chars::texts(out@) == assigned_in(all.take(i as int), file@),
        decreases given@.len() - i,
    {
        proof {
            assert(all.take(i + 1).drop_last() =~= all.take(i as int));
            assert(all.take(i + 1).last() == given@[i as int]@);
        }
        if same(given[i].target_file.as_str(), file) {
            out.push(own(given[i].candidate_id.as_str()));
        }
        i = i + 1;
    }
    proof {
        assert(all.take(all.len() as int) =~= all);
    }
    out
}

fn list_unassigned(cs: &[CandidateWorkItem], ids: &[String], file: &str) -> (r: Vec<String>)
    ensures
        chars::texts(r@) == belonging_to(sorting::views(cs@), chars::texts(ids@), file@),
{
    let ghost all = chars::texts(ids@);
    let mut out: Vec<String> = Vec::new();
    let mut i: usize = 0;
    proof {
        assert(all.take(0) =~= Seq::<Seq<char>>::empty());
    }
    while i < ids.len()
        invariant
            all == chars::texts(ids@),
            i <= ids@.len(),
            chars::texts(out@) == belonging_to(sorting::views(cs@), all.take(i as int), file@),
        decreases ids@.len() - i,
    {
        proof {
            assert(all.take(i + 1).drop_last() =~= all.take(i as int));
            assert(all.take(i + 1).last() == ids@[i as int]@);
        }
        if candidate_file_is(cs, ids[i].as_str(), file) {
            out.push(own(ids[i].as_str()));
        }
        i = i + 1;
    }
    proof {
        assert(all.take(all.len() as int) =~= all);
    }
    out
}

/// What the agents of one file have together.
struct FileAgentTotals {
    eligible: Vec<String>,
    saturated: Vec<String>,
    max_depth: usize,
    remaining: usize,
}

spec fn totals_view(t: FileAgentTotals) -> FileAgents {
    FileAgents {
        eligible: chars::texts(t.eligible@),
        saturated: chars::texts(t.saturated@),
        max_depth: t.max_depth as nat,
        remaining: t.remaining as nat,
    }
}

proof fn lemma_remaining_grows(s: Seq<AgentSummaryView>, file: Seq<char>, n: int)
    requires
        0 <= n <= s.len(),
    ensures
        agents_in(s.take(n), file).remaining <= agents_in(s, file).remaining,
    decreases s.len() - n,
{
    if n == s.len() {
        assert(s.take(n) =~= s);
    } else {
        lemma_remaining_grows(s, file, n + 1);
        assert(s.take(n + 1).drop_last() =~= s.take(n));
    }
}

fn total_agents(listed: &[AgentDispatchSummary], file: &str) -> (r: FileAgentTotals)
    requires
        agents_in(sorting::views(listed@), file@).remaining <= usize::MAX,
    ensures
        totals_view(r) == agents_in(sorting::views(listed@), file@),
{
    let ghost all = sorting::views(listed@);
    let mut t = FileAgentTotals {
        eligible: Vec::new(),
        saturated: Vec::new(),
        max_depth: 0,
        remaining: 0,
    };
    let mut i: usize = 0;
    proof {
        assert(all.take(0) =~= Seq::<AgentSummaryView>::empty());
    }
    while i < listed.len()
        invariant
            all == sorting::views(listed@),
            agents_in(all, file@).remaining <= usize::MAX,
            i <= listed@.len(),
            totals_view(t) == agents_in(all.take(i as int), file@),
        decreases listed@.len() - i,
    {
        let s = &listed[i];
        proof {
            assert(all.take(i + 1).drop_last() =~= all.take(i as int));
            assert(all.take(i + 1).last() == s@);
            lemma_remaining_grows(all, file@, i + 1);
        }
        if same(s.target_file.as_str(), file) {
            let id = own(s.agent_id.as_str());
            t.eligible.push(id);
            if s.queue_depth > t.max_depth {
                t.max_depth = s.queue_depth;
            }
            t.remaining = t.remaining + s.remaining_capacity;
            if s.saturated {
                t.saturated.push(own(s.agent_id.as_str()));
            }
        }
        i = i + 1;
    }
    proof {
        assert(all.take(all.len() as int) =~= all);
    }
    t
}

proof fn lemma_sorted_len(s: Seq<Seq<char>>)
    ensures
        sorting::sorted_texts(s).len() == s.len(),
{
    sorting::law_sorted::<String>(s);
}

fn summarize_file(
    plan: &DispatchPlan,
    candidates: &[CandidateWorkItem],
    listed: &[AgentDispatchSummary],
    file: &str,
) -> (r: FileDispatchSummary)
    requires
        agents_in(sorting::views(listed@), file@).remaining <= usize::MAX,
    ensures
        r@ == file_summary(
            plan@,
            sorting::views(candidates@),
            sorting::views(listed@),
            file@,
        ),
{
    let t = total_agents(listed, file);
    let ghost a = totals_view(t);
    let assigned = sort_texts(list_assigned(plan.assignments.as_slice(), file));
    let unassigned = sort_texts(
        list_unassigned(candidates, plan.unassigned_candidates.as_slice(), file),
    );
    let max_depth = t.max_depth;
    let remaining = t.remaining;
    let eligible = sort_texts(t.eligible);
    let saturated = sort_texts(t.saturated);
    proof {
        lemma_sorted_len(a.eligible);
        assert(eligible@.len() == chars::texts(eligible@).len());
        assert(unassigned@.len() == chars::texts(unassigned@).len());
    }
    let backpressure = if eligible.len() == 0 {
        DispatchBackpressure::BlockedNoAgent
    } else if remaining == 0 {
        DispatchBackpressure::Saturated
    } else if unassigned.len() > 0 {
        DispatchBackpressure::Limited
    } else {
        DispatchBackpressure::Available
    };
    FileDispatchSummary {
        target_file: own(file),
        assigned_candidate_ids: assigned,
        unassigned_candidate_ids: unassigned,
        eligible_agent_ids: eligible,
        saturated_agent_ids: saturated,
        max_queue_depth: max_depth,
        remaining_capacity: remaining,
        backpressure,
    }
}

/// Whether the candidates that the agents of a file can still take can be counted.
pub open spec fn room_fits(
    plan: PlanView,
    agents: Seq<Agent>,
    limit: nat,
    file: Seq<char>,
) -> bool {
    agents_in(listed_agents(plan.assignments, agents, limit), file).remaining <= usize::MAX
}

/// Summarizes the dispatch state of each file that candidates or agents name.
pub fn summarize_dispatch_plan(
    plan: &DispatchPlan,
    candidates: &[CandidateWorkItem],
    agents: &[Agent],
    max_assignments_per_agent: usize,
) -> (r: Vec<FileDispatchSummary>)
    requires
        forall|file: Seq<char>|
            room_fits(plan@, agents@, max_assignments_per_agent as nat, file),
    ensures
        sorting::views(r@) == file_summaries(
            plan@,
            sorting::views(candidates@),
            agents@,
            max_assignments_per_agent as nat,
        ),
{
    let limit = max_assignments_per_agent;
    let listed = summarize_agent_dispatch(plan, agents, limit);
    let files = sort_distinct(list_files(candidates, agents));
    let ghost all = file_summaries(plan@, sorting::views(candidates@), agents@, limit as nat);
    let ghost lv = sorting::views(listed@);
    proof {
        assert(lv.len() == listed@.len());
    }
    let mut out: Vec<FileDispatchSummary> = Vec::new();
    let mut i: usize = 0;
    proof {
        assert(sorting::views(out@) =~= all.take(0));
    }
    while i < files.len()
        invariant
            lv == sorting::views(listed@),
            lv == listed_agents(plan@.assignments, agents@, limit as nat),
            forall|file: Seq<char>| room_fits(plan@, agents@, limit as nat, file),
            chars::texts(files@) == sorting::distinct_texts(
                mentioned_files(sorting::views(candidates@), agents@, agents@.len() as int),
            ),
            all == file_summaries(plan@, sorting::views(candidates@), agents@, limit as nat),
            i <= files@.len(),
            sorting::views(out@) == all.take(i as int),
        decreases files@.len() - i,
    {
        let ghost before = out@;
        proof {
            assert(chars::texts(files@)[i as int] == files@[i as int]@);
            assert(room_fits(plan@, agents@, limit as nat, files@[i as int]@));
        }
        let s = summarize_file(plan, candidates, listed.as_slice(), files[i].as_str());
        let ghost sv = s@;
        out.push(s);
        proof {
            assert(sorting::views(out@) =~= sorting::views(before).push(sv));
            assert(all.take(i + 1) =~= all.take(i as int).push(sv));
        }
        i = i + 1;
    }
    proof {
        assert(all.len() == files@.len());
        assert(all.take(all.len() as int) =~= all);
    }
    out
}

spec fn capped(s: Seq<AgentSummaryView>, limit: nat) -> bool {
    forall|i: int| 0 <= i < s.len() ==> (#[trigger] s[i]).remaining <= limit
}

proof fn lemma_remaining_bound(s: Seq<AgentSummaryView>, file: Seq<char>, limit: nat)
    requires
        capped(s, limit),
    ensures
        agents_in(s, file).remaining <= limit * s.len(),
    decreases s.len(),
{
    if s.len() > 0 {
        let front = s.drop_last();
        assert forall|i: int| 0 <= i < front.len() implies (#[trigger] front[i]).remaining
            <= limit by {
            assert(front[i] == s[i]);
        }
        lemma_remaining_bound(front, file, limit);
        assert(s[s.len() - 1].remaining <= limit);
        assert(limit * front.len() + limit == limit * s.len()) by (nonlinear_arith)
            requires
                front.len() + 1 == s.len(),
        ;
    } else {
        assert(limit * s.len() >= 0) by (nonlinear_arith);
    }
}

proof fn lemma_summaries_capped(
    given: Seq<AssignmentView>,
    agents: Seq<Agent>,
    limit: nat,
    n: int,
)
    requires
        0 <= n <= agents.len(),
    ensures
        capped(agent_summaries(given, agents, limit, n), limit),
        agent_summaries(given, agents, limit, n).len() <= n,
    decreases n,
{
    if n > 0 {
        lemma_summaries_capped(given, agents, limit, n - 1);
        let before = agent_summaries(given, agents, limit, n - 1);
        let all = agent_summaries(given, agents, limit, n);
        assert forall|i: int| 0 <= i < all.len() implies (#[trigger] all[i]).remaining
            <= limit by {
            if i < before.len() {
                assert(all[i] == before[i]);
            }
        }
    }
}

proof fn lemma_listed_capped(given: Seq<AssignmentView>, agents: Seq<Agent>, limit: nat)
    ensures
        capped(listed_agents(given, agents, limit), limit),
        listed_agents(given, agents, limit).len() <= agents.len(),
{
    let s = agent_summaries(given, agents, limit, agents.len() as int);
    let t = listed_agents(given, agents, limit);
    lemma_summaries_capped(given, agents, limit, agents.len() as int);
    sorting::law_sorted::<AgentDispatchSummary>(s);
    assert forall|i: int| 0 <= i < t.len() implies (#[trigger] t[i]).remaining <= limit by {
        assert(t.contains(t[i]));
        vstd::seq_lib::to_multiset_contains(t, t[i]);
        vstd::seq_lib::to_multiset_contains(s, t[i]);
        let k = choose|k: int| 0 <= k < s.len() && s[k] == t[i];
        assert(s[k].remaining <= limit);
    }
}

/// Where the candidates that all agents can take can be counted, so can those of every file.
pub proof fn law_room_fits(plan: PlanView, agents: Seq<Agent>, limit: nat)
    requires
        limit * agents.len() <= usize::MAX,
    ensures
        forall|file: Seq<char>| room_fits(plan, agents, limit, file),
{
    let listed = listed_agents(plan.assignments, agents, limit);
    lemma_listed_capped(plan.assignments, agents, limit);
    assert forall|file: Seq<char>| room_fits(plan, agents, limit, file) by {
        lemma_remaining_bound(listed, file, limit);
        assert(limit * listed.len() <= limit * agents.len()) by (nonlinear_arith)
            requires
                listed.len() <= agents.len(),
        ;
    }
}

} // verus!
