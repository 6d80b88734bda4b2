//! Giving candidates to agents.
//!
//! Candidates are taken by falling priority. Each goes to an agent of its own file that still
//! has room, in turns; what finds no agent stays unassigned.
use crate::score;
use crate::score::Score;
use crate::sorting;
use crate::sorting::{sort_distinct, sort_stable, Ranked};
use crate::swarm::agent::Agent;
use crate::text::chars;
use crate::text::chars::{own, same};
use crate::text::order;
use crate::text::order::text_before;
use vstd::prelude::*;

verus! {

broadcast use chars::lemma_texts_push, chars::lemma_texts_empty;

/// A candidate that can be given to an agent.
#[derive(Debug, Clone, PartialEq, Eq)]
pub struct CandidateWorkItem {
    pub candidate_id: String,
    pub target_file: String,
    /// Higher scores are dispatched first.
    pub priority_score: Score,
}

/// What a [`CandidateWorkItem`] stands for.
#[verifier::ext_equal]
pub struct ItemView {
    pub id: Seq<char>,
    pub file: Seq<char>,
    pub priority: int,
}

impl View for CandidateWorkItem {
    type V = ItemView;

    open spec fn view(&self) -> ItemView {
        ItemView {
            id: self.candidate_id@,
            file: self.target_file@,
            priority: self.priority_score.rank as int,
        }
    }
}

impl CandidateWorkItem {
    /// A candidate with its file and priority.
    pub fn new(candidate_id: &str, target_file: &str, priority_score: Score) -> (r:
        CandidateWorkItem)
        ensures
            r@ == (ItemView {
                id: candidate_id@,
                file: target_file@,
                priority: priority_score.rank as int,
            }),
    {
        CandidateWorkItem {
            candidate_id: own(candidate_id),
            target_file: own(target_file),
            priority_score,
        }
    }

    fn copy(&self) -> (r: CandidateWorkItem)
        ensures
            r@ == self@,
    {
        CandidateWorkItem {
            candidate_id: own(self.candidate_id.as_str()),
            target_file: own(self.target_file.as_str()),
            priority_score: self.priority_score,
        }
    }
}

/// Whether a candidate is dispatched before another: by falling priority, then by id. Where one
/// of the priorities is no number, only the ids count.
pub open spec fn dispatched_before(a: ItemView, b: ItemView) -> bool {
    score::lower(b.priority, a.priority) || (!score::lower(a.priority, b.priority)
        && order::text_less(a.id, b.id))
}

impl Ranked for CandidateWorkItem {
    open spec fn proper(a: ItemView) -> bool {
        score::is_number(a.priority)
    }

    open spec fn less(a: ItemView, b: ItemView) -> bool {
        dispatched_before(a, b)
    }

    fn before(&self, other: &CandidateWorkItem) -> (r: bool) {
        self.priority_score.above(&other.priority_score) || (!other.priority_score.above(
            &self.priority_score,
        ) && text_before(self.candidate_id.as_str(), other.candidate_id.as_str()))
    }

    proof fn around(a: ItemView, b: ItemView, c: ItemView) {
        if dispatched_before(c, a) && c.priority == a.priority && a.priority == b.priority {
            order::lemma_text_transitive(c.id, a.id, b.id);
        }
    }

    proof fn irreflexive(a: ItemView) {
        order::lemma_text_irreflexive(a.id);
    }
}

/// A candidate given to an agent.
#[derive(Debug, Clone, PartialEq, Eq)]
pub struct CandidateAssignment {
    pub candidate_id: String,
    pub agent_id: String,
    pub target_file: String,
    /// The place of the candidate in the agent's queue, counted from zero.
    pub queue_position: usize,
}

/// What a [`CandidateAssignment`] stands for.
#[verifier::ext_equal]
pub struct AssignmentView {
    pub candidate: Seq<char>,
    pub agent: Seq<char>,
    pub file: Seq<char>,
    pub position: nat,
}

impl View for CandidateAssignment {
    type V = AssignmentView;

    open spec fn view(&self) -> AssignmentView {
        AssignmentView {
            candidate: self.candidate_id@,
            agent: self.agent_id@,
            file: self.target_file@,
            position: self.queue_position as nat,
        }
    }
}

/// Which candidate goes to which agent.
#[derive(Debug, Clone, PartialEq, Eq)]
pub struct DispatchPlan {
    pub assignments: Vec<CandidateAssignment>,
    pub unassigned_candidates: Vec<String>,
    pub saturated_agents: Vec<String>,
}

/// What a [`DispatchPlan`] stands for.
#[verifier::ext_equal]
pub struct PlanView {
    pub assignments: Seq<AssignmentView>,
    pub unassigned: Seq<Seq<char>>,
    pub saturated: Seq<Seq<char>>,
}

impl View for DispatchPlan {
    type V = PlanView;

    open spec fn view(&self) -> PlanView {
        PlanView {
            assignments: sorting::views(self.assignments@),
            unassigned: chars::texts(self.unassigned_candidates@),
            saturated: chars::texts(self.saturated_agents@),
        }
    }
}

impl Default for DispatchPlan {
    fn default() -> (r: Self)
        ensures
            r@ == (PlanView {
                assignments: Seq::<AssignmentView>::empty(),
                unassigned: Seq::<Seq<char>>::empty(),
                saturated: Seq::<Seq<char>>::empty(),
            }),
    {
        let r = DispatchPlan {
            assignments: Vec::new(),
            unassigned_candidates: Vec::new(),
            saturated_agents: Vec::new(),
        };
        proof {
            assert(r@.assignments =~= Seq::<AssignmentView>::empty());
        }
        r
    }
}

/// The ids of the agents to which candidates of the file can be given, in order.
pub open spec fn file_agents(agents: Seq<Agent>, file: Seq<char>) -> Seq<Seq<char>>
    decreases agents.len(),
{
    if agents.len() == 0 {
        Seq::<Seq<char>>::empty()
    } else {
        let before = file_agents(agents.drop_last(), file);
        if agents.last().assignable() && agents.last().target_file@ == file {
            before.push(agents.last().id@)
        } else {
            before
        }
    }
}

/// How many candidates an agent has been given.
pub open spec fn load(given: Seq<AssignmentView>, agent: Seq<char>) -> nat
    decreases given.len(),
{
    if given.len() == 0 {
        0
    } else {
        load(given.drop_last(), agent) + (if given.last().agent == agent {
            1nat
        } else {
            0nat
        })
    }
}

/// The seat that is `offset` places after `start` in a round of `n` seats.
pub open spec fn seat(start: nat, offset: nat, n: nat) -> int {
    (start + offset) as int % n as int
}

/// The position of the first agent with room, in the turn that begins at `start` and has
/// come to `offset`.
pub open spec fn with_room(
    ids: Seq<Seq<char>>,
    given: Seq<AssignmentView>,
    limit: nat,
    start: nat,
    offset: nat,
) -> Option<int>
    decreases ids.len() - offset,
{
    if offset >= ids.len() {
        None
    } else {
        let k = seat(start, offset, ids.len());
        if load(given, ids[k]) < limit {
            Some(k)
        } else {
            with_room(ids, given, limit, start, offset + 1)
        }
    }
}

/// What has been dispatched so far; `turns` says for each file which of its agents is next.
#[verifier::ext_equal]
pub struct Dispatched {
    pub assignments: Seq<AssignmentView>,
    pub unassigned: Seq<Seq<char>>,
    pub turns: Map<Seq<char>, nat>,
}

/// Whose turn it is in a file.
pub open spec fn turn(turns: Map<Seq<char>, nat>, file: Seq<char>) -> nat {
    if turns.contains_key(file) {
        turns[file]
    } else {
        0
    }
}

/// What has been dispatched after one more candidate.
pub open spec fn dispatch_one(st: Dispatched, agents: Seq<Agent>, limit: nat, c: ItemView) ->
    Dispatched {
    let ids = file_agents(agents, c.file);
    match with_room(ids, st.assignments, limit, turn(st.turns, c.file), 0) {
        Some(k) => Dispatched {
            assignments: st.assignments.push(
                AssignmentView {
                    candidate: c.id,
                    agent: ids[k],
                    file: c.file,
                    position: load(st.assignments, ids[k]),
                },
            ),
            unassigned: st.unassigned,
            turns: st.turns.insert(c.file, ((k + 1) % (ids.len() as int)) as nat),
        },
        None => Dispatched {
            assignments: st.assignments,
            unassigned: st.unassigned.push(c.id),
            turns: st.turns,
        },
    }
}

/// What has been dispatched after the given candidates, in their order.
pub open spec fn dispatch_all(agents: Seq<Agent>, limit: nat, cs: Seq<ItemView>) -> Dispatched
    decreases cs.len(),
{
    if cs.len() == 0 {
        Dispatched {
            assignments: Seq::<AssignmentView>::empty(),
            unassigned: Seq::<Seq<char>>::empty(),
            turns: Map::<Seq<char>, nat>::empty(),
        }
    } else {
        dispatch_one(dispatch_all(agents, limit, cs.drop_last()), agents, limit, cs.last())
    }
}

/// The agents of the assignments that have no room left, with repetition.
pub open spec fn full_agents(given: Seq<AssignmentView>, limit: nat, n: int) -> Seq<Seq<char>>
    decreases n,
{
    if n <= 0 {
        Seq::<Seq<char>>::empty()
    } else {
        let before = full_agents(given, limit, n - 1);
        if load(given, given[n - 1].agent) >= limit {
            before.push(given[n - 1].agent)
        } else {
            before
        }
    }
}

/// The ids of candidates.
pub open spec fn item_ids(cs: Seq<ItemView>) -> Seq<Seq<char>> {
    Seq::new(cs.len(), |i: int| cs[i].id)
}

/// The plan for the given candidates. Without room at all every candidate stays unassigned,
/// in the given order.
pub open spec fn dispatch_plan(cs: Seq<ItemView>, agents: Seq<Agent>, limit: nat) -> PlanView {
    if limit == 0 {
        PlanView {
            assignments: Seq::<AssignmentView>::empty(),
            unassigned: item_ids(cs),
            saturated: Seq::<Seq<char>>::empty(),
        }
    } else {
        let d = dispatch_all(agents, limit, sorting::sorted::<CandidateWorkItem>(cs));
        PlanView {
            assignments: d.assignments,
            unassigned: d.unassigned,
            saturated: sorting::distinct_texts(
                full_agents(d.assignments, limit, d.assignments.len() as int),
            ),
        }
    }
}

/// A table of turns by file.
struct Turns {
    entries: Vec<(String, usize)>,
}

impl Turns {
    spec fn find_from(self, file: Seq<char>, i: int) -> Option<int>
        decreases self.entries@.len() - i,
    {
        if i < 0 || i >= self.entries@.len() {
            None
        } else if self.entries@[i].0@ == file {
            Some(i)
        } else {
            self.find_from(file, i + 1)
        }
    }

    spec fn at(self, file: Seq<char>) -> nat {
        match self.find_from(file, 0) {
            Some(i) => self.entries@[i].1 as nat,
            None => 0,
        }
    }

    proof fn lemma_find(self, file: Seq<char>, i: int)
        requires
            0 <= i,
        ensures
            match self.find_from(file, i) {
                Some(k) => i <= k < self.entries@.len() && self.entries@[k].0@ == file
                    && forall|j: int| i <= j < k ==> (#[trigger] self.entries@[j]).0@ != file,
                None => forall|j: int|
                    i <= j < self.entries@.len() ==> (#[trigger] self.entries@[j]).0@ != file,
            },
        decreases self.entries@.len() - i,
    {
        if i < self.entries@.len() && self.entries@[i].0@ != file {
            self.lemma_find(file, i + 1);
        }
    }

    proof fn lemma_same_find(self, other: Turns, file: Seq<char>, i: int)
        requires
            0 <= i,
            other.entries@.len() == self.entries@.len(),
            forall|j: int|
                0 <= j < self.entries@.len() ==> (#[trigger] other.entries@[j]).0@
                    == self.entries@[j].0@,
        ensures
            other.find_from(file, i) == self.find_from(file, i),
        decreases self.entries@.len() - i,
    {
        if i < self.entries@.len() {
            assert(other.entries@[i].0@ == self.entries@[i].0@);
            self.lemma_same_find(other, file, i + 1);
        }
    }

    proof fn lemma_push_find(self, other: Turns, file: Seq<char>, i: int)
        requires
            0 <= i <= self.entries@.len(),
            other.entries@.len() == self.entries@.len() + 1,
            forall|j: int|
                0 <= j < self.entries@.len() ==> (#[trigger] other.entries@[j])
                    == self.entries@[j],
        ensures
            other.find_from(file, i) == (match self.find_from(file, i) {
                Some(k) => Some(k),
                None => if other.entries@[self.entries@.len() as int].0@ == file {
                    Some(self.entries@.len() as int)
                } else {
                    None
                },
            }),
        decreases self.entries@.len() - i,
    {
        if i < self.entries@.len() {
            assert(other.entries@[i] == self.entries@[i]);
            self.lemma_push_find(other, file, i + 1);
        } else {
            assert(other.find_from(file, i + 1) is None);
        }
    }

    fn get(&self, file: &str) -> (r: usize)
        ensures
            r == self.at(file@),
    {
        let mut i: usize = 0;
        while i < self.entries.len()
            invariant
                i <= self.entries@.len(),
                self.find_from(file@, 0) == self.find_from(file@, i as int),
            decreases self.entries@.len() - i,
        {
            if same(self.entries[i].0.as_str(), file) {
                return self.entries[i].1;
            }
            i = i + 1;
        }
        0
    }

    fn set(&mut self, file: &str, value: usize)
        ensures
            forall|f: Seq<char>| #[trigger]
                final(self).at(f) == (if f == file@ {
                    value as nat
                } else {
                    old(self).at(f)
                }),
    {
        let ghost before = *self;
        let n: usize = self.entries.len();
        let mut i: usize = 0;
        while i < n && !same(self.entries[i].0.as_str(), file)
            invariant
                *self == before,
                n == self.entries@.len(),
                i <= n,
                before.find_from(file@, 0) == before.find_from(file@, i as int),
            decreases n - i,
        {
            i = i + 1;
        }
        if i < n {
            self.entries.set(i, (own(file), value));
            proof {
                assert forall|f: Seq<char>| #[trigger] self.at(f) == (if f == file@ {
                    value as nat
                } else {
                    before.at(f)
                }) by {
                    before.lemma_same_find(*self, f, 0);
                    before.lemma_find(f, 0);
                }
            }
        } else {
            self.entries.push((own(file), value));
            proof {
                assert forall|f: Seq<char>| #[trigger] self.at(f) == (if f == file@ {
                    value as nat
                } else {
                    before.at(f)
                }) by {
                    before.lemma_push_find(*self, f, 0);
                    before.lemma_find(f, 0);
                }
            }
        }
    }
}

fn agents_of_file(agents: &[Agent], file: &str) -> (r: Vec<String>)
    ensures
        chars::texts(r@) == file_agents(agents@, file@),
{
    let mut out: Vec<String> = Vec::new();
    let mut i: usize = 0;
    proof {
        assert(agents@.take(0) =~= Seq::<Agent>::empty());
    }
    while i < agents.len()
        invariant
            i <= agents@.len(),
            chars::texts(out@) == file_agents(agents@.take(i as int), file@),
        decreases agents@.len() - i,
    {
        proof {
            assert(agents@.take(i + 1).drop_last() =~= agents@.take(i as int));
        }
        if agents[i].is_assignable() && same(agents[i].target_file.as_str(), file) {
            out.push(own(agents[i].id.as_str()));
        }
        i = i + 1;
    }
    proof {
        assert(agents@.take(agents@.len() as int) =~= agents@);
    }
    out
}

fn load_of(given: &[CandidateAssignment], agent: &str) -> (r: usize)
    ensures
        r == load(sorting::views(given@), agent@),
        r <= given@.len(),
{
    let ghost all = sorting::views(given@);
    let mut n: usize = 0;
    let mut i: usize = 0;
    proof {
        assert(all.take(0) =~= Seq::<AssignmentView>::empty());
    }
    while i < given.len()
        invariant
            all == sorting::views(given@),
            i <= given@.len(),
            n == load(all.take(i as int), agent@),
            n <= i,
        decreases given@.len() - i,
    {
        proof {
            assert(all.take(i + 1).drop_last() =~= all.take(i as int));
            assert(all.take(i + 1).last() == given@[i as int]@);
        }
        if same(given[i].agent_id.as_str(), agent) {
            n = n + 1;
        }
        i = i + 1;
    }
    proof {
        assert(all.take(all.len() as int) =~= all);
    }
    n
}

fn find_room(
    ids: &[String],
    given: &[CandidateAssignment],
    limit: usize,
    start: usize,
) -> (r: Option<usize>)
    requires
        start < ids@.len() || start == 0,
    ensures
        match r {
            Some(k) => k < ids@.len() && with_room(
                chars::texts(ids@),
                sorting::views(given@),
                limit as nat,
                start as nat,
                0,
            ) == Some(k as int),
            None => with_room(
                chars::texts(ids@),
                sorting::views(given@),
                limit as nat,
                start as nat,
                0,
            ) is None,
        },
{
    let ghost all = chars::texts(ids@);
    let ghost have = sorting::views(given@);
    let n: usize = ids.len();
    let mut offset: usize = 0;
    while offset < n
        invariant
            all == chars::texts(ids@),
            have == sorting::views(given@),
            n == all.len(),
            start < n || start == 0,
            offset <= n,
            with_room(all, have, limit as nat, start as nat, 0) == with_room(
                all,
                have,
                limit as nat,
                start as nat,
                offset as nat,
            ),
        decreases n - offset,
    {
        let k: usize = if offset < n - start {
            start + offset
        } else {
            offset - (n - start)
        };
        proof {
            assert(k == seat(start as nat, offset as nat, n as nat)) by {
                if offset < n - start {
                    vstd::arithmetic::div_mod::lemma_small_mod((start + offset) as nat, n as nat);
                } else {
                    vstd::arithmetic::div_mod::lemma_mod_sub_multiples_vanish(
                        (start + offset) as int,
                        n as int,
                    );
                    vstd::arithmetic::div_mod::lemma_small_mod(k as nat, n as nat);
                }
            }
            assert(all[k as int] == ids@[k as int]@);
        }
        if load_of(given, ids[k].as_str()) < limit {
            return Some(k);
        }
        offset = offset + 1;
    }
    None
}

fn sorted_items(cs: &[CandidateWorkItem]) -> (r: Vec<CandidateWorkItem>)
    ensures
        sorting::views(r@) == sorting::sorted::<CandidateWorkItem>(sorting::views(cs@)),
{
    let mut copies: Vec<CandidateWorkItem> = Vec::new();
    let mut i: usize = 0;
    while i < cs.len()
        invariant
            i <= cs@.len(),
            copies@.len() == i,
            forall|j: int| 0 <= j < i ==> (#[trigger] copies@[j])@ == cs@[j]@,
        decreases cs@.len() - i,
    {
        copies.push(cs[i].copy());
        i = i + 1;
    }
    proof {
        assert(sorting::views(copies@) =~= sorting::views(cs@));
    }
    sort_stable(copies)
}

fn ids_of(cs: &[CandidateWorkItem]) -> (r: Vec<String>)
    ensures
        chars::texts(r@) == item_ids(sorting::views(cs@)),
{
    let mut out: Vec<String> = Vec::new();
    let mut i: usize = 0;
    while i < cs.len()
        invariant
            i <= cs@.len(),
            out@.len() == i,
            forall|j: int| 0 <= j < i ==> (#[trigger] out@[j])@ == cs@[j].candidate_id@,
        decreases cs@.len() - i,
    {
        out.push(own(cs[i].candidate_id.as_str()));
        i = i + 1;
    }
    proof {
        assert(chars::texts(out@) =~= item_ids(sorting::views(cs@)));
    }
    out
}

fn list_full_agents(given: &[CandidateAssignment], limit: usize) -> (r: Vec<String>)
    ensures
        chars::texts(r@) == full_agents(
            sorting::views(given@),
            limit as nat,
            given@.len() as int,
        ),
{
    let ghost all = sorting::views(given@);
    let mut out: Vec<String> = Vec::new();
    let mut i: usize = 0;
    while i < given.len()
        invariant
            all == sorting::views(given@),
            i <= given@.len(),
            chars::texts(out@) == full_agents(all, limit as nat, i as int),
        decreases given@.len() - i,
    {
        proof {
            assert(all[i as int] == given@[i as int]@);
        }
        if load_of(given, given[i].agent_id.as_str()) >= limit {
            out.push(own(given[i].agent_id.as_str()));
        }
        i = i + 1;
    }
    out
}

proof fn lemma_turns_small(agents: Seq<Agent>, limit: nat, cs: Seq<ItemView>, file: Seq<char>)
    ensures
        turn(dispatch_all(agents, limit, cs).turns, file) == 0 || turn(
            dispatch_all(agents, limit, cs).turns,
            file,
        ) < file_agents(agents, file).len(),
    decreases cs.len(),
{
    if cs.len() > 0 {
        lemma_turns_small(agents, limit, cs.drop_last(), file);
        let st = dispatch_all(agents, limit, cs.drop_last());
        let c = cs.last();
        let ids = file_agents(agents, c.file);
        lemma_with_room(ids, st.assignments, limit, turn(st.turns, c.file), 0);
    }
}

/// A seat with room has room, and where none is found all that were tried are full.
pub proof fn lemma_with_room(
    ids: Seq<Seq<char>>,
    given: Seq<AssignmentView>,
    limit: nat,
    start: nat,
    offset: nat,
)
    ensures
        match with_room(ids, given, limit, start, offset) {
            Some(k) => 0 <= k < ids.len() && load(given, ids[k]) < limit,
            None => forall|o: nat|
                offset <= o < ids.len() ==> load(
                    given,
                    ids[#[trigger] seat(start, o, ids.len())],
                ) >= limit,
        },
    decreases ids.len() - offset,
{
    if offset < ids.len() {
        let k = seat(start, offset, ids.len());
        if load(given, ids[k]) >= limit {
            lemma_with_room(ids, given, limit, start, offset + 1);
        }
    }
}

/// Gives candidates to agents, each agent at most `max_assignments_per_agent`.
pub fn build_dispatch_plan(
    candidates: &[CandidateWorkItem],
    agents: &[Agent],
    max_assignments_per_agent: usize,
) -> (r: DispatchPlan)
    ensures
        r@ == dispatch_plan(
            sorting::views(candidates@),
            agents@,
            max_assignments_per_agent as nat,
        ),
{
    let limit = max_assignments_per_agent;
    if limit == 0 {
        let plan = DispatchPlan {
            assignments: Vec::new(),
            unassigned_candidates: ids_of(candidates),
            saturated_agents: Vec::new(),
        };
        proof {
            assert(plan@.assignments =~= Seq::<AssignmentView>::empty());
        }
        return plan;
    }
    let ordered = sorted_items(candidates);
    let ghost cs = sorting::views(ordered@);
    let mut assignments: Vec<CandidateAssignment> = Vec::new();
    let mut unassigned: Vec<String> = Vec::new();
    let mut turns = Turns { entries: Vec::new() };
    let mut i: usize = 0;
    proof {
        assert(cs.take(0) =~= Seq::<ItemView>::empty());
        assert(sorting::views(assignments@) =~= Seq::<AssignmentView>::empty());
    }
    while i < ordered.len()
        invariant
            cs == sorting::views(ordered@),
            i <= ordered@.len(),
            sorting::views(assignments@) == dispatch_all(
                agents@,
                limit as nat,
                cs.take(i as int),
            ).assignments,
            chars::texts(unassigned@) == dispatch_all(
                agents@,
                limit as nat,
                cs.take(i as int),
            ).unassigned,
            forall|f: Seq<char>| #[trigger]
                turns.at(f) == turn(
                    dispatch_all(agents@, limit as nat, cs.take(i as int)).turns,
                    f,
                ),
        decreases ordered@.len() - i,
    {
        let c = &ordered[i];
        let ghost st = dispatch_all(agents@, limit as nat, cs.take(i as int));
        proof {
            assert(cs.take(i + 1).drop_last() =~= cs.take(i as int));
            assert(cs.take(i + 1).last() == c@);
            lemma_turns_small(agents@, limit as nat, cs.take(i as int), c@.file);
        }
        let ids = agents_of_file(agents, c.target_file.as_str());
        let start = turns.get(c.target_file.as_str());
        match find_room(ids.as_slice(), assignments.as_slice(), limit, start) {
            Some(k) => {
                let position = load_of(assignments.as_slice(), ids[k].as_str());
                let given = CandidateAssignment {
                    candidate_id: own(c.candidate_id.as_str()),
                    agent_id: own(ids[k].as_str()),
                    target_file: own(c.target_file.as_str()),
                    queue_position: position,
                };
                let ghost before = assignments@;
                proof {
                    assert(chars::texts(ids@)[k as int] == ids@[k as int]@);
                }
                assignments.push(given);
                proof {
                    assert(sorting::views(assignments@) =~= sorting::views(before).push(given@));
                }
                let next: usize = if k == ids.len() - 1 {
                    0
                } else {
                    k + 1
                };
                proof {
                    assert(next == (k + 1) % (ids@.len() as int)) by {
                        if k + 1 == ids@.len() {
                            vstd::arithmetic::div_mod::lemma_mod_self_0(ids@.len() as int);
                        } else {
                            vstd::arithmetic::div_mod::lemma_small_mod(
                                (k + 1) as nat,
                                ids@.len() as nat,
                            );
                        }
                    }
                }
                turns.set(c.target_file.as_str(), next);
            },
            None => {
                unassigned.push(own(c.candidate_id.as_str()));
            },
        }
        i = i + 1;
    }
    proof {
        assert(cs.take(cs.len() as int) =~= cs);
    }
    let full = list_full_agents(assignments.as_slice(), limit);
    DispatchPlan {
        assignments,
        unassigned_candidates: unassigned,
        saturated_agents: sort_distinct(full),
    }
}

} // verus!
