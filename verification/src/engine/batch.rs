//! Which steps of a plan are worked on next.
use crate::score;
use crate::score::place_of;
use crate::sorting;
use crate::sorting::sort_distinct;
use crate::swarm::monitor;
use crate::swarm::monitor::DensityController;
use crate::text::chars;
use crate::text::chars::{own, same};
use crate::text::order;
use crate::text::order::text_before;
use crate::thermal;
use crate::thermal::{phase_from_progress, ExecutionPhase};
use vstd::prelude::*;

verus! {

broadcast use chars::lemma_texts_push, chars::lemma_texts_empty;

/// One step of a plan.
#[derive(Debug, Clone, PartialEq, Eq)]
pub struct PlanStep {
    pub file_path: String,
    pub instruction: String,
    /// The bit pattern of the priority.
    pub priority: u64,
    pub estimated_tokens: u32,
}

/// What a [`PlanStep`] stands for.
#[verifier::ext_equal]
pub struct PlanStepView {
    pub file: Seq<char>,
    pub instruction: Seq<char>,
    pub priority: u64,
    pub tokens: u32,
}

impl View for PlanStep {
    type V = PlanStepView;

    open spec fn view(&self) -> PlanStepView {
        PlanStepView {
            file: self.file_path@,
            instruction: self.instruction@,
            priority: self.priority,
            tokens: self.estimated_tokens,
        }
    }
}

impl PlanStep {
    /// A copy of the step.
    pub fn copy(&self) -> (r: PlanStep)
        ensures
            r@ == self@,
    {
        PlanStep {
            file_path: own(self.file_path.as_str()),
            instruction: own(self.instruction.as_str()),
            priority: self.priority,
            estimated_tokens: self.estimated_tokens,
        }
    }
}

/// A step with its position in the plan.
#[derive(Debug, Clone, PartialEq, Eq)]
pub struct IndexedPlanStep {
    pub index: usize,
    pub step: PlanStep,
}

/// What an [`IndexedPlanStep`] stands for.
#[verifier::ext_equal]
pub struct IndexedView {
    pub index: nat,
    pub step: PlanStepView,
}

impl View for IndexedPlanStep {
    type V = IndexedView;

    open spec fn view(&self) -> IndexedView {
        IndexedView { index: self.index as nat, step: self.step@ }
    }
}

/// The steps of the first `n` that belong to a file.
pub open spec fn steps_on(steps: Seq<PlanStepView>, n: int, file: Seq<char>) -> Seq<IndexedView>
    decreases n,
{
    if n <= 0 {
        Seq::empty()
    } else {
        let front = steps_on(steps, n - 1, file);
        if steps[n - 1].file == file {
            front.push(IndexedView { index: (n - 1) as nat, step: steps[n - 1] })
        } else {
            front
        }
    }
}

/// The files of a plan, in order.
pub open spec fn plan_files(steps: Seq<PlanStepView>) -> Seq<Seq<char>> {
    sorting::distinct_texts(Seq::new(steps.len(), |i: int| steps[i].file))
}

/// The steps of a file.
#[derive(Debug, Clone, PartialEq, Eq)]
pub struct FileSteps {
    pub file_key: String,
    pub steps: Vec<IndexedPlanStep>,
}

fn collect_steps(steps: &[PlanStep], file: &str) -> (r: Vec<IndexedPlanStep>)
    ensures
        sorting::views(r@) == steps_on(sorting::views(steps@), steps@.len() as int, file@),
{
    let ghost all = sorting::views(steps@);
    let mut out: Vec<IndexedPlanStep> = Vec::new();
    let mut i: usize = 0;
    proof {
        assert(sorting::views(out@) =~= Seq::<IndexedView>::empty());
    }
    while i < steps.len()
        invariant
            all == sorting::views(steps@),
            i <= steps@.len(),
            sorting::views(out@) == steps_on(all, i as int, file@),
        decreases steps@.len() - i,
    {
        proof {
            assert(all[i as int] == steps@[i as int]@);
        }
        if same(steps[i].file_path.as_str(), file) {
            let ghost before = out@;
            out.push(IndexedPlanStep { index: i, step: steps[i].copy() });
            proof {
                assert(sorting::views(out@) =~= sorting::views(before).push(
                    IndexedView { index: i as nat, step: all[i as int] },
                ));
            }
        }
        i = i + 1;
    }
    out
}

/// Groups the steps of a plan by file, in the order of the files.
pub fn group_steps(steps: &[PlanStep]) -> (r: Vec<FileSteps>)
    ensures
        r@.len() == plan_files(sorting::views(steps@)).len(),
        forall|i: int|
            0 <= i < r@.len() ==> (#[trigger] r@[i]).file_key@ == plan_files(
                sorting::views(steps@),
            )[i] && sorting::views(r@[i].steps@) == steps_on(
                sorting::views(steps@),
                steps@.len() as int,
                plan_files(sorting::views(steps@))[i],
            ),
{
    let ghost all = sorting::views(steps@);
    let mut files: Vec<String> = Vec::new();
    let mut i: usize = 0;
    while i < steps.len()
        invariant
            i <= steps@.len(),
            files@.len() == i,
            forall|j: int| 0 <= j < i ==> (#[trigger] files@[j])@ == steps@[j].file_path@,
        decreases steps@.len() - i,
    {
        files.push(own(steps[i].file_path.as_str()));
        i = i + 1;
    }
    proof {
        assert(chars::texts(files@) =~= Seq::new(all.len(), |i: int| all[i].file));
    }
    let names = sort_distinct(files);
    let mut out: Vec<FileSteps> = Vec::new();
    let mut k: usize = 0;
    while k < names.len()
        invariant
            all == sorting::views(steps@),
            chars::texts(names@) == plan_files(all),
            k <= names@.len(),
            out@.len() == k,
            forall|i: int|
                0 <= i < k ==> (#[trigger] out@[i]).file_key@ == plan_files(all)[i]
                    && sorting::views(out@[i].steps@) == steps_on(
                    all,
                    steps@.len() as int,
                    plan_files(all)[i],
                ),
        decreases names@.len() - k,
    {
        proof {
            assert(chars::texts(names@)[k as int] == names@[k as int]@);
        }
        out.push(
            FileSteps {
                file_key: own(names[k].as_str()),
                steps: collect_steps(steps, names[k].as_str()),
            },
        );
        k = k + 1;
    }
    proof {
        assert(chars::texts(names@).len() == names@.len());
    }
    out
}

/// What is known of a file while its steps are worked on.
#[derive(Debug, Clone, PartialEq, Eq)]
pub struct FileExecutionState {
    pub file_key: String,
    /// The steps that are left, in order.
    pub steps: Vec<IndexedPlanStep>,
    pub latest_state: String,
    /// The hashes of the states that the file had.
    pub seen_hashes: Vec<String>,
}

/// What a [`FileExecutionState`] stands for.
#[verifier::ext_equal]
pub struct StateView {
    pub file: Seq<char>,
    pub steps: Seq<IndexedView>,
    pub latest: Seq<char>,
    pub seen: Seq<Seq<char>>,
}

impl View for FileExecutionState {
    type V = StateView;

    open spec fn view(&self) -> StateView {
        StateView {
            file: self.file_key@,
            steps: sorting::views(self.steps@),
            latest: self.latest_state@,
            seen: chars::texts(self.seen_hashes@),
        }
    }
}

/// The phase of the next step of a file.
pub open spec fn phase_of(s: StateView) -> Option<ExecutionPhase> {
    if s.steps.len() == 0 {
        None
    } else {
        Some(thermal::phase_at(s.steps[0].index as int + 1, s.steps.len() as int))
    }
}

/// The bit pattern of the priority of the next step of a file.
pub open spec fn priority_of(s: StateView) -> u64 {
    if s.steps.len() == 0 {
        0
    } else {
        s.steps[0].step.priority
    }
}

/// Whether positions and counts of steps fit where phases are worked out.
pub open spec fn numbered(s: StateView) -> bool {
    &&& s.steps.len() <= i64::MAX
    &&& forall|i: int| 0 <= i < s.steps.len() ==> (#[trigger] s.steps[i]).index < i64::MAX
}

impl FileExecutionState {
    /// A file with its steps, its content, and the hash of that content.
    pub fn new(
        file_key: String,
        steps: Vec<IndexedPlanStep>,
        latest_state: String,
        state_hash: String,
    ) -> (r: FileExecutionState)
        ensures
            r@ == (StateView {
                file: file_key@,
                steps: sorting::views(steps@),
                latest: latest_state@,
                seen: seq![state_hash@],
            }),
    {
        let r = FileExecutionState {
            file_key,
            steps,
            latest_state,
            seen_hashes: vec![state_hash],
        };
        proof {
            assert(r@.seen =~= seq![state_hash@]);
        }
        r
    }

    /// The phase of the next step.
    pub fn next_phase(&self) -> (r: Option<ExecutionPhase>)
        requires
            numbered(self@),
        ensures
            r == phase_of(self@),
    {
        proof {
            assert(self@.steps.len() == self.steps@.len());
        }
        if self.steps.len() == 0 {
            return None;
        }
        proof {
            assert(self@.steps[0] == self.steps@[0]@);
        }
        Some(phase_from_progress(self.steps[0].index as i64 + 1, self.steps.len() as i64))
    }

    /// The bit pattern of the priority of the next step.
    pub fn priority(&self) -> (r: u64)
        ensures
            r == priority_of(self@),
    {
        proof {
            assert(self@.steps.len() == self.steps@.len());
        }
        if self.steps.len() == 0 {
            return 0;
        }
        proof {
            assert(self@.steps[0] == self.steps@[0]@);
        }
        self.steps[0].step.priority
    }
}

/// How many candidates a step gets.
pub open spec fn fanout(
    phase: ExecutionPhase,
    max_concurrency: int,
    density: int,
    current_density: int,
) -> int {
    let most = if density < 1 {
        1
    } else {
        density
    };
    let now = if current_density < 0 {
        0
    } else {
        current_density
    };
    let cap = match phase {
        ExecutionPhase::Scaffolding => 1,
        ExecutionPhase::Resolution => most,
        ExecutionPhase::Annealing => (most + 1) / 2,
    };
    let slots = if max_concurrency < 1 {
        1
    } else {
        max_concurrency
    };
    if now >= most {
        0
    } else {
        let a = if most - now < cap {
            most - now
        } else {
            cap
        };
        if a < slots {
            a
        } else {
            slots
        }
    }
}

/// How many candidates a step gets: one in scaffolding, as many as its density allows in
/// resolution, half of that in annealing, and never more than there is room for.
/// `wanted` is the density that the priority of the step asks for.
pub fn candidate_fanout(
    phase: ExecutionPhase,
    max_concurrency: usize,
    wanted: i32,
    current_density: i32,
    density_controller: &DensityController,
) -> (r: usize)
    ensures
        r == fanout(
            phase,
            max_concurrency as int,
            monitor::bounded_density(density_controller.max_density as int, wanted as int),
            current_density as int,
        ),
{
    let density = density_controller.max_density_for_score(wanted);
    let most: i64 = if density < 1 {
        1
    } else {
        density as i64
    };
    let now: i64 = if current_density < 0 {
        0
    } else {
        current_density as i64
    };
    if now >= most {
        return 0;
    }
    let cap: i64 = match phase {
        ExecutionPhase::Scaffolding => 1,
        ExecutionPhase::Resolution => most,
        ExecutionPhase::Annealing => (most + 1) / 2,
    };
    let a: usize = if most - now < cap {
        (most - now) as usize
    } else {
        cap as usize
    };
    let slots: usize = if max_concurrency < 1 {
        1
    } else {
        max_concurrency
    };
    if a < slots {
        a
    } else {
        slots
    }
}

/// A file that agents can be sent to.
#[derive(Debug, Clone, PartialEq, Eq)]
pub struct DispatchTarget {
    pub file_path: String,
    pub active_agents: i32,
    pub launchable_agents: usize,
    /// Whether agents can be sent at once.
    pub launch_now: bool,
}

/// What a [`DispatchTarget`] stands for.
#[verifier::ext_equal]
pub struct TargetView {
    pub file: Seq<char>,
    pub active: i32,
    pub launchable: nat,
    pub now: bool,
}

impl View for DispatchTarget {
    type V = TargetView;

    open spec fn view(&self) -> TargetView {
        TargetView {
            file: self.file_path@,
            active: self.active_agents,
            launchable: self.launchable_agents as nat,
            now: self.launch_now,
        }
    }
}

/// A step to work on: the position of its file, and how many candidates it gets.
#[derive(Debug, Clone, Copy, PartialEq, Eq, Structural)]
pub struct BatchItem {
    pub state: usize,
    pub fanout: usize,
}

/// The first file with the given name at or after `i`.
pub open spec fn state_at(states: Seq<StateView>, file: Seq<char>, i: int) -> Option<int>
    decreases states.len() - i,
{
    if i < 0 || i >= states.len() {
        None
    } else if states[i].file == file {
        Some(i)
    } else {
        state_at(states, file, i + 1)
    }
}

/// How many candidates the next step of a file gets from a target.
pub open spec fn target_fanout(
    phase: ExecutionPhase,
    max_concurrency: int,
    wanted: i32,
    t: TargetView,
) -> int {
    let f = fanout(
        phase,
        max_concurrency,
        monitor::bounded_density(max_concurrency, wanted as int),
        t.active as int,
    );
    let room = if t.launchable < 1 {
        1
    } else {
        t.launchable as int
    };
    if f < room {
        f
    } else {
        room
    }
}

/// The steps that the first `n` targets bring.
pub open spec fn targeted(
    states: Seq<StateView>,
    wanted: Seq<i32>,
    targets: Seq<TargetView>,
    n: int,
    phase: ExecutionPhase,
    max_concurrency: int,
) -> Seq<(int, int)>
    decreases n,
{
    if n <= 0 {
        Seq::empty()
    } else {
        let front = targeted(states, wanted, targets, n - 1, phase, max_concurrency);
        let t = targets[n - 1];
        match state_at(states, t.file, 0) {
            Some(k) => {
                let f = target_fanout(phase, max_concurrency, wanted[k], t);
                if t.now && phase_of(states[k]) == Some(phase) && f > 0 {
                    front.push((k, f))
                } else {
                    front
                }
            },
            None => front,
        }
    }
}

/// Whether a file comes before another when no target brings a step: by falling priority,
/// then by name.
pub open spec fn comes_first(a: StateView, b: StateView) -> bool {
    let x = score::total_place(priority_of(a));
    let y = score::total_place(priority_of(b));
    x > y || (x == y && order::text_less(a.file, b.file))
}

/// The file of the given phase that comes first among the first `n`.
pub open spec fn first_state(states: Seq<StateView>, n: int, phase: ExecutionPhase) -> Option<int>
    decreases n,
{
    if n <= 0 {
        None
    } else {
        match first_state(states, n - 1, phase) {
            Some(k) => if phase_of(states[n - 1]) == Some(phase) && comes_first(
                states[n - 1],
                states[k],
            ) {
                Some(n - 1)
            } else {
                Some(k)
            },
            None => if phase_of(states[n - 1]) == Some(phase) {
                Some(n - 1)
            } else {
                None
            },
        }
    }
}

/// The steps to work on next: those that targets bring, or, if they bring none, one step of
/// the file that comes first.
pub open spec fn batch(
    states: Seq<StateView>,
    wanted: Seq<i32>,
    targets: Seq<TargetView>,
    phase: ExecutionPhase,
    max_concurrency: int,
) -> Seq<(int, int)> {
    let t = targeted(states, wanted, targets, targets.len() as int, phase, max_concurrency);
    if t.len() > 0 {
        t
    } else {
        match first_state(states, states.len() as int, phase) {
            Some(k) => {
                let f = fanout(
                    phase,
                    max_concurrency,
                    monitor::bounded_density(max_concurrency, wanted[k] as int),
                    0,
                );
                seq![
                    (
                        k,
                        if f < 1 {
                            1
                        } else {
                            f
                        },
                    ),
                ]
            },
            None => Seq::empty(),
        }
    }
}

/// What a list of items stands for.
pub open spec fn items_view(v: Seq<BatchItem>) -> Seq<(int, int)> {
    Seq::new(v.len(), |i: int| (v[i].state as int, v[i].fanout as int))
}

fn find_state(states: &[FileExecutionState], file: &str) -> (r: Option<usize>)
    ensures
        match r {
            Some(k) => state_at(sorting::views(states@), file@, 0) == Some(k as int) && k
                < states@.len(),
            None => state_at(sorting::views(states@), file@, 0) is None,
        },
{
    let ghost all = sorting::views(states@);
    let mut i: usize = 0;
    while i < states.len()
        invariant
            all == sorting::views(states@),
            i <= states@.len(),
            state_at(all, file@, 0) == state_at(all, file@, i as int),
        decreases states@.len() - i,
    {
        proof {
            assert(all[i as int] == states@[i as int]@);
        }
        if same(states[i].file_key.as_str(), file) {
            return Some(i);
        }
        i = i + 1;
    }
    None
}

fn leads(a: &FileExecutionState, b: &FileExecutionState) -> (r: bool)
    ensures
        r == comes_first(a@, b@),
{
    let x = place_of(a.priority());
    let y = place_of(b.priority());
    if x != y {
        x > y
    } else {
        text_before(a.file_key.as_str(), b.file_key.as_str())
    }
}

/// The steps to work on next. `wanted` holds, for each file, the density that the priority
/// of its next step asks for.
pub fn build_dispatch_batch(
    states: &[FileExecutionState],
    wanted: &[i32],
    targets: &[DispatchTarget],
    phase: ExecutionPhase,
    max_concurrency: usize,
) -> (r: Vec<BatchItem>)
    requires
        wanted@.len() == states@.len(),
        max_concurrency <= i32::MAX,
        forall|i: int| 0 <= i < states@.len() ==> numbered((#[trigger] states@[i])@),
    ensures
        items_view(r@) == batch(
            sorting::views(states@),
            wanted@,
            sorting::views(targets@),
            phase,
            if max_concurrency < 1 {
                1
            } else {
                max_concurrency as int
            },
        ),
        forall|i: int| 0 <= i < r@.len() ==> (#[trigger] r@[i]).state < states@.len(),
{
    let ghost all = sorting::views(states@);
    let ghost ts = sorting::views(targets@);
    let slots: usize = if max_concurrency < 1 {
        1
    } else {
        max_concurrency
    };
    let controller = DensityController::new(slots as i32);
    let mut out: Vec<BatchItem> = Vec::new();
    let mut i: usize = 0;
    proof {
        assert(items_view(out@) =~= Seq::<(int, int)>::empty());
        assert(ts.len() == targets@.len());
    }
    while i < targets.len()
        invariant
            all == sorting::views(states@),
            ts == sorting::views(targets@),
            wanted@.len() == states@.len(),
            1 <= slots <= i32::MAX,
            controller.max_density == slots,
            forall|i: int| 0 <= i < states@.len() ==> numbered((#[trigger] states@[i])@),
            i <= targets@.len(),
            items_view(out@) == targeted(all, wanted@, ts, i as int, phase, slots as int),
            forall|i: int| 0 <= i < out@.len() ==> (#[trigger] out@[i]).state < states@.len(),
        decreases targets@.len() - i,
    {
        let t = &targets[i];
        proof {
            assert(ts[i as int] == t@);
        }
        match find_state(states, t.file_path.as_str()) {
            Some(k) => {
                proof {
                    assert(all[k as int] == states@[k as int]@);
                }
                let f = candidate_fanout(phase, slots, wanted[k], t.active_agents, &controller);
                let room: usize = if t.launchable_agents < 1 {
                    1
                } else {
                    t.launchable_agents
                };
                let take: usize = if f < room {
                    f
                } else {
                    room
                };
                if t.launch_now && states[k].next_phase() == Some(phase) && take > 0 {
                    let ghost before = out@;
                    out.push(BatchItem { state: k, fanout: take });
                    proof {
                        assert(items_view(out@) =~= items_view(before).push(
                            (k as int, take as int),
                        ));
                    }
                }
            },
            None => {},
        }
        i = i + 1;
    }
    proof {
        assert(items_view(out@).len() == out@.len());
    }
    if out.len() > 0 {
        return out;
    }
    let mut best: Option<usize> = None;
    let mut j: usize = 0;
    while j < states.len()
        invariant
            all == sorting::views(states@),
            forall|i: int| 0 <= i < states@.len() ==> numbered((#[trigger] states@[i])@),
            j <= states@.len(),
            match best {
                Some(k) => first_state(all, j as int, phase) == Some(k as int) && k < j,
                None => first_state(all, j as int, phase) is None,
            },
        decreases states@.len() - j,
    {
        proof {
            assert(all[j as int] == states@[j as int]@);
        }
        if states[j].next_phase() == Some(phase) {
            match best {
                Some(k) => {
                    proof {
                        assert(all[k as int] == states@[k as int]@);
                    }
                    if leads(&states[j], &states[k]) {
                        best = Some(j);
                    }
                },
                None => {
                    best = Some(j);
                },
            }
        }
        j = j + 1;
    }
    match best {
        Some(k) => {
            let f = candidate_fanout(phase, slots, wanted[k], 0, &controller);
            let take: usize = if f < 1 {
                1
            } else {
                f
            };
            out.push(BatchItem { state: k, fanout: take });
            proof {
                assert(items_view(out@) =~= seq![(k as int, take as int)]);
            }
        },
        None => {},
    }
    out
}

/// Every step that is worked on gets at least one candidate and no more than there are
/// slots.
pub proof fn law_fanout_fits(
    phase: ExecutionPhase,
    max_concurrency: int,
    density: int,
    current_density: int,
)
    ensures
        0 <= fanout(phase, max_concurrency, density, current_density),
        max_concurrency >= 1 ==> fanout(phase, max_concurrency, density, current_density)
            <= max_concurrency,
        current_density >= 0 && fanout(phase, max_concurrency, density, current_density) > 0
            ==> current_density + fanout(phase, max_concurrency, density, current_density) <= (
        if density < 1 {
            1
        } else {
            density
        }),
{
}

proof fn lemma_first_state(states: Seq<StateView>, n: int, phase: ExecutionPhase, k: int)
    requires
        0 <= k < n <= states.len(),
        phase_of(states[k]) == Some(phase),
    ensures
        first_state(states, n, phase) is Some,
    decreases n,
{
    if k < n - 1 {
        lemma_first_state(states, n - 1, phase, k);
    }
}

proof fn lemma_first_state_holds(states: Seq<StateView>, n: int, phase: ExecutionPhase)
    requires
        0 <= n <= states.len(),
    ensures
        match first_state(states, n, phase) {
            Some(k) => 0 <= k < n && phase_of(states[k]) == Some(phase),
            None => true,
        },
    decreases n,
{
    if n > 0 {
        lemma_first_state_holds(states, n - 1, phase);
    }
}

/// As long as a file has a step of the phase, there is something to work on.
pub proof fn law_batches_make_progress(
    states: Seq<StateView>,
    wanted: Seq<i32>,
    targets: Seq<TargetView>,
    phase: ExecutionPhase,
    max_concurrency: int,
    k: int,
)
    requires
        0 <= k < states.len(),
        phase_of(states[k]) == Some(phase),
    ensures
        batch(states, wanted, targets, phase, max_concurrency).len() > 0,
{
    lemma_first_state(states, states.len() as int, phase, k);
}

proof fn lemma_targeted(
    states: Seq<StateView>,
    wanted: Seq<i32>,
    targets: Seq<TargetView>,
    n: int,
    phase: ExecutionPhase,
    max_concurrency: int,
    i: int,
)
    requires
        0 <= n <= targets.len(),
        0 <= i < targeted(states, wanted, targets, n, phase, max_concurrency).len(),
    ensures
        ({
            let x = targeted(states, wanted, targets, n, phase, max_concurrency)[i];
            0 <= x.0 < states.len() && phase_of(states[x.0]) == Some(phase) && x.1 > 0
        }),
    decreases n,
{
    let front = targeted(states, wanted, targets, n - 1, phase, max_concurrency);
    lemma_state_at(states, targets[n - 1].file, 0);
    if i < front.len() {
        lemma_targeted(states, wanted, targets, n - 1, phase, max_concurrency, i);
    }
}

proof fn lemma_state_at(states: Seq<StateView>, file: Seq<char>, i: int)
    requires
        0 <= i,
    ensures
        match state_at(states, file, i) {
            Some(k) => i <= k < states.len() && states[k].file == file,
            None => true,
        },
    decreases states.len() - i,
{
    if i < states.len() && states[i].file != file {
        lemma_state_at(states, file, i + 1);
    }
}

/// Only files whose next step belongs to the phase are worked on, and each of their steps
/// gets a candidate.
pub proof fn law_batches_keep_to_phase(
    states: Seq<StateView>,
    wanted: Seq<i32>,
    targets: Seq<TargetView>,
    phase: ExecutionPhase,
    max_concurrency: int,
    i: int,
)
    requires
        0 <= i < batch(states, wanted, targets, phase, max_concurrency).len(),
    ensures
        ({
            let x = batch(states, wanted, targets, phase, max_concurrency)[i];
            0 <= x.0 < states.len() && phase_of(states[x.0]) == Some(phase) && x.1 > 0
        }),
{
    let t = targeted(states, wanted, targets, targets.len() as int, phase, max_concurrency);
    if t.len() > 0 {
        lemma_targeted(
            states,
            wanted,
            targets,
            targets.len() as int,
            phase,
            max_concurrency,
            i,
        );
    } else {
        lemma_first_state_holds(states, states.len() as int, phase);
    }
}

} // verus!
