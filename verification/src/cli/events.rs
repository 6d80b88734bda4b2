//! Events of the live status.
use crate::cli::figure;
use crate::cli::figure::{number, number_or_null, own_figure, own_figure_opt};
use crate::cli::progress;
use crate::cli::progress::{
    candidate_decision, candidate_explanation, candidate_verification_result, own_state,
    same_state, CandidateLiveState, StateView,
};
use crate::cli::snapshot;
use crate::cli::snapshot::{
    find_state, same_overview, LiveStatusSnapshot, OverviewView, PhaseCount, PhaseView,
    RuntimeOverview, SnapshotView,
};
use crate::json;
use crate::json::{
    count, field, integer, natural_or_null, object, text, text_or_null, whole_or_null, Json,
    JsonView,
};
use crate::sorting;
use crate::swarm::track;
use crate::text::chars::{own, own_opt, same};
use vstd::prelude::*;

verus! {

/// How many runs are shown when watching begins.
pub const LIVE_EVENT_BACKLOG_LIMIT: usize = 8;

/// How many lines of events are kept.
pub const LIVE_EVENT_BUFFER_LIMIT: usize = 14;

/// Where the live status goes.
#[derive(Debug, Clone, Copy, PartialEq, Eq, Structural)]
pub enum LiveRenderMode {
    /// To a terminal.
    Terminal,
    /// To a stream, one JSON object per line.
    JsonStream,
}

/// The name of a mode.
pub open spec fn mode_name(m: LiveRenderMode) -> Seq<char> {
    match m {
        LiveRenderMode::Terminal => "tty"@,
        LiveRenderMode::JsonStream => "jsonl"@,
    }
}

impl LiveRenderMode {
    /// The name of the mode.
    pub fn as_str(self) -> (r: &'static str)
        ensures
            r@ == mode_name(self),
    {
        match self {
            LiveRenderMode::Terminal => "tty",
            LiveRenderMode::JsonStream => "jsonl",
        }
    }
}

/// What happened to a run.
#[derive(Debug, Clone, Copy, PartialEq, Eq, Structural)]
pub enum Transition {
    Observed,
    Launched,
    StatusChanged,
    MetadataUpdated,
}

/// The name of a transition.
pub open spec fn transition_name(t: Transition) -> Seq<char> {
    match t {
        Transition::Observed => "observed"@,
        Transition::Launched => "launched"@,
        Transition::StatusChanged => "status_changed"@,
        Transition::MetadataUpdated => "metadata_updated"@,
    }
}

impl Transition {
    /// The name of the transition.
    pub fn as_str(self) -> (r: &'static str)
        ensures
            r@ == transition_name(self),
    {
        match self {
            Transition::Observed => "observed",
            Transition::Launched => "launched",
            Transition::StatusChanged => "status_changed",
            Transition::MetadataUpdated => "metadata_updated",
        }
    }
}

/// Something that a watcher is told.
#[derive(Debug, Clone)]
pub enum LiveStatusEvent {
    Attached { mode: LiveRenderMode, interval_ms: u64 },
    PhaseStarted { phase: PhaseCount, backlog: bool },
    Candidate { transition: Transition, backlog: bool, state: CandidateLiveState },
    Runtime { runtime: RuntimeOverview, backlog: bool },
    Stopped { mode: LiveRenderMode, interval_ms: u64 },
}

/// What a [`LiveStatusEvent`] stands for.
#[verifier::ext_equal]
pub enum EventView {
    Attached(LiveRenderMode, u64),
    PhaseStarted(PhaseView, bool),
    Candidate(Transition, bool, StateView),
    Runtime(OverviewView, bool),
    Stopped(LiveRenderMode, u64),
}

impl View for LiveStatusEvent {
    type V = EventView;

    open spec fn view(&self) -> EventView {
        match *self {
            LiveStatusEvent::Attached { mode, interval_ms } => EventView::Attached(
                mode,
                interval_ms,
            ),
            LiveStatusEvent::PhaseStarted { phase, backlog } => EventView::PhaseStarted(
                phase@,
                backlog,
            ),
            LiveStatusEvent::Candidate { transition, backlog, state } => EventView::Candidate(
                transition,
                backlog,
                state@,
            ),
            LiveStatusEvent::Runtime { runtime, backlog } => EventView::Runtime(runtime@, backlog),
            LiveStatusEvent::Stopped { mode, interval_ms } => EventView::Stopped(mode, interval_ms),
        }
    }
}

/// The name of an event.
pub open spec fn event_name(e: EventView) -> Seq<char> {
    match e {
        EventView::Attached(_, _) => "live_attached"@,
        EventView::PhaseStarted(_, _) => "phase_started"@,
        EventView::Candidate(_, _, _) => "candidate_event"@,
        EventView::Runtime(_, _) => "runtime_state"@,
        EventView::Stopped(_, _) => "live_stopped"@,
    }
}

/// What is told of a run.
pub open spec fn candidate_details(s: StateView, t: Transition, backlog: bool) -> JsonView {
    JsonView::Object(
        seq![
            ("transition"@, JsonView::Text(transition_name(t))),
            ("backlog"@, JsonView::Bool(backlog)),
            ("log_id"@, json::whole(s.id as int)),
            ("agent_id"@, JsonView::Text(s.agent)),
            ("file_path"@, JsonView::Text(s.file)),
            ("status"@, JsonView::Text(s.status)),
            ("phase"@, json::opt_text(s.meta.phase)),
            ("source_lineage"@, json::opt_text(s.meta.source)),
            ("retry_count"@, json::opt_natural(s.meta.retries)),
            ("outcome"@, json::opt_text(s.meta.outcome)),
            ("decision"@, JsonView::Text(progress::decision(s))),
            ("explanation"@, json::opt_text(progress::explanation(s))),
            ("verification_result"@, JsonView::Text(progress::verification_result(s))),
            ("reason"@, json::opt_text(s.meta.reason)),
            ("failure_stage"@, json::opt_text(s.meta.stage)),
            ("sandbox_root"@, json::opt_text(s.meta.sandbox)),
            ("fanout"@, json::opt_natural(s.meta.fanout)),
            ("temperature"@, figure::figure_json(s.meta.temperature)),
            ("touched_lines"@, json::opt_natural(s.meta.touched)),
            ("byte_delta"@, json::opt_whole(s.meta.delta)),
            ("tokens_used"@, json::whole(s.tokens as int)),
            ("cost_usd"@, JsonView::Number(s.cost.json)),
            ("started_at"@, JsonView::Text(s.started)),
            ("completed_at"@, json::opt_text(s.completed)),
        ],
    )
}

/// What is told of a phase.
pub open spec fn phase_details(p: PhaseView, backlog: bool) -> JsonView {
    JsonView::Object(
        seq![
            ("phase"@, JsonView::Text(p.phase)),
            ("observed_candidates"@, json::natural(p.observed)),
            ("active_candidates"@, json::natural(p.active)),
            ("backlog"@, JsonView::Bool(backlog)),
        ],
    )
}

/// What is told of the swarm.
pub open spec fn runtime_details(o: OverviewView, backlog: bool) -> JsonView {
    JsonView::Object(
        seq![
            ("active_agents"@, json::whole(o.active)),
            ("total_agents_spawned"@, json::whole(o.spawned)),
            ("total_tokens_used"@, json::whole(o.tokens)),
            ("total_cost_usd"@, JsonView::Number(o.cost.json)),
            ("global_temperature"@, JsonView::Number(o.temperature.json)),
            ("iteration_count"@, json::whole(o.iterations)),
            ("hottest_file"@, json::opt_text(o.hottest_file)),
            ("hottest_score"@, figure::figure_json(o.hottest_score)),
            ("max_agent_density"@, json::whole(o.density)),
            ("locked_files"@, json::natural(o.locked)),
            ("backlog"@, JsonView::Bool(backlog)),
        ],
    )
}

/// What is told of an event.
pub open spec fn event_details(e: EventView) -> JsonView {
    match e {
        EventView::Attached(mode, ms) => JsonView::Object(
            seq![
                ("mode"@, JsonView::Text(mode_name(mode))),
                ("interval_ms"@, json::natural(ms as nat)),
            ],
        ),
        EventView::PhaseStarted(p, backlog) => phase_details(p, backlog),
        EventView::Candidate(t, backlog, s) => candidate_details(s, t, backlog),
        EventView::Runtime(o, backlog) => runtime_details(o, backlog),
        EventView::Stopped(mode, ms) => JsonView::Object(
            seq![
                ("mode"@, JsonView::Text(mode_name(mode))),
                ("reason"@, JsonView::Text("ctrl_c"@)),
                ("interval_ms"@, json::natural(ms as nat)),
            ],
        ),
    }
}

/// What is told of a run.
pub fn candidate_event_details(state: &CandidateLiveState, transition: Transition, backlog: bool) -> (r:
    Json)
    ensures
        r@ == candidate_details(state@, transition, backlog),
{
    let m = &state.metadata;
    let fields = vec![
        field("transition", text(transition.as_str())),
        field("backlog", Json::Bool(backlog)),
        field("log_id", integer(state.log_id)),
        field("agent_id", text(state.agent_id.as_str())),
        field("file_path", text(state.file_path.as_str())),
        field("status", text(state.status.as_str())),
        field("phase", text_or_null(&m.phase)),
        field("source_lineage", text_or_null(&m.source_lineage)),
        field("retry_count", natural_or_null(m.retry_count)),
        field("outcome", text_or_null(&m.outcome)),
        field("decision", text(candidate_decision(state))),
        field("explanation", text_or_null(&candidate_explanation(state))),
        field("verification_result", text(candidate_verification_result(state))),
        field("reason", text_or_null(&m.reason)),
        field("failure_stage", text_or_null(&m.failure_stage)),
        field("sandbox_root", text_or_null(&m.sandbox_root)),
        field("fanout", natural_or_null(m.fanout)),
        field("temperature", number_or_null(&m.temperature)),
        field("touched_lines", natural_or_null(m.touched_lines)),
        field("byte_delta", whole_or_null(m.byte_delta)),
        field("tokens_used", integer(state.tokens_used)),
        field("cost_usd", number(&state.cost_usd)),
        field("started_at", text(state.started_at.as_str())),
        field("completed_at", text_or_null(&state.completed_at)),
    ];
    proof {
        assert(json::fields_view(fields@) =~= candidate_details(
            state@,
            transition,
            backlog,
        )->Object_0);
    }
    object(fields)
}

fn describe_phase(p: &PhaseCount, backlog: bool) -> (r: Json)
    ensures
        r@ == phase_details(p@, backlog),
{
    let fields = vec![
        field("phase", text(p.phase.as_str())),
        field("observed_candidates", count(p.observed)),
        field("active_candidates", count(p.active)),
        field("backlog", Json::Bool(backlog)),
    ];
    proof {
        assert(json::fields_view(fields@) =~= phase_details(p@, backlog)->Object_0);
    }
    object(fields)
}

fn describe_runtime(o: &RuntimeOverview, backlog: bool) -> (r: Json)
    ensures
        r@ == runtime_details(o@, backlog),
{
    let fields = vec![
        field("active_agents", integer(o.active_agents)),
        field("total_agents_spawned", integer(o.total_agents_spawned)),
        field("total_tokens_used", integer(o.total_tokens_used)),
        field("total_cost_usd", number(&o.total_cost_usd)),
        field("global_temperature", number(&o.global_temperature)),
        field("iteration_count", integer(o.iteration_count)),
        field("hottest_file", text_or_null(&o.hottest_file)),
        field("hottest_score", number_or_null(&o.hottest_score)),
        field("max_agent_density", integer(o.max_agent_density as i64)),
        field("locked_files", count(o.locked_files)),
        field("backlog", Json::Bool(backlog)),
    ];
    proof {
        assert(json::fields_view(fields@) =~= runtime_details(o@, backlog)->Object_0);
    }
    object(fields)
}

impl LiveStatusEvent {
    /// The name of the event.
    pub fn name(&self) -> (r: &'static str)
        ensures
            r@ == event_name(self@),
    {
        match self {
            LiveStatusEvent::Attached { .. } => "live_attached",
            LiveStatusEvent::PhaseStarted { .. } => "phase_started",
            LiveStatusEvent::Candidate { .. } => "candidate_event",
            LiveStatusEvent::Runtime { .. } => "runtime_state",
            LiveStatusEvent::Stopped { .. } => "live_stopped",
        }
    }

    /// What is told of the event.
    pub fn details(&self) -> (r: Json)
        ensures
            r@ == event_details(self@),
    {
        match self {
            LiveStatusEvent::Attached { mode, interval_ms } => {
                let fields = vec![
                    field("mode", text(mode.as_str())),
                    field("interval_ms", natural_or_null(Some(*interval_ms))),
                ];
                proof {
                    assert(json::fields_view(fields@) =~= event_details(self@)->Object_0);
                }
                object(fields)
            },
            LiveStatusEvent::PhaseStarted { phase, backlog } => describe_phase(phase, *backlog),
            LiveStatusEvent::Candidate { transition, backlog, state } => candidate_event_details(
                state,
                *transition,
                *backlog,
            ),
            LiveStatusEvent::Runtime { runtime, backlog } => describe_runtime(runtime, *backlog),
            LiveStatusEvent::Stopped { mode, interval_ms } => {
                let fields = vec![
                    field("mode", text(mode.as_str())),
                    field("reason", text("ctrl_c")),
                    field("interval_ms", natural_or_null(Some(*interval_ms))),
                ];
                proof {
                    assert(json::fields_view(fields@) =~= event_details(self@)->Object_0);
                }
                object(fields)
            },
        }
    }
}

/// The start of each phase.
pub open spec fn phase_events(phases: Seq<PhaseView>) -> Seq<EventView> {
    Seq::new(phases.len(), |i: int| EventView::PhaseStarted(phases[i], true))
}

/// The runs with the given numbers, as far as they are known.
pub open spec fn observed_events(states: Seq<StateView>, ids: Seq<i64>) -> Seq<EventView>
    decreases ids.len(),
{
    if ids.len() == 0 {
        Seq::empty()
    } else {
        let front = observed_events(states, ids.drop_last());
        match snapshot::state_with(states, ids.last()) {
            Some(s) => front.push(EventView::Candidate(Transition::Observed, true, s)),
            None => front,
        }
    }
}

/// What a watcher is told first: that it watches, the phases, the runs that started last, and
/// the state of the swarm.
pub open spec fn initial_events(s: SnapshotView, mode: LiveRenderMode, ms: u64) -> Seq<EventView> {
    seq![EventView::Attached(mode, ms)] + phase_events(s.phases) + observed_events(
        s.logs,
        track::latest(s.ids, LIVE_EVENT_BACKLOG_LIMIT as nat),
    ) + seq![EventView::Runtime(s.runtime, true)]
}

/// Whether a phase is among the given ones.
pub open spec fn has_phase(phases: Seq<PhaseView>, phase: Seq<char>) -> bool {
    exists|i: int| 0 <= i < phases.len() && (#[trigger] phases[i]).phase == phase
}

/// The start of each phase that was not there before.
pub open spec fn new_phase_events(before: Seq<PhaseView>, now: Seq<PhaseView>) -> Seq<EventView>
    decreases now.len(),
{
    if now.len() == 0 {
        Seq::empty()
    } else {
        let front = new_phase_events(before, now.drop_last());
        if has_phase(before, now.last().phase) {
            front
        } else {
            front.push(EventView::PhaseStarted(now.last(), false))
        }
    }
}

/// What happened to a run since it was last seen.
pub open spec fn change(before: Option<StateView>, now: StateView) -> Option<Transition> {
    match before {
        None => Some(Transition::Launched),
        Some(b) => if b.status != now.status {
            Some(Transition::StatusChanged)
        } else if !progress::equal_states(b, now) {
            Some(Transition::MetadataUpdated)
        } else {
            None
        },
    }
}

/// What happened to the runs with the given numbers.
pub open spec fn change_events(
    before: Seq<StateView>,
    now: Seq<StateView>,
    ids: Seq<i64>,
) -> Seq<EventView>
    decreases ids.len(),
{
    if ids.len() == 0 {
        Seq::empty()
    } else {
        let front = change_events(before, now, ids.drop_last());
        match snapshot::state_with(now, ids.last()) {
            None => front,
            Some(s) => match change(snapshot::state_with(before, ids.last()), s) {
                Some(t) => front.push(EventView::Candidate(t, false, s)),
                None => front,
            },
        }
    }
}

/// What a watcher is told of the difference between two times: the new phases, what happened to
/// the runs, and the state of the swarm if it changed.
pub open spec fn diff_events(before: SnapshotView, now: SnapshotView) -> Seq<EventView> {
    new_phase_events(before.phases, now.phases) + change_events(before.logs, now.logs, now.ids)
        + if snapshot::equal_overviews(before.runtime, now.runtime) {
        Seq::<EventView>::empty()
    } else {
        seq![EventView::Runtime(now.runtime, false)]
    }
}

fn own_phase(p: &PhaseCount) -> (r: PhaseCount)
    ensures
        r@ == p@,
{
    PhaseCount { phase: own(p.phase.as_str()), observed: p.observed, active: p.active }
}

fn own_overview(o: &RuntimeOverview) -> (r: RuntimeOverview)
    ensures
        r@ == o@,
{
    RuntimeOverview {
        active_agents: o.active_agents,
        total_agents_spawned: o.total_agents_spawned,
        total_tokens_used: o.total_tokens_used,
        total_cost_usd: own_figure(&o.total_cost_usd),
        global_temperature: own_figure(&o.global_temperature),
        iteration_count: o.iteration_count,
        hottest_file: own_opt(&o.hottest_file),
        hottest_score: own_figure_opt(&o.hottest_score),
        max_agent_density: o.max_agent_density,
        locked_files: o.locked_files,
    }
}

fn tell(events: &mut Vec<LiveStatusEvent>, e: LiveStatusEvent)
    ensures
        sorting::views(final(events)@) == sorting::views(old(events)@).push(e@),
{
    let ghost before = events@;
    events.push(e);
    proof {
        assert(sorting::views(events@) =~= sorting::views(before).push(e@));
    }
}

/// What a watcher is told first: that it watches, the phases, the runs that started last, and
/// the state of the swarm.
pub fn initial_live_status_events(
    snapshot: &LiveStatusSnapshot,
    render_mode: LiveRenderMode,
    interval_ms: u64,
) -> (r: Vec<LiveStatusEvent>)
    ensures
        sorting::views(r@) == initial_events(snapshot@, render_mode, interval_ms),
{
    let mut events: Vec<LiveStatusEvent> = Vec::new();
    proof {
        assert(sorting::views(events@) =~= Seq::<EventView>::empty());
    }
    tell(&mut events, LiveStatusEvent::Attached { mode: render_mode, interval_ms });
    let ghost first = seq![EventView::Attached(render_mode, interval_ms)];
    let ghost phases = snapshot@.phases;
    let mut i: usize = 0;
    proof {
        assert(sorting::views(events@) =~= first + phase_events(phases).take(0));
    }
    while i < snapshot.phases.len()
        invariant
            phases == snapshot@.phases,
            i <= phases.len(),
            sorting::views(events@) == first + phase_events(phases).take(i as int),
        decreases phases.len() - i,
    {
        tell(
            &mut events,
            LiveStatusEvent::PhaseStarted { phase: own_phase(&snapshot.phases[i]), backlog: true },
        );
        proof {
            assert(first + phase_events(phases).take(i + 1) =~= (first + phase_events(phases).take(
                i as int,
            )).push(EventView::PhaseStarted(snapshot.phases@[i as int]@, true)));
        }
        i = i + 1;
    }
    let ghost second = first + phase_events(phases);
    proof {
        assert(phase_events(phases).take(phases.len() as int) =~= phase_events(phases));
    }
    let n: usize = snapshot.ordered_log_ids.len();
    let start: usize = if n > LIVE_EVENT_BACKLOG_LIMIT {
        n - LIVE_EVENT_BACKLOG_LIMIT
    } else {
        0
    };
    let ghost ids = snapshot@.ids;
    let ghost logs = snapshot@.logs;
    let mut k: usize = start;
    proof {
        assert(ids.subrange(start as int, start as int) =~= Seq::<i64>::empty());
        assert(second + observed_events(logs, Seq::<i64>::empty()) =~= second);
    }
    while k < n
        invariant
            ids == snapshot@.ids,
            logs == snapshot@.logs,
            n == ids.len(),
            start <= k <= n,
            sorting::views(events@) == second + observed_events(
                logs,
                ids.subrange(start as int, k as int),
            ),
        decreases n - k,
    {
        let id: i64 = snapshot.ordered_log_ids[k];
        let ghost front = ids.subrange(start as int, k as int);
        proof {
            assert(ids.subrange(start as int, k + 1).drop_last() =~= front);
        }
        match find_state(snapshot.logs.as_slice(), id) {
            Some(at) => {
                tell(
                    &mut events,
                    LiveStatusEvent::Candidate {
                        transition: Transition::Observed,
                        backlog: true,
                        state: own_state(&snapshot.logs[at]),
                    },
                );
                proof {
                    let e = EventView::Candidate(
                        Transition::Observed,
                        true,
                        snapshot.logs@[at as int]@,
                    );
                    assert((second + observed_events(logs, front)).push(e) =~= second
                        + observed_events(logs, front).push(e));
                }
            },
            None => {},
        }
        k = k + 1;
    }
    proof {
        assert(ids.subrange(start as int, n as int) =~= track::latest(
            ids,
            LIVE_EVENT_BACKLOG_LIMIT as nat,
        ));
    }
    tell(
        &mut events,
        LiveStatusEvent::Runtime { runtime: own_overview(&snapshot.runtime), backlog: true },
    );
    proof {
        assert(sorting::views(events@) =~= initial_events(snapshot@, render_mode, interval_ms));
    }
    events
}

fn knows_phase(phases: &[PhaseCount], phase: &str) -> (r: bool)
    ensures
        r == has_phase(sorting::views(phases@), phase@),
{
    let ghost all = sorting::views(phases@);
    let mut i: usize = 0;
    while i < phases.len()
        invariant
            all == sorting::views(phases@),
            i <= phases@.len(),
            forall|j: int| 0 <= j < i ==> (#[trigger] all[j]).phase != phase@,
        decreases phases@.len() - i,
    {
        if same(phases[i].phase.as_str(), phase) {
            proof {
                assert(all[i as int].phase == phase@);
            }
            return true;
        }
        i = i + 1;
    }
    false
}

fn tell_new_phases(before: &[PhaseCount], now: &[PhaseCount]) -> (r: Vec<LiveStatusEvent>)
    ensures
        sorting::views(r@) == new_phase_events(sorting::views(before@), sorting::views(now@)),
{
    let ghost old_phases = sorting::views(before@);
    let ghost all = sorting::views(now@);
    let mut events: Vec<LiveStatusEvent> = Vec::new();
    let mut i: usize = 0;
    proof {
        assert(sorting::views(events@) =~= Seq::<EventView>::empty());
    }
    while i < now.len()
        invariant
            old_phases == sorting::views(before@),
            all == sorting::views(now@),
            i <= all.len(),
            sorting::views(events@) == new_phase_events(old_phases, all.take(i as int)),
        decreases all.len() - i,
    {
        proof {
            assert(all.take(i + 1).drop_last() =~= all.take(i as int));
            assert(all.take(i + 1).last() == now@[i as int]@);
        }
        if !knows_phase(before, now[i].phase.as_str()) {
            tell(
                &mut events,
                LiveStatusEvent::PhaseStarted { phase: own_phase(&now[i]), backlog: false },
            );
        }
        i = i + 1;
    }
    proof {
        assert(all.take(all.len() as int) =~= all);
    }
    events
}

/// What happened to a run since it was last seen.
pub fn transition_of(before: Option<&CandidateLiveState>, now: &CandidateLiveState) -> (r: Option<
    Transition,
>)
    ensures
        r == change(
            match before {
                Some(b) => Some(b@),
                None => None,
            },
            now@,
        ),
{
    match before {
        None => Some(Transition::Launched),
        Some(b) => {
            if !same(b.status.as_str(), now.status.as_str()) {
                Some(Transition::StatusChanged)
            } else if !same_state(b, now) {
                Some(Transition::MetadataUpdated)
            } else {
                None
            }
        },
    }
}

/// What a watcher is told of the difference between two times: the new phases, what happened to
/// the runs, and the state of the swarm if it changed.
pub fn diff_live_status_events(previous: &LiveStatusSnapshot, current: &LiveStatusSnapshot) -> (r:
    Vec<LiveStatusEvent>)
    ensures
        sorting::views(r@) == diff_events(previous@, current@),
{
    let mut events = tell_new_phases(previous.phases.as_slice(), current.phases.as_slice());
    let ghost first = new_phase_events(previous@.phases, current@.phases);
    let ghost before = previous@.logs;
    let ghost now = current@.logs;
    let ghost ids = current@.ids;
    let n: usize = current.ordered_log_ids.len();
    let mut k: usize = 0;
    proof {
        assert(ids.take(0) =~= Seq::<i64>::empty());
        assert(first + change_events(before, now, ids.take(0)) =~= first);
    }
    while k < n
        invariant
            before == previous@.logs,
            now == current@.logs,
            ids == current@.ids,
            n == ids.len(),
            k <= n,
            sorting::views(events@) == first + change_events(before, now, ids.take(k as int)),
        decreases n - k,
    {
        let id: i64 = current.ordered_log_ids[k];
        let ghost front = ids.take(k as int);
        proof {
            assert(ids.take(k + 1).drop_last() =~= front);
        }
        match find_state(current.logs.as_slice(), id) {
            Some(at) => {
                let state = &current.logs[at];
                let step = match find_state(previous.logs.as_slice(), id) {
                    Some(b) => transition_of(Some(&previous.logs[b]), state),
                    None => transition_of(None, state),
                };
                match step {
                    Some(transition) => {
                        tell(
                            &mut events,
                            LiveStatusEvent::Candidate {
                                transition,
                                backlog: false,
                                state: own_state(state),
                            },
                        );
                        proof {
                            let e = EventView::Candidate(transition, false, state@);
                            assert((first + change_events(before, now, front)).push(e) =~= first
                                + change_events(before, now, front).push(e));
                        }
                    },
                    None => {},
                }
            },
            None => {},
        }
        k = k + 1;
    }
    proof {
        assert(ids.take(n as int) =~= ids);
    }
    if !same_overview(&previous.runtime, &current.runtime) {
        tell(
            &mut events,
            LiveStatusEvent::Runtime { runtime: own_overview(&current.runtime), backlog: false },
        );
    }
    proof {
        assert(sorting::views(events@) =~= diff_events(previous@, current@));
    }
    events
}

/// Whether the figures of a run are numbers.
pub open spec fn run_has_numbers(s: StateView) -> bool {
    figure::is_number_if(Some(s.cost)) && figure::is_number_if(s.meta.temperature)
}

/// Whether all figures are numbers.
pub open spec fn has_numbers(s: SnapshotView) -> bool {
    &&& forall|i: int| 0 <= i < s.logs.len() ==> run_has_numbers(#[trigger] s.logs[i])
    &&& figure::is_number_if(Some(s.runtime.cost))
    &&& figure::is_number_if(Some(s.runtime.temperature))
    &&& figure::is_number_if(s.runtime.hottest_score)
}

proof fn lemma_found_has_numbers(states: Seq<StateView>, id: i64)
    requires
        forall|i: int| 0 <= i < states.len() ==> run_has_numbers(#[trigger] states[i]),
    ensures
        snapshot::state_with(states, id) matches Some(s) ==> run_has_numbers(s),
    decreases states.len(),
{
    if states.len() > 0 {
        assert(run_has_numbers(states[states.len() - 1]));
        let front = states.drop_last();
        assert forall|i: int| 0 <= i < front.len() implies run_has_numbers(#[trigger] front[i]) by {
            assert(front[i] == states[i]);
        }
        lemma_found_has_numbers(front, id);
    }
}

proof fn lemma_no_changes(s: SnapshotView, ids: Seq<i64>)
    requires
        has_numbers(s),
    ensures
        change_events(s.logs, s.logs, ids).len() == 0,
    decreases ids.len(),
{
    if ids.len() > 0 {
        lemma_no_changes(s, ids.drop_last());
        lemma_found_has_numbers(s.logs, ids.last());
    }
}

proof fn lemma_no_new_phases(before: Seq<PhaseView>, now: Seq<PhaseView>)
    requires
        forall|i: int| 0 <= i < now.len() ==> has_phase(before, (#[trigger] now[i]).phase),
    ensures
        new_phase_events(before, now).len() == 0,
    decreases now.len(),
{
    if now.len() > 0 {
        assert(has_phase(before, now[now.len() - 1].phase));
        assert forall|i: int| 0 <= i < now.drop_last().len() implies has_phase(
            before,
            (#[trigger] now.drop_last()[i]).phase,
        ) by {
            assert(now.drop_last()[i] == now[i]);
        }
        lemma_no_new_phases(before, now.drop_last());
    }
}

/// While nothing changes, nothing is told, where all figures are numbers.
pub proof fn law_no_change_is_silent(s: SnapshotView)
    requires
        has_numbers(s),
    ensures
        diff_events(s, s).len() == 0,
{
    lemma_no_changes(s, s.ids);
    assert forall|i: int| 0 <= i < s.phases.len() implies has_phase(
        s.phases,
        (#[trigger] s.phases[i]).phase,
    ) by {}
    lemma_no_new_phases(s.phases, s.phases);
}

/// A run whose status changed is told of.
pub proof fn law_status_changes_are_told(
    before: SnapshotView,
    now: SnapshotView,
    k: int,
)
    requires
        0 <= k < now.ids.len(),
        snapshot::state_with(now.logs, now.ids[k]) is Some,
        snapshot::state_with(before.logs, now.ids[k]) is Some,
        snapshot::state_with(before.logs, now.ids[k]).unwrap().status != snapshot::state_with(
            now.logs,
            now.ids[k],
        ).unwrap().status,
    ensures
        diff_events(before, now).contains(
            EventView::Candidate(
                Transition::StatusChanged,
                false,
                snapshot::state_with(now.logs, now.ids[k]).unwrap(),
            ),
        ),
{
    let e = EventView::Candidate(
        Transition::StatusChanged,
        false,
        snapshot::state_with(now.logs, now.ids[k]).unwrap(),
    );
    lemma_change_is_listed(before.logs, now.logs, now.ids, k, e);
    let changes = change_events(before.logs, now.logs, now.ids);
    let j = choose|j: int| 0 <= j < changes.len() && changes[j] == e;
    let first = new_phase_events(before.phases, now.phases);
    assert(diff_events(before, now)[first.len() + j] == e);
}

proof fn lemma_change_is_listed(
    before: Seq<StateView>,
    now: Seq<StateView>,
    ids: Seq<i64>,
    k: int,
    e: EventView,
)
    requires
        0 <= k < ids.len(),
        snapshot::state_with(now, ids[k]) is Some,
        change(
            snapshot::state_with(before, ids[k]),
            snapshot::state_with(now, ids[k]).unwrap(),
        ) is Some,
        e == EventView::Candidate(
            change(
                snapshot::state_with(before, ids[k]),
                snapshot::state_with(now, ids[k]).unwrap(),
            ).unwrap(),
            false,
            snapshot::state_with(now, ids[k]).unwrap(),
        ),
    ensures
        change_events(before, now, ids).contains(e),
    decreases ids.len(),
{
    let all = change_events(before, now, ids);
    if k < ids.len() - 1 {
        let front = change_events(before, now, ids.drop_last());
        assert(ids.drop_last()[k] == ids[k]);
        lemma_change_is_listed(before, now, ids.drop_last(), k, e);
        let j = choose|j: int| 0 <= j < front.len() && front[j] == e;
        assert(all[j] == e);
    } else {
        assert(all[all.len() - 1] == e);
    }
}

} // verus!
