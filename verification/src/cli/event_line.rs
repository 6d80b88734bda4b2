//! The live status as lines of text.
use crate::cli::events;
use crate::cli::events::{EventView, LiveRenderMode, LiveStatusEvent, LIVE_EVENT_BUFFER_LIMIT};
use crate::cli::figure::{Figure, FigureView};
use crate::cli::progress;
use crate::cli::progress::{
    candidate_decision, candidate_explanation, candidate_verification_result, CandidateLiveState,
    StateView,
};
use crate::cli::snapshot::{OverviewView, RuntimeOverview};
use crate::db::{AgentLogEntry, SwarmState};
use crate::sorting;
use crate::swarm::track;
use crate::swarm::track::keep_latest;
use crate::text::chars;
use crate::text::chars::{concat2, concat3, own};
use crate::text::number;
use crate::text::number::{format_i64, format_u64, format_usize};
use crate::text::split;
use crate::text::split::join;
use vstd::prelude::*;
use vstd::string::*;

verus! {

broadcast use chars::lemma_texts_push, chars::lemma_texts_empty;

/// How many agents the live status lists.
pub const LIVE_AGENT_LIMIT: usize = 12;

/// The shortest time between two looks, in milliseconds.
pub const MIN_LIVE_INTERVAL_MS: u64 = 250;

/// A text, or another one if it is missing.
pub open spec fn text_or(t: Option<Seq<char>>, other: Seq<char>) -> Seq<char> {
    match t {
        Some(x) => x,
        None => other,
    }
}

/// A labelled text, if there is one.
pub open spec fn part(label: Seq<char>, t: Option<Seq<char>>) -> Seq<Seq<char>> {
    match t {
        Some(x) => seq![label + x],
        None => Seq::empty(),
    }
}

/// A number with its sign.
pub open spec fn signed(n: int) -> Seq<char> {
    if n >= 0 {
        "+"@ + number::decimal_int(n)
    } else {
        number::decimal_int(n)
    }
}

/// How often a candidate was retried, if it was.
pub open spec fn retried(n: Option<u64>) -> Option<Seq<char>> {
    match n {
        Some(x) => if x > 0 {
            Some(number::decimal(x as nat))
        } else {
            None
        },
        None => None,
    }
}

/// A number as a text.
pub open spec fn counted(n: Option<u64>) -> Option<Seq<char>> {
    match n {
        Some(x) => Some(number::decimal(x as nat)),
        None => None,
    }
}

/// A difference as a text.
pub open spec fn delta(n: Option<i64>) -> Option<Seq<char>> {
    match n {
        Some(x) => Some(signed(x as int)),
        None => None,
    }
}

/// What is shown of a run.
pub open spec fn candidate_parts(
    now: Seq<char>,
    transition: Seq<char>,
    s: StateView,
) -> Seq<Seq<char>> {
    seq![
        "["@ + now + "] "@ + transition + " | "@ + text_or(s.meta.phase, "unknown"@) + " | "@
            + s.agent,
        s.status + " | "@ + s.file,
    ] + part("source="@, s.meta.source) + part("retry="@, retried(s.meta.retries)) + part(
        "outcome="@,
        s.meta.outcome,
    ) + part("decision="@, Some(progress::decision(s))) + part(
        "verify="@,
        Some(progress::verification_result(s)),
    ) + part("why="@, progress::explanation(s)) + part("lines="@, counted(s.meta.touched)) + part(
        "bytes="@,
        delta(s.meta.delta),
    ) + part("tokens="@, Some(number::decimal_int(s.tokens as int))) + part(
        "cost=$"@,
        Some(s.cost.shown),
    )
}

/// The hottest file, if there is one.
pub open spec fn hottest_part(o: OverviewView) -> Seq<char> {
    match (o.hottest_file, o.hottest_score) {
        (Some(file), Some(score)) => " | hottest="@ + file + "@"@ + score.shown,
        (Some(file), None) => " | hottest="@ + file,
        (None, _) => Seq::empty(),
    }
}

/// What is shown of the swarm.
pub open spec fn runtime_line(now: Seq<char>, o: OverviewView) -> Seq<char> {
    "["@ + now + "] runtime | active="@ + number::decimal_int(o.active) + " | total="@
        + number::decimal_int(o.spawned) + " | tokens="@ + number::decimal_int(o.tokens)
        + " | cost=$"@ + o.cost.shown + " | temp="@ + o.temperature.shown + " | iter="@
        + number::decimal_int(o.iterations) + " | density="@ + number::decimal_int(o.density)
        + " | locks="@ + number::decimal(o.locked) + hottest_part(o)
}

/// The line of an event.
pub open spec fn event_line(e: EventView, now: Seq<char>) -> Seq<char> {
    match e {
        EventView::Attached(mode, ms) => "["@ + now + "] live attached | mode="@
            + events::mode_name(mode) + " | refresh="@ + number::decimal(ms as nat) + "ms"@,
        EventView::PhaseStarted(p, _) => "["@ + now + "] phase "@ + p.phase + " | observed="@
            + number::decimal(p.observed) + " | active="@ + number::decimal(p.active),
        EventView::Candidate(t, _, s) => split::joined(
            candidate_parts(now, events::transition_name(t), s),
            " | "@,
        ),
        EventView::Runtime(o, _) => runtime_line(now, o),
        EventView::Stopped(_, _) => "["@ + now + "] live_stopped"@,
    }
}

fn push_part(parts: &mut Vec<String>, label: &str, t: Option<String>)
    ensures
        chars::texts(final(parts)@) == chars::texts(old(parts)@) + part(label@, chars::opt_text(t)),
{
    let ghost before = chars::texts(parts@);
    match t {
        Some(x) => {
            parts.push(concat2(label, x.as_str()));
        },
        None => {},
    }
    proof {
        assert(chars::texts(parts@) =~= before + part(label@, chars::opt_text(t)));
    }
}

fn count_text(n: Option<u64>) -> (r: Option<String>)
    ensures
        chars::opt_text(r) == counted(n),
{
    match n {
        Some(x) => Some(format_u64(x)),
        None => None,
    }
}

fn delta_text(n: Option<i64>) -> (r: Option<String>)
    ensures
        chars::opt_text(r) == delta(n),
{
    match n {
        Some(x) => {
            if x >= 0 {
                Some(concat2("+", format_i64(x).as_str()))
            } else {
                Some(format_i64(x))
            }
        },
        None => None,
    }
}

fn candidate_line(state: &CandidateLiveState, transition: &str, now: &str) -> (r: String)
    ensures
        r@ == split::joined(candidate_parts(now@, transition@, state@), " | "@),
{
    let m = &state.metadata;
    let mut head = concat3("[", now, "] ");
    head.append(transition);
    head.append(" | ");
    match &m.phase {
        Some(p) => {
            head.append(p.as_str());
        },
        None => {
            head.append("unknown");
        },
    }
    head.append(" | ");
    head.append(state.agent_id.as_str());
    let mut parts: Vec<String> = Vec::new();
    parts.push(head);
    parts.push(concat3(state.status.as_str(), " | ", state.file_path.as_str()));
    proof {
        assert(chars::texts(parts@) =~= seq![
            "["@ + now@ + "] "@ + transition@ + " | "@ + text_or(state@.meta.phase, "unknown"@)
                + " | "@ + state@.agent,
            state@.status + " | "@ + state@.file,
        ]);
    }
    push_part(&mut parts, "source=", chars::own_opt(&m.source_lineage));
    let retry_count = match m.retry_count {
        Some(x) => {
            if x > 0 {
                Some(x)
            } else {
                None
            }
        },
        None => None,
    };
    push_part(&mut parts, "retry=", count_text(retry_count));
    push_part(&mut parts, "outcome=", chars::own_opt(&m.outcome));
    push_part(&mut parts, "decision=", Some(own(candidate_decision(state))));
    push_part(&mut parts, "verify=", Some(own(candidate_verification_result(state))));
    push_part(&mut parts, "why=", candidate_explanation(state));
    push_part(&mut parts, "lines=", count_text(m.touched_lines));
    push_part(&mut parts, "bytes=", delta_text(m.byte_delta));
    push_part(&mut parts, "tokens=", Some(format_i64(state.tokens_used)));
    push_part(&mut parts, "cost=$", Some(own(state.cost_usd.shown.as_str())));
    join(parts.as_slice(), " | ")
}

fn overview_line(o: &RuntimeOverview, now: &str) -> (r: String)
    ensures
        r@ == runtime_line(now@, o@),
{
    let mut s = concat3("[", now, "] runtime | active=");
    s.append(format_i64(o.active_agents).as_str());
    s.append(" | total=");
    s.append(format_i64(o.total_agents_spawned).as_str());
    s.append(" | tokens=");
    s.append(format_i64(o.total_tokens_used).as_str());
    s.append(" | cost=$");
    s.append(o.total_cost_usd.shown.as_str());
    s.append(" | temp=");
    s.append(o.global_temperature.shown.as_str());
    s.append(" | iter=");
    s.append(format_i64(o.iteration_count).as_str());
    s.append(" | density=");
    s.append(format_i64(o.max_agent_density as i64).as_str());
    s.append(" | locks=");
    s.append(format_usize(o.locked_files).as_str());
    let ghost before = s@;
    match &o.hottest_file {
        Some(file) => {
            let mut hot = concat2(" | hottest=", file.as_str());
            match &o.hottest_score {
                Some(score) => {
                    hot.append("@");
                    hot.append(score.shown.as_str());
                },
                None => {},
            }
            s.append(hot.as_str());
        },
        None => {},
    }
    proof {
        assert(s@ =~= before + hottest_part(o@));
    }
    s
}

/// The line of an event, given the time of day.
pub fn format_live_event_line(event: &LiveStatusEvent, now: &str) -> (r: String)
    ensures
        r@ == event_line(event@, now@),
{
    match event {
        LiveStatusEvent::Attached { mode, interval_ms } => {
            let mut s = concat3("[", now, "] live attached | mode=");
            s.append(mode.as_str());
            s.append(" | refresh=");
            s.append(format_u64(*interval_ms).as_str());
            s.append("ms");
            s
        },
        LiveStatusEvent::PhaseStarted { phase, .. } => {
            let mut s = concat3("[", now, "] phase ");
            s.append(phase.phase.as_str());
            s.append(" | observed=");
            s.append(format_usize(phase.observed).as_str());
            s.append(" | active=");
            s.append(format_usize(phase.active).as_str());
            s
        },
        LiveStatusEvent::Candidate { transition, state, .. } => candidate_line(
            state,
            transition.as_str(),
            now,
        ),
        LiveStatusEvent::Runtime { runtime, .. } => overview_line(runtime, now),
        LiveStatusEvent::Stopped { .. } => concat3("[", now, "] live_stopped"),
    }
}

/// Adds a line to those that are kept; the oldest make room for it.
pub fn push_live_event_line(buffer: &mut Vec<String>, line: String)
    ensures
        sorting::views(final(buffer)@) == track::latest(
            sorting::views(old(buffer)@).push(line@),
            LIVE_EVENT_BUFFER_LIMIT as nat,
        ),
{
    let ghost before = buffer@;
    buffer.push(line);
    proof {
        assert(sorting::views(buffer@) =~= sorting::views(before).push(line@));
    }
    keep_latest(buffer, LIVE_EVENT_BUFFER_LIMIT);
}

/// The time between two looks: the wanted one, but not too short.
pub fn live_interval(interval_ms: u64) -> (r: u64)
    ensures
        r == if interval_ms < MIN_LIVE_INTERVAL_MS {
            MIN_LIVE_INTERVAL_MS
        } else {
            interval_ms
        },
{
    if interval_ms < MIN_LIVE_INTERVAL_MS {
        MIN_LIVE_INTERVAL_MS
    } else {
        interval_ms
    }
}

/// Whether the heat map is shown: if it is asked for, or nothing else is.
pub fn shows_heatmap(heatmap: bool, agents: bool, budget: bool) -> (r: bool)
    ensures
        r == (heatmap || (!agents && !budget)),
{
    heatmap || (!agents && !budget)
}

/// The first line of the live status.
pub open spec fn header(time: Seq<char>, ms: u64, mode: LiveRenderMode) -> Seq<char> {
    "Mercury live status  |  "@ + time + "  |  refresh="@ + number::decimal(ms as nat)
        + "ms  |  mode="@ + events::mode_name(mode) + "  |  ctrl-c to stop\n"@
}

/// The first line of the live status, given the time.
pub fn live_header(time: &str, interval_ms: u64, mode: LiveRenderMode) -> (r: String)
    ensures
        r@ == header(time@, interval_ms, mode),
{
    let mut s = concat3("Mercury live status  |  ", time, "  |  refresh=");
    s.append(format_u64(interval_ms).as_str());
    s.append("ms  |  mode=");
    s.append(mode.as_str());
    s.append("  |  ctrl-c to stop\n");
    s
}

/// What is shown of an agent.
pub open spec fn agent_line(a: AgentLogEntry) -> Seq<char> {
    "  "@ + a.agent_id@ + " | "@ + a.file_path@ + " | "@ + a.status@ + " | "@ + a.started_at@
}

/// The lines of agents.
pub open spec fn agent_list(s: Seq<AgentLogEntry>) -> Seq<Seq<char>> {
    Seq::new(s.len(), |i: int| agent_line(s[i]))
}

/// The head of a list of agents.
pub open spec fn agents_head(n: nat) -> Seq<char> {
    "\nActive Agents ("@ + number::decimal(n) + "):"@
}

/// The lines of the active agents.
pub open spec fn agents_shown(s: Seq<AgentLogEntry>) -> Seq<Seq<char>> {
    if s.len() == 0 {
        seq!["No active agents."@]
    } else {
        seq![agents_head(s.len())] + agent_list(s)
    }
}

/// The lines of the active agents in the live status: only the first few.
pub open spec fn live_agents_shown(s: Seq<AgentLogEntry>) -> Seq<Seq<char>> {
    if s.len() == 0 {
        seq!["\nActive Agents: 0"@]
    } else if s.len() <= LIVE_AGENT_LIMIT {
        seq![agents_head(s.len())] + agent_list(s)
    } else {
        seq![agents_head(s.len())] + agent_list(s.take(LIVE_AGENT_LIMIT as int)) + seq![
            "  ... "@ + number::decimal((s.len() - LIVE_AGENT_LIMIT) as nat) + " more"@,
        ]
    }
}

fn list_agents(active: &[AgentLogEntry], n: usize) -> (r: Vec<String>)
    requires
        n <= active@.len(),
    ensures
        chars::texts(r@) == seq![agents_head(active@.len())] + agent_list(active@.take(n as int)),
{
    let ghost first = seq![agents_head(active@.len())];
    let ghost all = agent_list(active@.take(n as int));
    let mut out: Vec<String> = Vec::new();
    out.push(concat3("\nActive Agents (", format_usize(active.len()).as_str(), "):"));
    let mut i: usize = 0;
    proof {
        assert(chars::texts(out@) =~= first + all.take(0));
    }
    while i < n
        invariant
            n <= active@.len(),
            all == agent_list(active@.take(n as int)),
            i <= n,
            chars::texts(out@) == first + all.take(i as int),
        decreases n - i,
    {
        let a = &active[i];
        let mut s = concat3("  ", a.agent_id.as_str(), " | ");
        s.append(a.file_path.as_str());
        s.append(" | ");
        s.append(a.status.as_str());
        s.append(" | ");
        s.append(a.started_at.as_str());
        out.push(s);
        proof {
            assert((first + all.take(i as int)).push(agent_line(active@[i as int])) =~= first
                + all.take(i + 1));
        }
        i = i + 1;
    }
    proof {
        assert(all.take(n as int) =~= all);
    }
    out
}

/// The lines of the active agents.
pub fn agent_lines(active: &[AgentLogEntry]) -> (r: Vec<String>)
    ensures
        chars::texts(r@) == agents_shown(active@),
{
    if active.len() == 0 {
        let mut out: Vec<String> = Vec::new();
        out.push(own("No active agents."));
        proof {
            assert(chars::texts(out@) =~= agents_shown(active@));
        }
        return out;
    }
    proof {
        assert(active@.take(active@.len() as int) =~= active@);
    }
    list_agents(active, active.len())
}

/// The lines of the active agents in the live status: only the first few.
pub fn live_agent_lines(active: &[AgentLogEntry]) -> (r: Vec<String>)
    ensures
        chars::texts(r@) == live_agents_shown(active@),
{
    let n: usize = active.len();
    if n == 0 {
        let mut out: Vec<String> = Vec::new();
        out.push(own("\nActive Agents: 0"));
        proof {
            assert(chars::texts(out@) =~= live_agents_shown(active@));
        }
        return out;
    }
    if n <= LIVE_AGENT_LIMIT {
        proof {
            assert(active@.take(active@.len() as int) =~= active@);
        }
        return list_agents(active, n);
    }
    let mut out = list_agents(active, LIVE_AGENT_LIMIT);
    out.push(concat3("  ... ", format_usize(n - LIVE_AGENT_LIMIT).as_str(), " more"));
    proof {
        assert(chars::texts(out@) =~= live_agents_shown(active@));
    }
    out
}

/// The lines of the budget.
pub open spec fn budget_shown(state: SwarmState, cost: FigureView, temperature: FigureView) -> Seq<
    Seq<char>,
> {
    seq![
        "\nBudget:"@,
        "  Total cost: $"@ + cost.shown,
        "  Total tokens: "@ + number::decimal_int(state.total_tokens_used as int),
        "  Agents spawned: "@ + number::decimal_int(state.total_agents_spawned as int),
        "  Temperature: "@ + temperature.shown,
        "  Iteration: "@ + number::decimal_int(state.iteration_count as int),
    ]
}

/// The lines of the budget, given the cost and the temperature of the swarm.
pub fn budget_lines(state: &Option<SwarmState>, cost: &Figure, temperature: &Figure) -> (r: Vec<
    String,
>)
    ensures
        chars::texts(r@) == match *state {
            Some(s) => budget_shown(s, cost@, temperature@),
            None => seq!["No swarm session active."@],
        },
{
    let mut out: Vec<String> = Vec::new();
    match state {
        Some(s) => {
            out.push(own("\nBudget:"));
            out.push(concat2("  Total cost: $", cost.shown.as_str()));
            out.push(concat2("  Total tokens: ", format_i64(s.total_tokens_used).as_str()));
            out.push(concat2("  Agents spawned: ", format_i64(s.total_agents_spawned).as_str()));
            out.push(concat2("  Temperature: ", temperature.shown.as_str()));
            out.push(concat2("  Iteration: ", format_i64(s.iteration_count).as_str()));
            proof {
                assert(chars::texts(out@) =~= budget_shown(*s, cost@, temperature@));
            }
        },
        None => {
            out.push(own("No swarm session active."));
            proof {
                assert(chars::texts(out@) =~= seq!["No swarm session active."@]);
            }
        },
    }
    out
}

/// The lines of the budget in the live status.
pub open spec fn live_budget_shown(o: OverviewView, derived: bool) -> Seq<Seq<char>> {
    seq![
        "\nBudget:"@,
        "  Total cost: $"@ + o.cost.shown,
        "  Total tokens: "@ + number::decimal_int(o.tokens),
        "  Agents spawned: "@ + number::decimal_int(o.spawned),
        "  Active agents: "@ + number::decimal_int(o.active),
        "  Temperature: "@ + o.temperature.shown,
        "  Iteration: "@ + number::decimal_int(o.iterations),
    ] + if derived {
        seq!["  Source: derived from persisted agent logs"@]
    } else {
        Seq::<Seq<char>>::empty()
    }
}

/// The lines of the budget in the live status; `derived` says that the state of the swarm was
/// not recorded.
pub fn live_budget_lines(o: &RuntimeOverview, derived: bool) -> (r: Vec<String>)
    ensures
        chars::texts(r@) == live_budget_shown(o@, derived),
{
    let mut out: Vec<String> = Vec::new();
    out.push(own("\nBudget:"));
    out.push(concat2("  Total cost: $", o.total_cost_usd.shown.as_str()));
    out.push(concat2("  Total tokens: ", format_i64(o.total_tokens_used).as_str()));
    out.push(concat2("  Agents spawned: ", format_i64(o.total_agents_spawned).as_str()));
    out.push(concat2("  Active agents: ", format_i64(o.active_agents).as_str()));
    out.push(concat2("  Temperature: ", o.global_temperature.shown.as_str()));
    out.push(concat2("  Iteration: ", format_i64(o.iteration_count).as_str()));
    if derived {
        out.push(own("  Source: derived from persisted agent logs"));
    }
    proof {
        assert(chars::texts(out@) =~= live_budget_shown(o@, derived));
    }
    out
}

/// The lines of the latest events.
pub open spec fn events_shown(buffer: Seq<Seq<char>>) -> Seq<Seq<char>> {
    seq!["\nLive Events (latest "@ + number::decimal(LIVE_EVENT_BUFFER_LIMIT as nat) + "):"@]
        + if buffer.len() == 0 {
        seq!["  No candidate/runtime events observed yet."@]
    } else {
        Seq::new(buffer.len(), |i: int| "  "@ + buffer[i])
    }
}

/// The lines of the latest events.
pub fn live_event_lines(buffer: &[String]) -> (r: Vec<String>)
    ensures
        chars::texts(r@) == events_shown(chars::texts(buffer@)),
{
    let ghost wanted = events_shown(chars::texts(buffer@));
    let mut out: Vec<String> = Vec::new();
    out.push(
        concat3("\nLive Events (latest ", format_usize(LIVE_EVENT_BUFFER_LIMIT).as_str(), "):"),
    );
    if buffer.len() == 0 {
        out.push(own("  No candidate/runtime events observed yet."));
        proof {
            assert(chars::texts(out@) =~= wanted);
        }
        return out;
    }
    let mut i: usize = 0;
    while i < buffer.len()
        invariant
            wanted == events_shown(chars::texts(buffer@)),
            buffer@.len() > 0,
            i <= buffer@.len(),
            out@.len() == i + 1,
            forall|j: int| 0 <= j <= i ==> (#[trigger] out@[j])@ == wanted[j],
        decreases buffer@.len() - i,
    {
        out.push(concat2("  ", buffer[i].as_str()));
        proof {
            assert(wanted[i + 1] == "  "@ + buffer@[i as int]@);
        }
        i = i + 1;
    }
    proof {
        assert(chars::texts(out@) =~= wanted);
    }
    out
}

/// However many lines are added, no more are kept than fit.
pub proof fn law_kept_lines_are_bounded(buffer: Seq<Seq<char>>, line: Seq<char>)
    ensures
        track::latest(buffer.push(line), LIVE_EVENT_BUFFER_LIMIT as nat).len()
            <= LIVE_EVENT_BUFFER_LIMIT,
        track::latest(buffer.push(line), LIVE_EVENT_BUFFER_LIMIT as nat).last() == line,
{
}

} // verus!
