//! What is known of a candidate while it is worked on.
use crate::cli::figure;
use crate::cli::figure::{own_figure, own_figure_opt, same_figure, same_figures, Figure, FigureView};
use crate::db::AgentLogEntry;
use crate::json;
use crate::json::{integer_field, natural_field, text_field};
use crate::text::chars;
use crate::text::chars::{opt_eq, opt_same, own, own_opt, same};
use crate::text::find;
use crate::text::find::{starts_with, trim};
use crate::text::split;
use crate::text::split::split_once;
use vstd::prelude::*;

verus! {

/// What an agent noted of its candidate.
#[derive(Debug, Clone)]
pub struct CandidateRuntimeMetadata {
    pub phase: Option<String>,
    pub source_lineage: Option<String>,
    pub retry_count: Option<u64>,
    pub outcome: Option<String>,
    pub reason: Option<String>,
    pub failure_stage: Option<String>,
    pub sandbox_root: Option<String>,
    pub fanout: Option<u64>,
    pub temperature: Option<Figure>,
    pub touched_lines: Option<u64>,
    pub byte_delta: Option<i64>,
}

/// What a [`CandidateRuntimeMetadata`] stands for.
#[verifier::ext_equal]
pub struct MetadataView {
    pub phase: Option<Seq<char>>,
    pub source: Option<Seq<char>>,
    pub retries: Option<u64>,
    pub outcome: Option<Seq<char>>,
    pub reason: Option<Seq<char>>,
    pub stage: Option<Seq<char>>,
    pub sandbox: Option<Seq<char>>,
    pub fanout: Option<u64>,
    pub temperature: Option<FigureView>,
    pub touched: Option<u64>,
    pub delta: Option<i64>,
}

impl View for CandidateRuntimeMetadata {
    type V = MetadataView;

    open spec fn view(&self) -> MetadataView {
        MetadataView {
            phase: chars::opt_text(self.phase),
            source: chars::opt_text(self.source_lineage),
            retries: self.retry_count,
            outcome: chars::opt_text(self.outcome),
            reason: chars::opt_text(self.reason),
            stage: chars::opt_text(self.failure_stage),
            sandbox: chars::opt_text(self.sandbox_root),
            fanout: self.fanout,
            temperature: figure::opt_figure(self.temperature),
            touched: self.touched_lines,
            delta: self.byte_delta,
        }
    }
}

/// One run of an agent with what it noted of its candidate.
#[derive(Debug, Clone)]
pub struct CandidateLiveState {
    pub log_id: i64,
    pub agent_id: String,
    pub file_path: String,
    pub command: String,
    pub status: String,
    pub started_at: String,
    pub completed_at: Option<String>,
    pub tokens_used: i64,
    pub cost_usd: Figure,
    pub metadata: CandidateRuntimeMetadata,
}

/// What a [`CandidateLiveState`] stands for.
#[verifier::ext_equal]
pub struct StateView {
    pub id: i64,
    pub agent: Seq<char>,
    pub file: Seq<char>,
    pub command: Seq<char>,
    pub status: Seq<char>,
    pub started: Seq<char>,
    pub completed: Option<Seq<char>>,
    pub tokens: i64,
    pub cost: FigureView,
    pub meta: MetadataView,
}

impl View for CandidateLiveState {
    type V = StateView;

    open spec fn view(&self) -> StateView {
        StateView {
            id: self.log_id,
            agent: self.agent_id@,
            file: self.file_path@,
            command: self.command@,
            status: self.status@,
            started: self.started_at@,
            completed: chars::opt_text(self.completed_at),
            tokens: self.tokens_used,
            cost: self.cost_usd@,
            meta: self.metadata@,
        }
    }
}

/// A text unless it is empty.
pub open spec fn filled(t: Option<Seq<char>>) -> Option<Seq<char>> {
    match t {
        Some(x) => if x.len() == 0 {
            None
        } else {
            Some(x)
        },
        None => None,
    }
}

/// The phase that a command names: what follows its first colon, without space around it.
pub open spec fn named_phase(command: Seq<char>) -> Option<Seq<char>> {
    match split::cut_at(command, ':') {
        Some(p) => filled(Some(find::trimmed(p.1))),
        None => None,
    }
}

/// The first text that there is.
pub open spec fn first_of(a: Option<Seq<char>>, b: Option<Seq<char>>) -> Option<Seq<char>> {
    match a {
        Some(x) => Some(x),
        None => b,
    }
}

/// What is known of a candidate from its command and from the fields of its note: empty texts
/// count as missing, and the command names the phase if the note does not.
pub open spec fn settled_metadata(command: Seq<char>, m: MetadataView) -> MetadataView {
    MetadataView {
        phase: first_of(filled(m.phase), named_phase(command)),
        source: filled(m.source),
        outcome: filled(m.outcome),
        reason: filled(m.reason),
        stage: filled(m.stage),
        sandbox: filled(m.sandbox),
        ..m
    }
}

/// The fields of a note, which is JSON text.
pub open spec fn noted_fields(raw: Seq<char>, temperature: Option<FigureView>) -> MetadataView {
    MetadataView {
        phase: json::json_text_field(raw, "phase"@),
        source: json::json_text_field(raw, "candidate_source"@),
        retries: json::json_natural_field(raw, "retry_attempts"@),
        outcome: json::json_text_field(raw, "outcome"@),
        reason: json::json_text_field(raw, "reason"@),
        stage: json::json_text_field(raw, "failure_stage"@),
        sandbox: json::json_text_field(raw, "sandbox_root"@),
        fanout: json::json_natural_field(raw, "fanout"@),
        temperature,
        touched: json::json_natural_field(raw, "touched_lines"@),
        delta: json::json_integer_field(raw, "byte_delta"@),
    }
}

/// A candidate of which nothing was noted.
pub open spec fn no_fields() -> MetadataView {
    MetadataView {
        phase: None,
        source: None,
        retries: None,
        outcome: None,
        reason: None,
        stage: None,
        sandbox: None,
        fanout: None,
        temperature: None,
        touched: None,
        delta: None,
    }
}

/// What is known of the candidate of a run, given the temperature that its note holds.
pub open spec fn metadata_of(
    command: Seq<char>,
    note: Option<Seq<char>>,
    temperature: Option<FigureView>,
) -> MetadataView {
    settled_metadata(
        command,
        match note {
            Some(raw) => noted_fields(raw, temperature),
            None => no_fields(),
        },
    )
}

/// What is known of a run, given its cost and the temperature that its note holds.
pub open spec fn state_of(
    e: AgentLogEntry,
    cost: FigureView,
    temperature: Option<FigureView>,
) -> StateView {
    StateView {
        id: e.id,
        agent: e.agent_id@,
        file: e.file_path@,
        command: e.command@,
        status: e.status@,
        started: e.started_at@,
        completed: chars::opt_text(e.completed_at),
        tokens: e.tokens_used,
        cost,
        meta: metadata_of(e.command@, chars::opt_text(e.micro_heatmap), temperature),
    }
}

/// Whether nothing that was noted differs.
pub open spec fn equal_metadata(a: MetadataView, b: MetadataView) -> bool {
    &&& a.phase == b.phase
    &&& a.source == b.source
    &&& a.retries == b.retries
    &&& a.outcome == b.outcome
    &&& a.reason == b.reason
    &&& a.stage == b.stage
    &&& a.sandbox == b.sandbox
    &&& a.fanout == b.fanout
    &&& figure::equal_figures(a.temperature, b.temperature)
    &&& a.touched == b.touched
    &&& a.delta == b.delta
}

/// Whether nothing that is known of the runs differs.
pub open spec fn equal_states(a: StateView, b: StateView) -> bool {
    &&& a.id == b.id
    &&& a.agent == b.agent
    &&& a.file == b.file
    &&& a.command == b.command
    &&& a.status == b.status
    &&& a.started == b.started
    &&& a.completed == b.completed
    &&& a.tokens == b.tokens
    &&& figure::equal_figure(a.cost, b.cost)
    &&& equal_metadata(a.meta, b.meta)
}

/// Whether a run with the given status is still going on.
pub open spec fn is_going_on(status: Seq<char>) -> bool {
    status == "spawned"@ || status == "running"@ || status == "retrying"@
}

/// Whether the reason begins with a text.
pub open spec fn reason_begins(m: MetadataView, p: Seq<char>) -> bool {
    match m.reason {
        Some(reason) => find::has_prefix(reason, p),
        None => false,
    }
}

/// What became of a candidate.
pub open spec fn decision(s: StateView) -> Seq<char> {
    if s.status == "success"@ {
        "won"@
    } else if reason_begins(s.meta, "oscillation suppressed:"@) || reason_begins(
        s.meta,
        "duplicate verified candidate output"@,
    ) {
        "suppressed"@
    } else if s.meta.stage == Some("verification"@) || reason_begins(
        s.meta,
        "lost selection to higher-ranked verified candidate"@,
    ) {
        "lost"@
    } else if is_going_on(s.status) {
        "in_flight"@
    } else {
        "rejected"@
    }
}

/// How far a candidate came in verification.
pub open spec fn verification_result(s: StateView) -> Seq<char> {
    if s.status == "success"@ {
        "passed"@
    } else if s.meta.stage == Some("verification"@) {
        "failed"@
    } else if decision(s) == "lost"@ || decision(s) == "suppressed"@ {
        "passed_not_selected"@
    } else if s.status == "retrying"@ {
        "retrying"@
    } else if s.status == "spawned"@ || s.status == "running"@ {
        "pending"@
    } else {
        "not_reached"@
    }
}

/// Why a candidate stands where it stands: its reason, or else what its status says.
pub open spec fn explanation(s: StateView) -> Option<Seq<char>> {
    if s.meta.reason is Some {
        s.meta.reason
    } else if s.status == "success"@ {
        Some("verified candidate selected for application"@)
    } else if s.status == "retrying"@ {
        Some("candidate queued for critique retry"@)
    } else if s.status == "spawned"@ {
        Some("candidate launched"@)
    } else if s.status == "running"@ {
        Some("candidate generation or verification in progress"@)
    } else if s.status == "failed"@ && s.meta.stage == Some("generation"@) {
        Some("candidate generation failed"@)
    } else if s.status == "failed"@ && s.meta.stage == Some("safety"@) {
        Some("candidate blocked by safety checks"@)
    } else if s.status == "failed"@ && s.meta.stage == Some("verification"@) {
        Some("candidate failed verification"@)
    } else {
        None
    }
}

fn nonempty(t: Option<String>) -> (r: Option<String>)
    ensures
        chars::opt_text(r) == filled(chars::opt_text(t)),
{
    match t {
        Some(x) => {
            if x.as_str().is_empty() {
                None
            } else {
                Some(x)
            }
        },
        None => None,
    }
}

/// The phase that a command names: what follows its first colon, without space around it.
pub fn phase_from_command(command: &str) -> (r: Option<String>)
    ensures
        chars::opt_text(r) == named_phase(command@),
{
    match split_once(command, ':') {
        Some(p) => nonempty(Some(trim(p.1.as_str()))),
        None => None,
    }
}

/// What is known of a candidate from its command and from the fields of its note.
pub fn settle_metadata(command: &str, fields: CandidateRuntimeMetadata) -> (r:
    CandidateRuntimeMetadata)
    ensures
        r@ == settled_metadata(command@, fields@),
{
    let phase = match nonempty(fields.phase) {
        Some(p) => Some(p),
        None => phase_from_command(command),
    };
    CandidateRuntimeMetadata {
        phase,
        source_lineage: nonempty(fields.source_lineage),
        retry_count: fields.retry_count,
        outcome: nonempty(fields.outcome),
        reason: nonempty(fields.reason),
        failure_stage: nonempty(fields.failure_stage),
        sandbox_root: nonempty(fields.sandbox_root),
        fanout: fields.fanout,
        temperature: fields.temperature,
        touched_lines: fields.touched_lines,
        byte_delta: fields.byte_delta,
    }
}

/// What is known of the candidate of a run, given the temperature that its note holds.
pub fn parse_candidate_runtime_metadata(
    entry: &AgentLogEntry,
    temperature: &Option<Figure>,
) -> (r: CandidateRuntimeMetadata)
    ensures
        r@ == metadata_of(
            entry.command@,
            chars::opt_text(entry.micro_heatmap),
            figure::opt_figure(*temperature),
        ),
{
    let fields = match &entry.micro_heatmap {
        Some(note) => {
            let raw = note.as_str();
            CandidateRuntimeMetadata {
                phase: text_field(raw, "phase"),
                source_lineage: text_field(raw, "candidate_source"),
                retry_count: natural_field(raw, "retry_attempts"),
                outcome: text_field(raw, "outcome"),
                reason: text_field(raw, "reason"),
                failure_stage: text_field(raw, "failure_stage"),
                sandbox_root: text_field(raw, "sandbox_root"),
                fanout: natural_field(raw, "fanout"),
                temperature: own_figure_opt(temperature),
                touched_lines: natural_field(raw, "touched_lines"),
                byte_delta: integer_field(raw, "byte_delta"),
            }
        },
        None => CandidateRuntimeMetadata {
            phase: None,
            source_lineage: None,
            retry_count: None,
            outcome: None,
            reason: None,
            failure_stage: None,
            sandbox_root: None,
            fanout: None,
            temperature: None,
            touched_lines: None,
            byte_delta: None,
        },
    };
    settle_metadata(entry.command.as_str(), fields)
}

/// What is known of a run, given its cost and the temperature that its note holds.
pub fn build_candidate_live_state(
    entry: &AgentLogEntry,
    cost: &Figure,
    temperature: &Option<Figure>,
) -> (r: CandidateLiveState)
    ensures
        r@ == state_of(*entry, cost@, figure::opt_figure(*temperature)),
{
    CandidateLiveState {
        log_id: entry.id,
        agent_id: own(entry.agent_id.as_str()),
        file_path: own(entry.file_path.as_str()),
        command: own(entry.command.as_str()),
        status: own(entry.status.as_str()),
        started_at: own(entry.started_at.as_str()),
        completed_at: own_opt(&entry.completed_at),
        tokens_used: entry.tokens_used,
        cost_usd: own_figure(cost),
        metadata: parse_candidate_runtime_metadata(entry, temperature),
    }
}

/// A copy of what is known of a run.
pub fn own_state(s: &CandidateLiveState) -> (r: CandidateLiveState)
    ensures
        r@ == s@,
{
    let m = &s.metadata;
    CandidateLiveState {
        log_id: s.log_id,
        agent_id: own(s.agent_id.as_str()),
        file_path: own(s.file_path.as_str()),
        command: own(s.command.as_str()),
        status: own(s.status.as_str()),
        started_at: own(s.started_at.as_str()),
        completed_at: own_opt(&s.completed_at),
        tokens_used: s.tokens_used,
        cost_usd: own_figure(&s.cost_usd),
        metadata: CandidateRuntimeMetadata {
            phase: own_opt(&m.phase),
            source_lineage: own_opt(&m.source_lineage),
            retry_count: m.retry_count,
            outcome: own_opt(&m.outcome),
            reason: own_opt(&m.reason),
            failure_stage: own_opt(&m.failure_stage),
            sandbox_root: own_opt(&m.sandbox_root),
            fanout: m.fanout,
            temperature: own_figure_opt(&m.temperature),
            touched_lines: m.touched_lines,
            byte_delta: m.byte_delta,
        },
    }
}

fn same_number(a: Option<u64>, b: Option<u64>) -> (r: bool)
    ensures
        r == (a == b),
{
    match (a, b) {
        (Some(x), Some(y)) => x == y,
        (None, None) => true,
        _ => false,
    }
}

fn same_delta(a: Option<i64>, b: Option<i64>) -> (r: bool)
    ensures
        r == (a == b),
{
    match (a, b) {
        (Some(x), Some(y)) => x == y,
        (None, None) => true,
        _ => false,
    }
}

/// Whether nothing that was noted differs.
pub fn same_metadata(a: &CandidateRuntimeMetadata, b: &CandidateRuntimeMetadata) -> (r: bool)
    ensures
        r == equal_metadata(a@, b@),
{
    opt_eq(&a.phase, &b.phase) && opt_eq(&a.source_lineage, &b.source_lineage) && same_number(
        a.retry_count,
        b.retry_count,
    ) && opt_eq(&a.outcome, &b.outcome) && opt_eq(&a.reason, &b.reason) && opt_eq(
        &a.failure_stage,
        &b.failure_stage,
    ) && opt_eq(&a.sandbox_root, &b.sandbox_root) && same_number(a.fanout, b.fanout)
        && same_figures(&a.temperature, &b.temperature) && same_number(
        a.touched_lines,
        b.touched_lines,
    ) && same_delta(a.byte_delta, b.byte_delta)
}

/// Whether nothing that is known of the runs differs.
pub fn same_state(a: &CandidateLiveState, b: &CandidateLiveState) -> (r: bool)
    ensures
        r == equal_states(a@, b@),
{
    a.log_id == b.log_id && same(a.agent_id.as_str(), b.agent_id.as_str()) && same(
        a.file_path.as_str(),
        b.file_path.as_str(),
    ) && same(a.command.as_str(), b.command.as_str()) && same(
        a.status.as_str(),
        b.status.as_str(),
    ) && same(a.started_at.as_str(), b.started_at.as_str()) && opt_eq(
        &a.completed_at,
        &b.completed_at,
    ) && a.tokens_used == b.tokens_used && same_figure(&a.cost_usd, &b.cost_usd)
        && same_metadata(&a.metadata, &b.metadata)
}

/// Whether a run with the given status is still going on.
pub fn goes_on(status: &str) -> (r: bool)
    ensures
        r == is_going_on(status@),
{
    same(status, "spawned") || same(status, "running") || same(status, "retrying")
}

fn has_reason(state: &CandidateLiveState, p: &str) -> (r: bool)
    ensures
        r == reason_begins(state@.meta, p@),
{
    match &state.metadata.reason {
        Some(reason) => starts_with(reason.as_str(), p),
        None => false,
    }
}

/// What became of a candidate.
pub fn candidate_decision(state: &CandidateLiveState) -> (r: &'static str)
    ensures
        r@ == decision(state@),
{
    if same(state.status.as_str(), "success") {
        "won"
    } else if has_reason(state, "oscillation suppressed:") || has_reason(
        state,
        "duplicate verified candidate output",
    ) {
        "suppressed"
    } else if opt_same(&state.metadata.failure_stage, "verification") || has_reason(
        state,
        "lost selection to higher-ranked verified candidate",
    ) {
        "lost"
    } else if goes_on(state.status.as_str()) {
        "in_flight"
    } else {
        "rejected"
    }
}

/// How far a candidate came in verification.
pub fn candidate_verification_result(state: &CandidateLiveState) -> (r: &'static str)
    ensures
        r@ == verification_result(state@),
{
    if same(state.status.as_str(), "success") {
        return "passed";
    }
    if opt_same(&state.metadata.failure_stage, "verification") {
        return "failed";
    }
    let decided = candidate_decision(state);
    if same(decided, "lost") || same(decided, "suppressed") {
        return "passed_not_selected";
    }
    if same(state.status.as_str(), "retrying") {
        "retrying"
    } else if same(state.status.as_str(), "spawned") || same(state.status.as_str(), "running") {
        "pending"
    } else {
        "not_reached"
    }
}

/// Why a candidate stands where it stands: its reason, or else what its status says.
pub fn candidate_explanation(state: &CandidateLiveState) -> (r: Option<String>)
    ensures
        chars::opt_text(r) == explanation(state@),
{
    let status = state.status.as_str();
    let stage = &state.metadata.failure_stage;
    if state.metadata.reason.is_some() {
        own_opt(&state.metadata.reason)
    } else if same(status, "success") {
        Some(own("verified candidate selected for application"))
    } else if same(status, "retrying") {
        Some(own("candidate queued for critique retry"))
    } else if same(status, "spawned") {
        Some(own("candidate launched"))
    } else if same(status, "running") {
        Some(own("candidate generation or verification in progress"))
    } else if same(status, "failed") && opt_same(stage, "generation") {
        Some(own("candidate generation failed"))
    } else if same(status, "failed") && opt_same(stage, "safety") {
        Some(own("candidate blocked by safety checks"))
    } else if same(status, "failed") && opt_same(stage, "verification") {
        Some(own("candidate failed verification"))
    } else {
        None
    }
}

/// A candidate won exactly if its run succeeded.
pub proof fn law_only_successes_win(s: StateView)
    ensures
        decision(s) == "won"@ <==> s.status == "success"@,
        verification_result(s) == "passed"@ <==> s.status == "success"@,
{
    reveal_strlit("won");
    reveal_strlit("suppressed");
    reveal_strlit("lost");
    reveal_strlit("in_flight");
    reveal_strlit("rejected");
    reveal_strlit("passed");
    reveal_strlit("failed");
    reveal_strlit("passed_not_selected");
    reveal_strlit("retrying");
    reveal_strlit("pending");
    reveal_strlit("not_reached");
    assert("won"@.len() == 3 && "suppressed"@.len() == 10 && "lost"@.len() == 4);
    assert("in_flight"@.len() == 9 && "rejected"@.len() == 8);
    assert("passed"@.len() == 6 && "passed_not_selected"@.len() == 19 && "retrying"@.len() == 8);
    assert("pending"@.len() == 7 && "not_reached"@.len() == 11);
    assert("passed"@[0] == 'p' && "failed"@[0] == 'f');
}

} // verus!
