//! What is told and recorded of repair runs.
use crate::api::transport;
use crate::api::transport::format_dollars;
use crate::cli::fix;
use crate::cli::fix::{
    cost_json, fix_failure_reason_rollup, fix_summary_headline, grounding_collected, list_step_counts,
    list_text_if, remaining_budget, FixBenchmarkVerifier, FixCounts, FixRun, FixStage,
};
use crate::cli::guard;
use crate::cli::guard::{SecurityRuntimeContext, SecurityView};
use crate::cli::progress::{CandidateLiveState, StateView};
use crate::cli::watch_report::{append_fields, entries_if, entry, RunTimes};
use crate::engine::summary::StepExecutionSummary;
use crate::json;
use crate::json::{
    count, field, integer, list, natural_or_null, object, text, text_or_null, whole_or_null, Json,
    JsonView,
};
use crate::sorting;
use crate::text::chars;
use crate::text::chars::{concat2, opt_same, own, own_opt, same};
use crate::text::number;
use crate::text::number::{format_i64, format_usize};
use crate::verification::grounding;
use crate::verification::grounding::{GroundedRepairContext, GroundingRound};
use vstd::prelude::*;
use vstd::string::*;

verus! {

broadcast use chars::lemma_texts_push, chars::lemma_texts_empty;

/// How many tools the first `n` rounds called.
pub open spec fn calls_in(rounds: Seq<GroundingRound>, n: int) -> nat
    decreases n,
{
    if n <= 0 || n > rounds.len() {
        0
    } else {
        calls_in(rounds, n - 1) + rounds[n - 1].tool_calls@.len()
    }
}

proof fn lemma_calls_grow(rounds: Seq<GroundingRound>, n: int)
    requires
        0 <= n <= rounds.len(),
    ensures
        calls_in(rounds, n) <= calls_in(rounds, rounds.len() as int),
    decreases rounds.len() - n,
{
    if n < rounds.len() {
        lemma_calls_grow(rounds, n + 1);
    }
}

/// How many tools were called in all rounds.
pub fn count_tool_calls(rounds: &[GroundingRound]) -> (r: usize)
    requires
        calls_in(rounds@, rounds@.len() as int) <= usize::MAX,
    ensures
        r == calls_in(rounds@, rounds@.len() as int),
{
    let mut n: usize = 0;
    let mut i: usize = 0;
    while i < rounds.len()
        invariant
            calls_in(rounds@, rounds@.len() as int) <= usize::MAX,
            i <= rounds@.len(),
            n == calls_in(rounds@, i as int),
        decreases rounds@.len() - i,
    {
        proof {
            lemma_calls_grow(rounds@, i + 1);
        }
        n = n + rounds[i].tool_calls.len();
        i = i + 1;
    }
    n
}

/// What a run was asked to do.
#[derive(Debug)]
pub struct FixRequest {
    /// What the run is to do, without secrets.
    pub description: String,
    pub max_agents: usize,
    /// What the run may cost, in billionths of a dollar.
    pub max_cost: i128,
    pub verifier: FixBenchmarkVerifier,
}

/// Whether the costs of a run can be added up.
pub open spec fn costs_fit(agents: int, grounding: int, plan: int, max_cost: int) -> bool {
    &&& i128::MIN <= agents + grounding <= i128::MAX
    &&& i128::MIN <= fix::total_cost(agents, grounding, plan) <= i128::MAX
    &&& max_cost - fix::total_cost(agents, grounding, plan) <= i128::MAX
}

/// A run that came to its end.
pub fn finished_run(
    request: FixRequest,
    times: RunTimes,
    context: &GroundedRepairContext,
    plan_cost: i128,
    agents_cost: i128,
    summary: &StepExecutionSummary,
    counts: FixCounts,
    accepted_patch_bytes: Option<u64>,
    security: SecurityRuntimeContext,
) -> (r: FixRun)
    requires
        calls_in(context.rounds@, context.rounds@.len() as int) <= usize::MAX,
        costs_fit(
            agents_cost as int,
            context.total_usage.cost_nanos as int,
            plan_cost as int,
            request.max_cost as int,
        ),
    ensures
        r.description == request.description,
        r.max_agents == request.max_agents,
        r.max_cost == request.max_cost,
        r.times == times,
        r.grounding_rounds == context.rounds@.len(),
        r.grounding_tool_calls == calls_in(context.rounds@, context.rounds@.len() as int),
        r.grounding_collected == fix::has_grounding(context.summary@, context.rounds@.len()),
        r.grounding_cost == context.total_usage.cost_nanos,
        r.plan_cost == plan_cost,
        r.total_cost == fix::total_cost(
            agents_cost as int,
            context.total_usage.cost_nanos as int,
            plan_cost as int,
        ),
        r.budget_remaining == fix::cost_left(request.max_cost as int, r.total_cost as int),
        r.counts == counts,
        r.time_to_first_candidate_ms == summary.time_to_first_candidate_ms,
        r.time_to_verified_repair_ms == summary.time_to_verified_repair_ms,
        r.final_bundle_verified == summary.final_bundle_verified,
        r.applied == summary.applied,
        r.accepted_patch_bytes == accepted_patch_bytes,
        chars::opt_text(r.sandbox_run_root) == chars::opt_text(summary.run_root),
        r.abort is None,
        r.verifier == request.verifier,
        r.security == security,
{
    let grounding_cost = context.total_usage.cost_nanos;
    let total_cost: i128 = agents_cost + grounding_cost + plan_cost;
    let budget_remaining = remaining_budget(request.max_cost, total_cost);
    FixRun {
        description: request.description,
        max_agents: request.max_agents,
        max_cost: request.max_cost,
        times,
        grounding_rounds: context.rounds.len(),
        grounding_tool_calls: count_tool_calls(context.rounds.as_slice()),
        grounding_collected: grounding_collected(context),
        grounding_cost,
        plan_cost,
        total_cost,
        budget_remaining,
        counts,
        time_to_first_candidate_ms: summary.time_to_first_candidate_ms,
        time_to_verified_repair_ms: summary.time_to_verified_repair_ms,
        final_bundle_verified: summary.final_bundle_verified,
        applied: summary.applied,
        accepted_patch_bytes,
        sandbox_run_root: own_opt(&summary.run_root),
        abort: None,
        verifier: request.verifier,
        security,
    }
}

/// The counts of a run in its summary.
pub open spec fn count_summary(c: FixCounts) -> JsonView {
    JsonView::Object(
        fix::step_counts(c) + seq![("retry_attempts"@, json::natural(c.retry_attempts as nat))],
    )
}

/// The counts of a run in its summary.
pub fn artifact_count_summary(c: &FixCounts) -> (r: Json)
    ensures
        r@ == count_summary(*c),
{
    let mut fields = list_step_counts(c);
    fields.push(field("retry_attempts", count(c.retry_attempts)));
    proof {
        assert(json::fields_view(fields@) =~= count_summary(*c)->Object_0);
    }
    object(fields)
}

/// What came of the candidates of one source.
pub open spec fn lineage_entry(attempts: nat, accepted: nat) -> JsonView {
    JsonView::Object(
        seq![
            ("attempts"@, json::natural(attempts)),
            ("accepted_steps"@, json::natural(accepted)),
        ],
    )
}

fn describe_lineage(attempts: usize, accepted: usize) -> (r: Json)
    ensures
        r@ == lineage_entry(attempts as nat, accepted as nat),
{
    let fields = vec![field("attempts", count(attempts)), field("accepted_steps", count(accepted))];
    proof {
        assert(json::fields_view(fields@) =~= lineage_entry(
            attempts as nat,
            accepted as nat,
        )->Object_0);
    }
    object(fields)
}

/// What came of the candidates, by source.
pub open spec fn lineage(c: FixCounts) -> JsonView {
    JsonView::Object(
        seq![
            (
                "apply_edit"@,
                lineage_entry(c.apply_edit_attempts as nat, c.apply_edit_accepted_steps as nat),
            ),
            (
                "grounded_next_edit"@,
                lineage_entry(
                    c.grounded_next_edit_attempts as nat,
                    c.grounded_next_edit_accepted_steps as nat,
                ),
            ),
            (
                "critique_retry"@,
                lineage_entry(
                    c.critique_retry_attempts as nat,
                    c.critique_retry_accepted_steps as nat,
                ),
            ),
            (
                "exploratory_next_edit"@,
                lineage_entry(
                    c.exploratory_next_edit_attempts as nat,
                    c.exploratory_next_edit_accepted_steps as nat,
                ),
            ),
        ],
    )
}

/// What came of the candidates, by source.
pub fn artifact_candidate_lineage_summary(c: &FixCounts) -> (r: Json)
    ensures
        r@ == lineage(*c),
{
    let fields = vec![
        field("apply_edit", describe_lineage(c.apply_edit_attempts, c.apply_edit_accepted_steps)),
        field(
            "grounded_next_edit",
            describe_lineage(c.grounded_next_edit_attempts, c.grounded_next_edit_accepted_steps),
        ),
        field(
            "critique_retry",
            describe_lineage(c.critique_retry_attempts, c.critique_retry_accepted_steps),
        ),
        field(
            "exploratory_next_edit",
            describe_lineage(
                c.exploratory_next_edit_attempts,
                c.exploratory_next_edit_accepted_steps,
            ),
        ),
    ];
    proof {
        assert(json::fields_view(fields@) =~= lineage(*c)->Object_0);
    }
    object(fields)
}

/// Whether the candidate of a run was accepted.
pub open spec fn is_winner(s: StateView) -> bool {
    s.status == "success"@ && s.meta.outcome == Some("accepted"@)
}

/// A field with a number, if there is one.
pub open spec fn number_field_if(name: Seq<char>, n: Option<u64>) -> Seq<(Seq<char>, JsonView)> {
    match n {
        Some(x) => seq![(name, json::natural(x as nat))],
        None => Seq::empty(),
    }
}

/// A field with a difference, if there is one.
pub open spec fn delta_field_if(name: Seq<char>, n: Option<i64>) -> Seq<(Seq<char>, JsonView)> {
    match n {
        Some(x) => seq![(name, json::whole(x as int))],
        None => Seq::empty(),
    }
}

/// What is told of an accepted candidate.
pub open spec fn winner(s: StateView) -> JsonView {
    JsonView::Object(
        seq![("agent_id"@, JsonView::Text(s.agent)), ("file_path"@, JsonView::Text(s.file))]
            + fix::text_field_if("phase"@, s.meta.phase) + fix::text_field_if(
            "source_lineage"@,
            s.meta.source,
        ) + fix::text_field_if("reason"@, s.meta.reason) + number_field_if(
            "retry_count"@,
            s.meta.retries,
        ) + number_field_if("touched_lines"@, s.meta.touched) + delta_field_if(
            "byte_delta"@,
            s.meta.delta,
        ),
    )
}

/// What is told of the accepted candidates.
pub open spec fn winners(s: Seq<StateView>) -> Seq<JsonView>
    decreases s.len(),
{
    if s.len() == 0 {
        Seq::empty()
    } else if is_winner(s.last()) {
        winners(s.drop_last()).push(winner(s.last()))
    } else {
        winners(s.drop_last())
    }
}

fn list_number_if(name: &str, n: Option<u64>) -> (f: Vec<(String, Json)>)
    ensures
        json::fields_view(f@) == number_field_if(name@, n),
{
    let mut out: Vec<(String, Json)> = Vec::new();
    if n.is_some() {
        out.push(field(name, natural_or_null(n)));
    }
    proof {
        assert(json::fields_view(out@) =~= number_field_if(name@, n));
    }
    out
}

fn describe_winner(s: &CandidateLiveState) -> (r: Json)
    ensures
        r@ == winner(s@),
{
    let m = &s.metadata;
    let mut fields = vec![
        field("agent_id", text(s.agent_id.as_str())),
        field("file_path", text(s.file_path.as_str())),
    ];
    proof {
        assert(json::fields_view(fields@) =~= seq![
            ("agent_id"@, JsonView::Text(s@.agent)),
            ("file_path"@, JsonView::Text(s@.file)),
        ]);
    }
    append_fields(&mut fields, list_text_if("phase", &m.phase));
    append_fields(&mut fields, list_text_if("source_lineage", &m.source_lineage));
    append_fields(&mut fields, list_text_if("reason", &m.reason));
    append_fields(&mut fields, list_number_if("retry_count", m.retry_count));
    append_fields(&mut fields, list_number_if("touched_lines", m.touched_lines));
    let mut last: Vec<(String, Json)> = Vec::new();
    match m.byte_delta {
        Some(x) => {
            last.push(field("byte_delta", integer(x)));
        },
        None => {},
    }
    proof {
        assert(json::fields_view(last@) =~= delta_field_if("byte_delta"@, m.byte_delta));
    }
    append_fields(&mut fields, last);
    object(fields)
}

/// What is told of the accepted candidates.
pub fn artifact_winning_candidates(logs: &[CandidateLiveState]) -> (r: Vec<Json>)
    ensures
        json::items_view(r@) == winners(sorting::views(logs@)),
{
    let ghost all = sorting::views(logs@);
    let mut out: Vec<Json> = Vec::new();
    let mut i: usize = 0;
    proof {
        assert(json::items_view(out@) =~= winners(all.take(0)));
    }
    while i < logs.len()
        invariant
            all == sorting::views(logs@),
            i <= all.len(),
            json::items_view(out@) == winners(all.take(i as int)),
        decreases all.len() - i,
    {
        proof {
            assert(all.take(i + 1).drop_last() =~= all.take(i as int));
            assert(all.take(i + 1).last() == logs@[i as int]@);
        }
        let s = &logs[i];
        if same(s.status.as_str(), "success") && opt_same(&s.metadata.outcome, "accepted") {
            let ghost before = out@;
            out.push(describe_winner(s));
            proof {
                assert(json::items_view(out@) =~= json::items_view(before).push(winner(s@)));
            }
        }
        i = i + 1;
    }
    proof {
        assert(all.take(all.len() as int) =~= all);
    }
    out
}

/// Which files a run wrote besides those that it always writes.
#[derive(Debug, Clone, Copy, PartialEq, Eq, Structural)]
pub struct WrittenFiles {
    pub final_verification: bool,
    pub swarm_state: bool,
    pub diff_patch: bool,
}

/// The files in the bundle of a run, by name.
pub open spec fn run_artifacts(w: WrittenFiles) -> Seq<(Seq<char>, JsonView)> {
    seq![
        entry("agent_logs"@, "agent-logs.json"@),
        entry("assessments"@, "assessments.json"@),
        entry("audit_log"@, "audit.log"@),
        entry("benchmark_run"@, "benchmark-run.json"@),
    ] + entries_if(w.diff_patch, seq![entry("diff_patch"@, "diff.patch"@)]) + seq![
        entry("execution_summary"@, "execution-summary.json"@),
    ] + entries_if(
        w.final_verification,
        seq![entry("final_verification"@, "final-verification.json"@)],
    ) + seq![
        entry("grounded_context"@, "grounded-context.json"@),
        entry("metadata"@, "metadata.json"@),
        entry("plan"@, "plan.json"@),
    ] + entries_if(w.swarm_state, seq![entry("swarm_state"@, "swarm-state.json"@)]) + seq![
        entry("thermal_aggregates"@, "thermal-aggregates.json"@),
    ]
}

/// The files in the bundle of a run that ended early.
pub open spec fn aborted_artifacts() -> Seq<(Seq<char>, JsonView)> {
    seq![
        entry("audit_log"@, "audit.log"@),
        entry("benchmark_run"@, "benchmark-run.json"@),
        entry("metadata"@, "metadata.json"@),
    ]
}

fn file_entry(name: &str, file: &str) -> (r: (String, Json))
    ensures
        (r.0@, r.1@) == entry(name@, file@),
{
    field(name, text(file))
}

/// The files in the bundle of a run, by name; none are given for a run that ended early.
pub fn list_run_artifacts(written: Option<WrittenFiles>) -> (r: Vec<(String, Json)>)
    ensures
        json::fields_view(r@) == match written {
            Some(w) => run_artifacts(w),
            None => aborted_artifacts(),
        },
{
    match written {
        None => {
            let r = vec![
                file_entry("audit_log", "audit.log"),
                file_entry("benchmark_run", "benchmark-run.json"),
                file_entry("metadata", "metadata.json"),
            ];
            proof {
                assert(json::fields_view(r@) =~= aborted_artifacts());
            }
            r
        },
        Some(w) => {
            let mut r = vec![
                file_entry("agent_logs", "agent-logs.json"),
                file_entry("assessments", "assessments.json"),
                file_entry("audit_log", "audit.log"),
                file_entry("benchmark_run", "benchmark-run.json"),
            ];
            if w.diff_patch {
                r.push(file_entry("diff_patch", "diff.patch"));
            }
            r.push(file_entry("execution_summary", "execution-summary.json"));
            if w.final_verification {
                r.push(file_entry("final_verification", "final-verification.json"));
            }
            r.push(file_entry("grounded_context", "grounded-context.json"));
            r.push(file_entry("metadata", "metadata.json"));
            r.push(file_entry("plan", "plan.json"));
            if w.swarm_state {
                r.push(file_entry("swarm_state", "swarm-state.json"));
            }
            r.push(file_entry("thermal_aggregates", "thermal-aggregates.json"));
            proof {
                assert(json::fields_view(r@) =~= run_artifacts(w));
            }
            r
        },
    }
}

/// What is told of a failure, if there was one.
pub open spec fn rollup_of(r: FixRun) -> Option<Seq<char>> {
    match fix::failure_of(r) {
        Some(f) => Some(fix::failure_rollup(f)),
        None => None,
    }
}

/// A field with the accepted candidates, if there are any.
pub open spec fn winners_field(w: Seq<JsonView>) -> Seq<(Seq<char>, JsonView)> {
    if w.len() == 0 {
        Seq::empty()
    } else {
        seq![("winning_candidates"@, JsonView::List(w))]
    }
}

/// The summary of a run.
pub open spec fn run_summary(
    r: FixRun,
    root: Seq<char>,
    logs: Seq<StateView>,
    artifacts: Seq<(Seq<char>, JsonView)>,
) -> JsonView {
    JsonView::Object(
        seq![
            ("run_kind"@, JsonView::Text("fix"@)),
            ("artifact_root"@, JsonView::Text(root)),
            (
                "headline"@,
                JsonView::Text(
                    fix::fix_headline(
                        fix::outcome_of(r),
                        r.final_bundle_verified,
                        fix::has_patch(r),
                    ),
                ),
            ),
            ("outcome"@, JsonView::Text(fix::outcome_of(r))),
        ] + fix::text_field_if("failure_reason_rollup"@, rollup_of(r)) + seq![
            ("description"@, JsonView::Text(r.description@)),
            ("duration_ms"@, json::natural(r.times.duration_ms as nat)),
            ("applied"@, JsonView::Bool(r.applied)),
            ("final_bundle_verified"@, JsonView::Bool(r.final_bundle_verified)),
            ("accepted_patch"@, JsonView::Bool(fix::has_patch(r))),
            ("accepted_patch_bytes"@, json::opt_natural(r.accepted_patch_bytes)),
            ("sandbox_run_root"@, json::opt_text(chars::opt_text(r.sandbox_run_root))),
            ("counts"@, count_summary(r.counts)),
            ("candidate_lineage"@, lineage(r.counts)),
            ("time_to_first_candidate_ms"@, json::opt_natural(r.time_to_first_candidate_ms)),
            ("time_to_verified_repair_ms"@, json::opt_natural(r.time_to_verified_repair_ms)),
        ] + winners_field(winners(logs)) + seq![("artifacts"@, JsonView::Object(artifacts))],
    )
}

/// The summary of a run.
pub fn fix_summary_index(
    r: &FixRun,
    artifact_root: &str,
    logs: &[CandidateLiveState],
    written: Option<WrittenFiles>,
) -> (j: Json)
    ensures
        j@ == run_summary(
            *r,
            artifact_root@,
            sorting::views(logs@),
            match written {
                Some(w) => run_artifacts(w),
                None => aborted_artifacts(),
            },
        ),
{
    let outcome = r.outcome();
    let patched = r.accepted_patch();
    let mut fields = vec![
        field("run_kind", text("fix")),
        field("artifact_root", text(artifact_root)),
        field(
            "headline",
            text(fix_summary_headline(outcome, r.final_bundle_verified, patched)),
        ),
        field("outcome", text(outcome)),
    ];
    let rollup = match r.failure_attribution() {
        Some(f) => Some(fix_failure_reason_rollup(f.as_str())),
        None => None,
    };
    append_fields(&mut fields, list_text_if("failure_reason_rollup", &rollup));
    let more = vec![
        field("description", text(r.description.as_str())),
        field("duration_ms", natural_or_null(Some(r.times.duration_ms))),
        field("applied", Json::Bool(r.applied)),
        field("final_bundle_verified", Json::Bool(r.final_bundle_verified)),
        field("accepted_patch", Json::Bool(patched)),
        field("accepted_patch_bytes", natural_or_null(r.accepted_patch_bytes)),
        field("sandbox_run_root", text_or_null(&r.sandbox_run_root)),
        field("counts", artifact_count_summary(&r.counts)),
        field("candidate_lineage", artifact_candidate_lineage_summary(&r.counts)),
        field("time_to_first_candidate_ms", natural_or_null(r.time_to_first_candidate_ms)),
        field("time_to_verified_repair_ms", natural_or_null(r.time_to_verified_repair_ms)),
    ];
    append_fields(&mut fields, more);
    let won = artifact_winning_candidates(logs);
    let ghost all = winners(sorting::views(logs@));
    let mut last: Vec<(String, Json)> = Vec::new();
    if won.len() > 0 {
        last.push(field("winning_candidates", list(won)));
    }
    proof {
        assert(all.len() == won@.len());
        assert(json::fields_view(last@) =~= winners_field(all));
    }
    append_fields(&mut fields, last);
    let end = vec![field("artifacts", object(list_run_artifacts(written)))];
    append_fields(&mut fields, end);
    proof {
        assert(json::fields_view(fields@) =~= run_summary(
            *r,
            artifact_root@,
            sorting::views(logs@),
            match written {
                Some(w) => run_artifacts(w),
                None => aborted_artifacts(),
            },
        )->Object_0);
    }
    object(fields)
}

/// What is told when a run begins.
pub open spec fn started(r: FixRequest, root: Seq<char>, s: SecurityView) -> JsonView {
    JsonView::Object(
        seq![
            ("description"@, JsonView::Text(r.description@)),
            ("max_agents"@, json::natural(r.max_agents as nat)),
            ("max_cost"@, JsonView::Number(fix::amount(r.max_cost as int))),
            ("artifact_root"@, JsonView::Text(root)),
            ("security"@, guard::security_json(s)),
        ],
    )
}

/// What is told when a run begins.
pub fn fix_started_details(r: &FixRequest, artifact_root: &str, s: &SecurityRuntimeContext) -> (j:
    Json)
    ensures
        j@ == started(*r, artifact_root@, s@),
{
    let fields = vec![
        field("description", text(r.description.as_str())),
        field("max_agents", count(r.max_agents)),
        field("max_cost", cost_json(r.max_cost)),
        field("artifact_root", text(artifact_root)),
        field("security", s.to_json()),
    ];
    proof {
        assert(json::fields_view(fields@) =~= started(*r, artifact_root@, s@)->Object_0);
    }
    object(fields)
}

/// What is told when a run ends early; not every listener is told where its bundle is.
pub open spec fn failed(
    description: Seq<char>,
    root: Option<Seq<char>>,
    error: Seq<char>,
    s: SecurityView,
) -> JsonView {
    JsonView::Object(
        seq![("description"@, JsonView::Text(description))] + fix::text_field_if(
            "artifact_root"@,
            root,
        ) + seq![("error"@, JsonView::Text(error)), ("security"@, guard::security_json(s))],
    )
}

/// What is told when a run ends early; not every listener is told where its bundle is.
pub fn fix_failed_details(
    description: &str,
    artifact_root: &Option<String>,
    error: &str,
    s: &SecurityRuntimeContext,
) -> (j: Json)
    ensures
        j@ == failed(description@, chars::opt_text(*artifact_root), error@, s@),
{
    let mut fields = vec![field("description", text(description))];
    proof {
        assert(json::fields_view(fields@) =~= seq![("description"@, JsonView::Text(description@))]);
    }
    append_fields(&mut fields, list_text_if("artifact_root", artifact_root));
    let last = vec![field("error", text(error)), field("security", s.to_json())];
    append_fields(&mut fields, last);
    proof {
        assert(json::fields_view(fields@) =~= failed(
            description@,
            chars::opt_text(*artifact_root),
            error@,
            s@,
        )->Object_0);
    }
    object(fields)
}

/// What is told when a stage begins.
pub open spec fn stage_told(s: FixStage, root: Seq<char>) -> JsonView {
    JsonView::Object(
        seq![
            ("stage"@, JsonView::Text(fix::stage_name(s))),
            ("artifact_root"@, JsonView::Text(root)),
        ],
    )
}

/// What is told when a stage begins.
pub fn fix_stage_details(s: FixStage, artifact_root: &str) -> (j: Json)
    ensures
        j@ == stage_told(s, artifact_root@),
{
    let fields = vec![
        field("stage", text(s.as_str())),
        field("artifact_root", text(artifact_root)),
    ];
    proof {
        assert(json::fields_view(fields@) =~= stage_told(s, artifact_root@)->Object_0);
    }
    object(fields)
}

/// What is told of a plan; the last field says where, or under which protection.
pub open spec fn plan_told(
    steps: nat,
    cost: int,
    tokens: Option<i64>,
    last: (Seq<char>, JsonView),
) -> JsonView {
    JsonView::Object(
        seq![
            ("plan_steps"@, json::natural(steps)),
            ("estimated_cost_usd"@, JsonView::Number(fix::amount(cost))),
            ("estimated_tokens"@, json::opt_whole(tokens)),
            last,
        ],
    )
}

/// What is told of a plan; the last field says where, or under which protection.
pub fn plan_ready_details(
    steps: usize,
    estimated_cost: i128,
    estimated_tokens: Option<i64>,
    last: (String, Json),
) -> (j: Json)
    ensures
        j@ == plan_told(
            steps as nat,
            estimated_cost as int,
            estimated_tokens,
            (last.0@, last.1@),
        ),
{
    let fields = vec![
        field("plan_steps", count(steps)),
        field("estimated_cost_usd", cost_json(estimated_cost)),
        field("estimated_tokens", whole_or_null(estimated_tokens)),
        last,
    ];
    proof {
        assert(json::fields_view(fields@) =~= plan_told(
            steps as nat,
            estimated_cost as int,
            estimated_tokens,
            (last.0@, last.1@),
        )->Object_0);
    }
    object(fields)
}

/// What is told of the steps of a run; not every listener is told where its bundle is.
pub open spec fn execution_told(
    r: StepExecutionSummary,
    root: Option<Seq<char>>,
    s: SecurityView,
) -> JsonView {
    JsonView::Object(
        seq![
            ("accepted_steps"@, json::natural(r.accepted as nat)),
            ("rejected_steps"@, json::natural(r.rejected as nat)),
            ("verification_failures"@, json::natural(r.verification_failures as nat)),
            ("applied"@, JsonView::Bool(r.applied)),
            ("final_bundle_verified"@, JsonView::Bool(r.final_bundle_verified)),
        ] + fix::text_field_if("artifact_root"@, root) + seq![
            ("security"@, guard::security_json(s)),
        ],
    )
}

/// What is told of the steps of a run; not every listener is told where its bundle is.
pub fn execution_complete_details(
    r: &StepExecutionSummary,
    artifact_root: &Option<String>,
    s: &SecurityRuntimeContext,
) -> (j: Json)
    ensures
        j@ == execution_told(*r, chars::opt_text(*artifact_root), s@),
{
    let mut fields = vec![
        field("accepted_steps", count(r.accepted)),
        field("rejected_steps", count(r.rejected)),
        field("verification_failures", count(r.verification_failures)),
        field("applied", Json::Bool(r.applied)),
        field("final_bundle_verified", Json::Bool(r.final_bundle_verified)),
    ];
    append_fields(&mut fields, list_text_if("artifact_root", artifact_root));
    let last = vec![field("security", s.to_json())];
    append_fields(&mut fields, last);
    proof {
        assert(json::fields_view(fields@) =~= execution_told(
            *r,
            chars::opt_text(*artifact_root),
            s@,
        )->Object_0);
    }
    object(fields)
}

/// What is told when a run comes to its end.
pub open spec fn completed(r: FixRun, root: Seq<char>) -> JsonView {
    JsonView::Object(
        seq![
            ("duration_ms"@, json::natural(r.times.duration_ms as nat)),
            ("total_cost_usd"@, JsonView::Number(fix::amount(r.total_cost as int))),
            ("budget_remaining_usd"@, JsonView::Number(fix::amount(r.budget_remaining as int))),
            ("artifact_root"@, JsonView::Text(root)),
            ("security"@, guard::security_json(r.security@)),
        ],
    )
}

/// What is told when a run comes to its end.
pub fn fix_completed_details(r: &FixRun, artifact_root: &str) -> (j: Json)
    ensures
        j@ == completed(*r, artifact_root@),
{
    let fields = vec![
        field("duration_ms", natural_or_null(Some(r.times.duration_ms))),
        field("total_cost_usd", cost_json(r.total_cost)),
        field("budget_remaining_usd", cost_json(r.budget_remaining)),
        field("artifact_root", text(artifact_root)),
        field("security", r.security.to_json()),
    ];
    proof {
        assert(json::fields_view(fields@) =~= completed(*r, artifact_root@)->Object_0);
    }
    object(fields)
}

/// What is shown of the cost of a plan.
pub open spec fn estimate(cost: int, tokens: Option<i64>) -> Seq<char> {
    "$"@ + transport::dollars(cost) + (match tokens {
        Some(n) => " | tokens: "@ + number::decimal_int(n as int),
        None => Seq::<char>::empty(),
    })
}

/// What is shown of the cost of a plan.
pub fn plan_estimate(cost: i128, tokens: Option<i64>) -> (r: String)
    ensures
        r@ == estimate(cost as int, tokens),
{
    let mut s = concat2("$", format_dollars(cost).as_str());
    let ghost before = s@;
    match tokens {
        Some(n) => {
            let part = concat2(" | tokens: ", format_i64(n).as_str());
            s.append(part.as_str());
        },
        None => {},
    }
    proof {
        assert(s@ =~= before + (match tokens {
            Some(n) => " | tokens: "@ + number::decimal_int(n as int),
            None => Seq::<char>::empty(),
        }));
    }
    s
}

/// The lines that are shown of the steps of a run and of its cost.
pub open spec fn execution_shown(r: StepExecutionSummary, cost: int, left: int) -> Seq<Seq<char>> {
    seq![
        "\nExecution summary:"@,
        "  Accepted steps: "@ + number::decimal(r.accepted as nat),
        "  Rejected steps: "@ + number::decimal(r.rejected as nat),
        "  Verification failures: "@ + number::decimal(r.verification_failures as nat),
        "\nCost: $"@ + transport::dollars(cost),
        "Budget remaining: $"@ + transport::dollars(left),
    ]
}

/// The lines that are shown of the steps of a run and of its cost.
pub fn execution_lines(r: &StepExecutionSummary, cost: i128, left: i128) -> (v: Vec<String>)
    ensures
        chars::texts(v@) == execution_shown(*r, cost as int, left as int),
{
    let v = vec![
        own("\nExecution summary:"),
        concat2("  Accepted steps: ", format_usize(r.accepted).as_str()),
        concat2("  Rejected steps: ", format_usize(r.rejected).as_str()),
        concat2("  Verification failures: ", format_usize(r.verification_failures).as_str()),
        concat2("\nCost: $", format_dollars(cost).as_str()),
        concat2("Budget remaining: $", format_dollars(left).as_str()),
    ];
    proof {
        assert(chars::texts(v@) =~= execution_shown(*r, cost as int, left as int));
    }
    v
}

proof fn lemma_winner_is_told(s: Seq<StateView>, i: int)
    requires
        0 <= i < s.len(),
        is_winner(s[i]),
    ensures
        winners(s).contains(winner(s[i])),
    decreases s.len(),
{
    let front = winners(s.drop_last());
    let all = winners(s);
    if i < s.len() - 1 {
        lemma_winner_is_told(s.drop_last(), i);
        assert(s.drop_last()[i] == s[i]);
        let j = choose|j: int| 0 <= j < front.len() && front[j] == winner(s[i]);
        assert(all[j] == winner(s[i]));
    } else {
        assert(all[all.len() - 1] == winner(s[i]));
    }
}

/// Every accepted candidate is told of, and of no run more than once.
pub proof fn law_winners_are_told(s: Seq<StateView>, i: int)
    requires
        0 <= i < s.len(),
    ensures
        is_winner(s[i]) ==> winners(s).contains(winner(s[i])),
        winners(s).len() <= s.len(),
    decreases s.len(),
{
    if is_winner(s[i]) {
        lemma_winner_is_told(s, i);
    }
    lemma_winners_are_runs(s);
}

proof fn lemma_winners_are_runs(s: Seq<StateView>)
    ensures
        winners(s).len() <= s.len(),
    decreases s.len(),
{
    if s.len() > 0 {
        lemma_winners_are_runs(s.drop_last());
    }
}

} // verus!
