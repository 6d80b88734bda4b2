//! What is told and recorded of watching.
use crate::cli::guard;
use crate::cli::guard::{SecurityRuntimeContext, SecurityView};
use crate::cli::watch;
use crate::cli::watch::{
    describe_exit, failure_or_null, truncate_watch_output, ResultView, WatchCommandResult,
};
use crate::cli::watch_cycle;
use crate::cli::watch_cycle::{
    watch_decision_succeeded, watch_summary_headline, CycleView, RepairView, WatchCycle,
    WatchDecision, WatchRepairRecord,
};
use crate::json;
use crate::json::{
    count, field, integer_or_null, natural_or_null, object, text, text_or_null, Json, JsonView,
};
use crate::text::bytes;
use crate::text::bytes::count_bytes;
use crate::text::chars;
use crate::text::chars::{concat2, concat3, own};
use crate::verification::secrets;
use crate::verification::secrets::{redact_secrets, EnvValue, Masking};
use vstd::prelude::*;
use vstd::string::*;

verus! {

broadcast use chars::lemma_texts_push, chars::lemma_texts_empty;

/// Two lists of fields, one behind the other.
pub fn append_fields(fields: &mut Vec<(String, Json)>, more: Vec<(String, Json)>)
    ensures
        json::fields_view(final(fields)@) == json::fields_view(old(fields)@) + json::fields_view(
            more@,
        ),
{
    let ghost before = fields@;
    let mut more = more;
    let ghost tail = more@;
    fields.append(&mut more);
    proof {
        assert(json::fields_view(fields@) =~= json::fields_view(before) + json::fields_view(tail));
    }
}

/// A record of a repair in JSON.
pub open spec fn repair_fields(r: RepairView) -> Seq<(Seq<char>, JsonView)> {
    seq![
        ("supported"@, JsonView::Bool(r.supported)),
        ("verifier_command"@, json::opt_text(r.verifier)),
        ("fix_artifact_root"@, json::opt_text(r.artifacts)),
        ("sandbox_run_root"@, json::opt_text(r.sandbox)),
        ("accepted_steps"@, json::natural(r.accepted)),
        ("rejected_steps"@, json::natural(r.rejected)),
        ("verification_failures"@, json::natural(r.failures)),
        ("final_bundle_verified"@, JsonView::Bool(r.verified)),
        ("applied"@, JsonView::Bool(r.applied)),
        ("error"@, json::opt_text(r.error)),
    ]
}

/// A record of a repair in JSON, or null.
pub open spec fn repair_json(r: Option<RepairView>) -> JsonView {
    match r {
        Some(x) => JsonView::Object(repair_fields(x)),
        None => JsonView::Null,
    }
}

fn list_repair(r: &WatchRepairRecord) -> (f: Vec<(String, Json)>)
    ensures
        json::fields_view(f@) == repair_fields(r@),
{
    let fields = vec![
        field("supported", Json::Bool(r.supported)),
        field("verifier_command", text_or_null(&r.verifier_command)),
        field("fix_artifact_root", text_or_null(&r.fix_artifact_root)),
        field("sandbox_run_root", text_or_null(&r.sandbox_run_root)),
        field("accepted_steps", count(r.accepted_steps)),
        field("rejected_steps", count(r.rejected_steps)),
        field("verification_failures", count(r.verification_failures)),
        field("final_bundle_verified", Json::Bool(r.final_bundle_verified)),
        field("applied", Json::Bool(r.applied)),
        field("error", text_or_null(&r.error)),
    ];
    proof {
        assert(json::fields_view(fields@) =~= repair_fields(r@));
    }
    fields
}

/// A record of a repair in JSON, or null.
pub fn repair_or_null(r: &Option<WatchRepairRecord>) -> (j: Json)
    ensures
        j@ == repair_json(watch_cycle::opt_repair(*r)),
{
    match r {
        Some(x) => object(list_repair(x)),
        None => Json::Null,
    }
}

/// A run in JSON, or null.
pub open spec fn opt_result_json(r: Option<ResultView>) -> JsonView {
    match r {
        Some(x) => watch::result_json(x),
        None => JsonView::Null,
    }
}

fn result_or_null(r: &Option<WatchCommandResult>) -> (j: Json)
    ensures
        j@ == opt_result_json(watch_cycle::opt_result(*r)),
{
    match r {
        Some(x) => x.to_json(),
        None => Json::Null,
    }
}

/// When a cycle ran and for how long.
#[derive(Debug, Clone, PartialEq, Eq)]
pub struct RunTimes {
    pub started_at: String,
    pub finished_at: String,
    pub duration_ms: u64,
}

/// A finished cycle in JSON.
pub open spec fn cycle_json(
    c: CycleView,
    s: SecurityView,
    t: RunTimes,
    env: Seq<(Seq<char>, Seq<char>)>,
) -> JsonView {
    JsonView::Object(
        seq![
            ("command"@, JsonView::Text(secrets::masked(Masking::Lines, c.command, env))),
            ("repair_requested"@, JsonView::Bool(c.repair_requested)),
            ("decision"@, JsonView::Text(watch_cycle::decision_name(c.decision.unwrap()))),
            ("security"@, guard::security_json(s)),
            ("initial_run"@, opt_result_json(c.initial)),
            ("confirmation_run"@, opt_result_json(c.confirmation)),
            ("repair"@, repair_json(c.repair)),
            ("started_at"@, JsonView::Text(t.started_at@)),
            ("finished_at"@, JsonView::Text(t.finished_at@)),
            ("duration_ms"@, json::natural(t.duration_ms as nat)),
        ],
    )
}

/// A finished cycle in JSON.
pub fn watch_run_json(
    c: &WatchCycle,
    decision: WatchDecision,
    s: &SecurityRuntimeContext,
    t: &RunTimes,
    env: &[EnvValue],
) -> (r: Json)
    requires
        c@.decision == Some(decision),
    ensures
        r@ == cycle_json(c@, s@, *t, secrets::env_view(env@)),
{
    let fields = vec![
        field("command", text(redact_secrets(c.command.as_str(), env).as_str())),
        field("repair_requested", Json::Bool(c.repair_requested)),
        field("decision", text(decision.as_str())),
        field("security", s.to_json()),
        field("initial_run", result_or_null(&c.initial_run)),
        field("confirmation_run", result_or_null(&c.confirmation_run)),
        field("repair", repair_or_null(&c.repair)),
        field("started_at", text(t.started_at.as_str())),
        field("finished_at", text(t.finished_at.as_str())),
        field("duration_ms", natural_or_null(Some(t.duration_ms))),
    ];
    proof {
        assert(json::fields_view(fields@) =~= cycle_json(
            c@,
            s@,
            *t,
            secrets::env_view(env@),
        )->Object_0);
    }
    object(fields)
}

/// A file of a bundle under its name.
pub open spec fn entry(name: Seq<char>, file: Seq<char>) -> (Seq<char>, JsonView) {
    (name, JsonView::Text(file))
}

/// Whether the failures of a run are known.
pub open spec fn has_failure(r: Option<ResultView>) -> bool {
    r is Some && r.unwrap().failure is Some
}

/// Whether a repair left its own bundle.
pub open spec fn has_bundle(r: Option<RepairView>) -> bool {
    r is Some && r.unwrap().artifacts is Some
}

/// The entries if they are wanted.
pub open spec fn entries_if(wanted: bool, s: Seq<(Seq<char>, JsonView)>) -> Seq<
    (Seq<char>, JsonView),
> {
    if wanted {
        s
    } else {
        Seq::empty()
    }
}

/// The files in the bundle of a cycle, by name.
pub open spec fn cycle_artifacts(c: CycleView) -> Seq<(Seq<char>, JsonView)> {
    seq![entry("audit_log"@, "audit.log"@)] + entries_if(
        has_failure(c.confirmation),
        seq![entry("confirmation_failure"@, "confirmation.failure.json"@)],
    ) + entries_if(
        c.confirmation is Some,
        seq![
            entry("confirmation_stderr"@, "confirmation.stderr.txt"@),
            entry("confirmation_stdout"@, "confirmation.stdout.txt"@),
        ],
    ) + entries_if(
        has_failure(c.initial),
        seq![entry("initial_failure"@, "initial.failure.json"@)],
    ) + seq![
        entry("initial_stderr"@, "initial.stderr.txt"@),
        entry("initial_stdout"@, "initial.stdout.txt"@),
    ] + entries_if(
        has_bundle(c.repair),
        seq![
            entry("repair_benchmark_run"@, "repair/benchmark-run.json"@),
            entry("repair_bundle"@, "repair"@),
            entry("repair_execution_summary"@, "repair/execution-summary.json"@),
            entry("repair_metadata"@, "repair/metadata.json"@),
            entry("repair_plan"@, "repair/plan.json"@),
            entry("repair_summary"@, "repair/summary-index.json"@),
        ],
    ) + seq![entry("watch_record"@, "watch.json"@)]
}

fn file_entry(name: &str, file: &str) -> (r: (String, Json))
    ensures
        (r.0@, r.1@) == entry(name@, file@),
{
    field(name, text(file))
}

fn knows_failure(r: &Option<WatchCommandResult>) -> (b: bool)
    ensures
        b == has_failure(watch_cycle::opt_result(*r)),
{
    match r {
        Some(x) => x.parsed_failure.is_some(),
        None => false,
    }
}

fn list_artifacts(c: &WatchCycle) -> (r: Vec<(String, Json)>)
    ensures
        json::fields_view(r@) == cycle_artifacts(c@),
{
    let mut out: Vec<(String, Json)> = vec![file_entry("audit_log", "audit.log")];
    proof {
        assert(json::fields_view(out@) =~= seq![entry("audit_log"@, "audit.log"@)]);
    }
    let mut part: Vec<(String, Json)> = Vec::new();
    if knows_failure(&c.confirmation_run) {
        part.push(file_entry("confirmation_failure", "confirmation.failure.json"));
    }
    proof {
        assert(json::fields_view(part@) =~= entries_if(
            has_failure(c@.confirmation),
            seq![entry("confirmation_failure"@, "confirmation.failure.json"@)],
        ));
    }
    append_fields(&mut out, part);
    let mut part: Vec<(String, Json)> = Vec::new();
    if c.confirmation_run.is_some() {
        part.push(file_entry("confirmation_stderr", "confirmation.stderr.txt"));
        part.push(file_entry("confirmation_stdout", "confirmation.stdout.txt"));
    }
    proof {
        assert(json::fields_view(part@) =~= entries_if(
            c@.confirmation is Some,
            seq![
                entry("confirmation_stderr"@, "confirmation.stderr.txt"@),
                entry("confirmation_stdout"@, "confirmation.stdout.txt"@),
            ],
        ));
    }
    append_fields(&mut out, part);
    let mut part: Vec<(String, Json)> = Vec::new();
    if knows_failure(&c.initial_run) {
        part.push(file_entry("initial_failure", "initial.failure.json"));
    }
    proof {
        assert(json::fields_view(part@) =~= entries_if(
            has_failure(c@.initial),
            seq![entry("initial_failure"@, "initial.failure.json"@)],
        ));
    }
    append_fields(&mut out, part);
    let part: Vec<(String, Json)> = vec![
        file_entry("initial_stderr", "initial.stderr.txt"),
        file_entry("initial_stdout", "initial.stdout.txt"),
    ];
    proof {
        assert(json::fields_view(part@) =~= seq![
            entry("initial_stderr"@, "initial.stderr.txt"@),
            entry("initial_stdout"@, "initial.stdout.txt"@),
        ]);
    }
    append_fields(&mut out, part);
    let bundle = match &c.repair {
        Some(r) => r.fix_artifact_root.is_some(),
        None => false,
    };
    let mut part: Vec<(String, Json)> = Vec::new();
    if bundle {
        part.push(file_entry("repair_benchmark_run", "repair/benchmark-run.json"));
        part.push(file_entry("repair_bundle", "repair"));
        part.push(file_entry("repair_execution_summary", "repair/execution-summary.json"));
        part.push(file_entry("repair_metadata", "repair/metadata.json"));
        part.push(file_entry("repair_plan", "repair/plan.json"));
        part.push(file_entry("repair_summary", "repair/summary-index.json"));
    }
    proof {
        assert(json::fields_view(part@) =~= entries_if(
            has_bundle(c@.repair),
            seq![
                entry("repair_benchmark_run"@, "repair/benchmark-run.json"@),
                entry("repair_bundle"@, "repair"@),
                entry("repair_execution_summary"@, "repair/execution-summary.json"@),
                entry("repair_metadata"@, "repair/metadata.json"@),
                entry("repair_plan"@, "repair/plan.json"@),
                entry("repair_summary"@, "repair/summary-index.json"@),
            ],
        ));
    }
    append_fields(&mut out, part);
    let part: Vec<(String, Json)> = vec![file_entry("watch_record", "watch.json")];
    proof {
        assert(json::fields_view(part@) =~= seq![entry("watch_record"@, "watch.json"@)]);
    }
    append_fields(&mut out, part);
    out
}

/// What is told of a run in short.
pub open spec fn phase_summary(r: ResultView) -> JsonView {
    JsonView::Object(
        seq![
            ("success"@, JsonView::Bool(r.success)),
            ("exit_code"@, json::opt_integer(r.exit_code)),
            ("parsed_failure"@, JsonView::Bool(r.failure is Some)),
        ],
    )
}

/// What is told of a run in short.
pub fn watch_phase_summary(result: &WatchCommandResult) -> (r: Json)
    ensures
        r@ == phase_summary(result@),
{
    let fields = vec![
        field("success", Json::Bool(result.success)),
        field("exit_code", integer_or_null(result.exit_code)),
        field("parsed_failure", Json::Bool(result.parsed_failure.is_some())),
    ];
    proof {
        assert(json::fields_view(fields@) =~= phase_summary(result@)->Object_0);
    }
    object(fields)
}

/// A field with what is told of a run in short, if there was one.
pub open spec fn phase_field(name: Seq<char>, r: Option<ResultView>) -> Seq<
    (Seq<char>, JsonView),
> {
    match r {
        Some(x) => seq![(name, phase_summary(x))],
        None => Seq::empty(),
    }
}

/// A field with what came of a repair, if there was one.
pub open spec fn repair_summary(d: WatchDecision, r: Option<RepairView>) -> Seq<
    (Seq<char>, JsonView),
> {
    match r {
        Some(x) => seq![
            (
                "repair"@,
                JsonView::Object(
                    seq![("headline"@, JsonView::Text(watch_cycle::decision_headline(d)))]
                        + repair_fields(x),
                ),
            ),
        ],
        None => Seq::empty(),
    }
}

/// The summary of a finished cycle.
pub open spec fn cycle_summary(
    c: CycleView,
    root: Seq<char>,
    duration_ms: u64,
    env: Seq<(Seq<char>, Seq<char>)>,
) -> JsonView {
    let d = c.decision.unwrap();
    JsonView::Object(
        seq![
            ("run_kind"@, JsonView::Text("watch"@)),
            ("artifact_root"@, JsonView::Text(root)),
            ("headline"@, JsonView::Text(watch_cycle::decision_headline(d))),
            ("decision"@, JsonView::Text(watch_cycle::decision_name(d))),
            ("command"@, JsonView::Text(secrets::masked(Masking::Lines, c.command, env))),
            ("repair_requested"@, JsonView::Bool(c.repair_requested)),
            ("duration_ms"@, json::natural(duration_ms as nat)),
        ] + phase_field("initial_run"@, c.initial) + phase_field(
            "confirmation_run"@,
            c.confirmation,
        ) + repair_summary(d, c.repair) + seq![
            ("artifacts"@, JsonView::Object(cycle_artifacts(c))),
        ],
    )
}

fn list_phase(name: &str, r: &Option<WatchCommandResult>) -> (f: Vec<(String, Json)>)
    ensures
        json::fields_view(f@) == phase_field(name@, watch_cycle::opt_result(*r)),
{
    let mut out: Vec<(String, Json)> = Vec::new();
    match r {
        Some(x) => {
            out.push(field(name, watch_phase_summary(x)));
        },
        None => {},
    }
    proof {
        assert(json::fields_view(out@) =~= phase_field(name@, watch_cycle::opt_result(*r)));
    }
    out
}

fn list_repair_summary(d: WatchDecision, r: &Option<WatchRepairRecord>) -> (f: Vec<(String, Json)>)
    ensures
        json::fields_view(f@) == repair_summary(d, watch_cycle::opt_repair(*r)),
{
    let mut out: Vec<(String, Json)> = Vec::new();
    match r {
        Some(x) => {
            let mut fields: Vec<(String, Json)> = vec![
                field("headline", text(watch_summary_headline(d))),
            ];
            proof {
                assert(json::fields_view(fields@) =~= seq![
                    ("headline"@, JsonView::Text(watch_cycle::decision_headline(d))),
                ]);
            }
            append_fields(&mut fields, list_repair(x));
            out.push(field("repair", object(fields)));
        },
        None => {},
    }
    proof {
        assert(json::fields_view(out@) =~= repair_summary(d, watch_cycle::opt_repair(*r)));
    }
    out
}

/// The summary of a finished cycle.
pub fn watch_summary_index(
    c: &WatchCycle,
    decision: WatchDecision,
    artifact_root: &str,
    duration_ms: u64,
    env: &[EnvValue],
) -> (r: Json)
    requires
        c@.decision == Some(decision),
    ensures
        r@ == cycle_summary(c@, artifact_root@, duration_ms, secrets::env_view(env@)),
{
    let ghost e = secrets::env_view(env@);
    let mut fields = vec![
        field("run_kind", text("watch")),
        field("artifact_root", text(artifact_root)),
        field("headline", text(watch_summary_headline(decision))),
        field("decision", text(decision.as_str())),
        field("command", text(redact_secrets(c.command.as_str(), env).as_str())),
        field("repair_requested", Json::Bool(c.repair_requested)),
        field("duration_ms", natural_or_null(Some(duration_ms))),
    ];
    proof {
        assert(json::fields_view(fields@) =~= seq![
            ("run_kind"@, JsonView::Text("watch"@)),
            ("artifact_root"@, JsonView::Text(artifact_root@)),
            ("headline"@, JsonView::Text(watch_cycle::decision_headline(decision))),
            ("decision"@, JsonView::Text(watch_cycle::decision_name(decision))),
            ("command"@, JsonView::Text(secrets::masked(Masking::Lines, c@.command, e))),
            ("repair_requested"@, JsonView::Bool(c@.repair_requested)),
            ("duration_ms"@, json::natural(duration_ms as nat)),
        ]);
    }
    append_fields(&mut fields, list_phase("initial_run", &c.initial_run));
    append_fields(&mut fields, list_phase("confirmation_run", &c.confirmation_run));
    append_fields(&mut fields, list_repair_summary(decision, &c.repair));
    let last = vec![field("artifacts", object(list_artifacts(c)))];
    proof {
        assert(json::fields_view(last@) =~= seq![
            ("artifacts"@, JsonView::Object(cycle_artifacts(c@))),
        ]);
    }
    append_fields(&mut fields, last);
    object(fields)
}

/// The files that a cycle takes over from the bundle of its repair.
pub open spec fn copied() -> Seq<Seq<char>> {
    seq![
        "diff.patch"@,
        "execution-summary.json"@,
        "final-verification.json"@,
        "metadata.json"@,
        "benchmark-run.json"@,
        "summary-index.json"@,
        "plan.json"@,
        "grounded-context.json"@,
    ]
}

/// The files that a cycle takes over from the bundle of its repair.
pub fn copied_repair_artifacts() -> (r: Vec<String>)
    ensures
        chars::texts(r@) == copied(),
{
    let r = vec![
        own("diff.patch"),
        own("execution-summary.json"),
        own("final-verification.json"),
        own("metadata.json"),
        own("benchmark-run.json"),
        own("summary-index.json"),
        own("plan.json"),
        own("grounded-context.json"),
    ];
    proof {
        assert(chars::texts(r@) =~= copied());
    }
    r
}

/// What is told when watching begins.
pub open spec fn started_details(
    line: Seq<char>,
    continuous: bool,
    repair: bool,
    s: SecurityView,
    env: Seq<(Seq<char>, Seq<char>)>,
) -> JsonView {
    JsonView::Object(
        seq![
            ("command"@, JsonView::Text(secrets::masked(Masking::Lines, line, env))),
            ("continuous"@, JsonView::Bool(continuous)),
            ("repair_requested"@, JsonView::Bool(repair)),
            ("repair_supported"@, JsonView::Bool(watch::repair_target(line) is Some)),
            ("security"@, guard::security_json(s)),
        ],
    )
}

/// What is told when watching begins.
pub fn watch_started_details(
    command: &str,
    continuous: bool,
    repair: bool,
    s: &SecurityRuntimeContext,
    env: &[EnvValue],
) -> (r: Json)
    ensures
        r@ == started_details(command@, continuous, repair, s@, secrets::env_view(env@)),
{
    let supported = watch::classify_rust_repair_command(command).is_some();
    let fields = vec![
        field("command", text(redact_secrets(command, env).as_str())),
        field("continuous", Json::Bool(continuous)),
        field("repair_requested", Json::Bool(repair)),
        field("repair_supported", Json::Bool(supported)),
        field("security", s.to_json()),
    ];
    proof {
        assert(json::fields_view(fields@) =~= started_details(
            command@,
            continuous,
            repair,
            s@,
            secrets::env_view(env@),
        )->Object_0);
    }
    object(fields)
}

/// What is told of the end of watching.
pub open spec fn completed_details(
    shown: Seq<char>,
    cycles: nat,
    d: WatchDecision,
    root: Seq<char>,
) -> JsonView {
    JsonView::Object(
        seq![
            ("command"@, JsonView::Text(shown)),
            ("continuous"@, JsonView::Bool(false)),
            ("cycles"@, json::natural(cycles)),
            ("decision"@, JsonView::Text(watch_cycle::decision_name(d))),
            ("artifact_root"@, JsonView::Text(root)),
            ("success"@, JsonView::Bool(watch_cycle::succeeded(d))),
        ],
    )
}

/// What is told of the end of watching.
pub fn watch_completed_details(
    shown_command: &str,
    cycles: usize,
    decision: WatchDecision,
    artifact_root: &str,
) -> (r: Json)
    ensures
        r@ == completed_details(shown_command@, cycles as nat, decision, artifact_root@),
{
    let fields = vec![
        field("command", text(shown_command)),
        field("continuous", Json::Bool(false)),
        field("cycles", count(cycles)),
        field("decision", text(decision.as_str())),
        field("artifact_root", text(artifact_root)),
        field("success", Json::Bool(watch_decision_succeeded(decision))),
    ];
    proof {
        assert(json::fields_view(fields@) =~= completed_details(
            shown_command@,
            cycles as nat,
            decision,
            artifact_root@,
        )->Object_0);
    }
    object(fields)
}

/// What is told when a cycle begins.
pub open spec fn cycle_started(
    shown: Seq<char>,
    root: Seq<char>,
    repair: bool,
    s: SecurityView,
) -> JsonView {
    JsonView::Object(
        seq![
            ("command"@, JsonView::Text(shown)),
            ("artifact_root"@, JsonView::Text(root)),
            ("repair_requested"@, JsonView::Bool(repair)),
            ("security"@, guard::security_json(s)),
        ],
    )
}

/// What is told when a cycle begins.
pub fn cycle_started_details(
    shown_command: &str,
    artifact_root: &str,
    repair: bool,
    s: &SecurityRuntimeContext,
) -> (r: Json)
    ensures
        r@ == cycle_started(shown_command@, artifact_root@, repair, s@),
{
    let fields = vec![
        field("command", text(shown_command)),
        field("artifact_root", text(artifact_root)),
        field("repair_requested", Json::Bool(repair)),
        field("security", s.to_json()),
    ];
    proof {
        assert(json::fields_view(fields@) =~= cycle_started(
            shown_command@,
            artifact_root@,
            repair,
            s@,
        )->Object_0);
    }
    object(fields)
}

/// What is told of the first run; the last field says where, or under which protection.
pub open spec fn initial_run_told(
    r: ResultView,
    repair: bool,
    last: (Seq<char>, JsonView),
) -> JsonView {
    JsonView::Object(
        seq![
            ("command"@, JsonView::Text(r.command)),
            ("success"@, JsonView::Bool(r.success)),
            ("exit_code"@, json::opt_integer(r.exit_code)),
            ("repair_requested"@, JsonView::Bool(repair)),
            ("parsed_failure"@, watch::report_or_null(r.failure)),
            last,
        ],
    )
}

/// What is told of the first run; the last field says where, or under which protection.
pub fn initial_run_details(result: &WatchCommandResult, repair: bool, last: (String, Json)) -> (r:
    Json)
    ensures
        r@ == initial_run_told(result@, repair, (last.0@, last.1@)),
{
    let fields = vec![
        field("command", text(result.command.as_str())),
        field("success", Json::Bool(result.success)),
        field("exit_code", integer_or_null(result.exit_code)),
        field("repair_requested", Json::Bool(repair)),
        field("parsed_failure", failure_or_null(&result.parsed_failure)),
        last,
    ];
    proof {
        assert(json::fields_view(fields@) =~= initial_run_told(
            result@,
            repair,
            (last.0@, last.1@),
        )->Object_0);
    }
    object(fields)
}

/// What is told when a repair begins.
pub open spec fn repair_started(shown: Seq<char>, verifier: Seq<char>, root: Seq<char>) -> JsonView {
    JsonView::Object(
        seq![
            ("command"@, JsonView::Text(shown)),
            ("target_verifier_command"@, JsonView::Text(verifier)),
            ("artifact_root"@, JsonView::Text(root)),
        ],
    )
}

/// What is told when a repair begins.
pub fn repair_started_details(shown_command: &str, shown_verifier: &str, artifact_root: &str) -> (r:
    Json)
    ensures
        r@ == repair_started(shown_command@, shown_verifier@, artifact_root@),
{
    let fields = vec![
        field("command", text(shown_command)),
        field("target_verifier_command", text(shown_verifier)),
        field("artifact_root", text(artifact_root)),
    ];
    proof {
        assert(json::fields_view(fields@) =~= repair_started(
            shown_command@,
            shown_verifier@,
            artifact_root@,
        )->Object_0);
    }
    object(fields)
}

/// What is told of a repair; the bundle of the cycle is named only to watchers.
pub open spec fn repair_completed(
    r: RepairView,
    root: Option<Seq<char>>,
    s: SecurityView,
) -> JsonView {
    JsonView::Object(
        seq![
            ("target_verifier_command"@, json::opt_text(r.verifier)),
            ("fix_artifact_root"@, json::opt_text(r.artifacts)),
            ("sandbox_run_root"@, json::opt_text(r.sandbox)),
            ("accepted_steps"@, json::natural(r.accepted)),
            ("rejected_steps"@, json::natural(r.rejected)),
            ("verification_failures"@, json::natural(r.failures)),
            ("applied"@, JsonView::Bool(r.applied)),
            ("final_bundle_verified"@, JsonView::Bool(r.verified)),
        ] + (match root {
            Some(x) => seq![("artifact_root"@, JsonView::Text(x))],
            None => Seq::<(Seq<char>, JsonView)>::empty(),
        }) + seq![("security"@, guard::security_json(s))],
    )
}

/// What is told of a repair; the bundle of the cycle is named only to watchers.
pub fn repair_completed_details(
    record: &WatchRepairRecord,
    artifact_root: &Option<String>,
    s: &SecurityRuntimeContext,
) -> (r: Json)
    ensures
        r@ == repair_completed(record@, chars::opt_text(*artifact_root), s@),
{
    let mut fields = vec![
        field("target_verifier_command", text_or_null(&record.verifier_command)),
        field("fix_artifact_root", text_or_null(&record.fix_artifact_root)),
        field("sandbox_run_root", text_or_null(&record.sandbox_run_root)),
        field("accepted_steps", count(record.accepted_steps)),
        field("rejected_steps", count(record.rejected_steps)),
        field("verification_failures", count(record.verification_failures)),
        field("applied", Json::Bool(record.applied)),
        field("final_bundle_verified", Json::Bool(record.final_bundle_verified)),
    ];
    match artifact_root {
        Some(root) => {
            fields.push(field("artifact_root", text(root.as_str())));
        },
        None => {},
    }
    fields.push(field("security", s.to_json()));
    proof {
        assert(json::fields_view(fields@) =~= repair_completed(
            record@,
            chars::opt_text(*artifact_root),
            s@,
        )->Object_0);
    }
    object(fields)
}

/// What is told when a cycle ends; the bundle is named only to watchers.
pub open spec fn cycle_completed(
    d: WatchDecision,
    root: Option<Seq<char>>,
    duration_ms: u64,
    repair: bool,
    s: SecurityView,
) -> JsonView {
    JsonView::Object(
        seq![("decision"@, JsonView::Text(watch_cycle::decision_name(d)))] + (match root {
            Some(x) => seq![("artifact_root"@, JsonView::Text(x))],
            None => Seq::<(Seq<char>, JsonView)>::empty(),
        }) + seq![
            ("duration_ms"@, json::natural(duration_ms as nat)),
            ("repair_requested"@, JsonView::Bool(repair)),
            ("security"@, guard::security_json(s)),
        ],
    )
}

/// What is told when a cycle ends; the bundle is named only to watchers.
pub fn cycle_completed_details(
    decision: WatchDecision,
    artifact_root: &Option<String>,
    duration_ms: u64,
    repair: bool,
    s: &SecurityRuntimeContext,
) -> (r: Json)
    ensures
        r@ == cycle_completed(decision, chars::opt_text(*artifact_root), duration_ms, repair, s@),
{
    let mut fields = vec![field("decision", text(decision.as_str()))];
    match artifact_root {
        Some(root) => {
            fields.push(field("artifact_root", text(root.as_str())));
        },
        None => {},
    }
    fields.push(field("duration_ms", natural_or_null(Some(duration_ms))));
    fields.push(field("repair_requested", Json::Bool(repair)));
    fields.push(field("security", s.to_json()));
    proof {
        assert(json::fields_view(fields@) =~= cycle_completed(
            decision,
            chars::opt_text(*artifact_root),
            duration_ms,
            repair,
            s@,
        )->Object_0);
    }
    object(fields)
}

/// What is told of the output of a run.
pub open spec fn output_told(label: Seq<char>, r: ResultView) -> JsonView {
    JsonView::Object(
        seq![
            ("label"@, JsonView::Text(label)),
            ("exit_code"@, json::opt_integer(r.exit_code)),
            ("exit_status"@, JsonView::Text(watch::exit_text(r.exit_code, "signal"@))),
            ("success"@, JsonView::Bool(r.success)),
            ("stdout_bytes"@, json::natural(bytes::byte_len(r.stdout))),
            ("stderr_bytes"@, json::natural(bytes::byte_len(r.stderr))),
            ("stdout_preview"@, JsonView::Text(watch::shortened(r.stdout, 1000))),
            ("stderr_preview"@, JsonView::Text(watch::shortened(r.stderr, 1000))),
            ("parsed_failure"@, watch::report_or_null(r.failure)),
        ],
    )
}

/// What is told of the output of a run.
pub fn watch_output_details(label: &str, result: &WatchCommandResult) -> (r: Json)
    ensures
        r@ == output_told(label@, result@),
{
    let fields = vec![
        field("label", text(label)),
        field("exit_code", integer_or_null(result.exit_code)),
        field("exit_status", text(describe_exit(result.exit_code, "signal").as_str())),
        field("success", Json::Bool(result.success)),
        field("stdout_bytes", count(count_bytes(result.stdout.as_str()))),
        field("stderr_bytes", count(count_bytes(result.stderr.as_str()))),
        field("stdout_preview", text(truncate_watch_output(result.stdout.as_str(), 1000).as_str())),
        field("stderr_preview", text(truncate_watch_output(result.stderr.as_str(), 1000).as_str())),
        field("parsed_failure", failure_or_null(&result.parsed_failure)),
    ];
    proof {
        assert(json::fields_view(fields@) =~= output_told(label@, result@)->Object_0);
    }
    object(fields)
}

/// The line that is shown before the output of a run.
pub open spec fn output_head(label: Seq<char>, r: ResultView) -> Seq<char> {
    "[watch:"@ + label + "] mode=interactive exit="@ + watch::exit_text(r.exit_code, "signal"@)
        + " success="@ + if r.success {
        "true"@
    } else {
        "false"@
    }
}

/// The line that is shown before the output of a run.
pub fn watch_output_head(label: &str, result: &WatchCommandResult) -> (r: String)
    ensures
        r@ == output_head(label@, result@),
{
    let mut s = concat3("[watch:", label, "] mode=interactive exit=");
    s.append(describe_exit(result.exit_code, "signal").as_str());
    s.append(" success=");
    if result.success {
        s.append("true");
    } else {
        s.append("false");
    }
    s
}

/// A labelled line, if there is a text.
pub open spec fn note(label: Seq<char>, t: Option<Seq<char>>) -> Seq<Seq<char>> {
    match t {
        Some(x) => seq![label + x],
        None => Seq::empty(),
    }
}

/// The lines that are shown of a finished cycle.
pub open spec fn cycle_lines(d: WatchDecision, root: Seq<char>, r: Option<RepairView>) -> Seq<
    Seq<char>,
> {
    seq!["Decision: "@ + watch_cycle::decision_name(d), "Artifact bundle: "@ + root] + (match r {
        Some(x) => note("Targeted verifier: "@, x.verifier) + note(
            "Repair run artifacts: "@,
            x.artifacts,
        ) + note("Repair note: "@, x.error),
        None => Seq::<Seq<char>>::empty(),
    })
}

fn push_note(out: &mut Vec<String>, label: &str, t: &Option<String>)
    ensures
        chars::texts(final(out)@) == chars::texts(old(out)@) + note(label@, chars::opt_text(*t)),
{
    let ghost before = chars::texts(out@);
    match t {
        Some(x) => {
            out.push(concat2(label, x.as_str()));
        },
        None => {},
    }
    proof {
        assert(chars::texts(out@) =~= before + note(label@, chars::opt_text(*t)));
    }
}

/// The lines that are shown of a finished cycle.
pub fn watch_cycle_lines(
    decision: WatchDecision,
    artifact_root: &str,
    repair: &Option<WatchRepairRecord>,
) -> (r: Vec<String>)
    ensures
        chars::texts(r@) == cycle_lines(decision, artifact_root@, watch_cycle::opt_repair(*repair)),
{
    let mut out: Vec<String> = Vec::new();
    out.push(concat2("Decision: ", decision.as_str()));
    out.push(concat2("Artifact bundle: ", artifact_root));
    let ghost head = chars::texts(out@);
    proof {
        assert(head =~= seq![
            "Decision: "@ + watch_cycle::decision_name(decision),
            "Artifact bundle: "@ + artifact_root@,
        ]);
    }
    match repair {
        Some(x) => {
            push_note(&mut out, "Targeted verifier: ", &x.verifier_command);
            push_note(&mut out, "Repair run artifacts: ", &x.fix_artifact_root);
            push_note(&mut out, "Repair note: ", &x.error);
        },
        None => {},
    }
    proof {
        assert(chars::texts(out@) =~= cycle_lines(
            decision,
            artifact_root@,
            watch_cycle::opt_repair(*repair),
        ));
    }
    out
}

/// What a cycle wrote is named in its summary.
pub proof fn law_summaries_name_written_files(c: CycleView)
    ensures
        cycle_artifacts(c).contains(entry("watch_record"@, "watch.json"@)),
        cycle_artifacts(c).contains(entry("audit_log"@, "audit.log"@)),
        c.confirmation is Some ==> cycle_artifacts(c).contains(
            entry("confirmation_stdout"@, "confirmation.stdout.txt"@),
        ),
        has_failure(c.initial) ==> cycle_artifacts(c).contains(
            entry("initial_failure"@, "initial.failure.json"@),
        ),
        has_bundle(c.repair) ==> cycle_artifacts(c).contains(
            entry("repair_summary"@, "repair/summary-index.json"@),
        ),
{
    let s = cycle_artifacts(c);
    assert(s[s.len() - 1] == entry("watch_record"@, "watch.json"@));
    assert(s[0] == entry("audit_log"@, "audit.log"@));
    let a: int = if has_failure(c.confirmation) {
        2
    } else {
        1
    };
    if c.confirmation is Some {
        assert(s[a + 1] == entry("confirmation_stdout"@, "confirmation.stdout.txt"@));
    }
    let b: int = a + if c.confirmation is Some {
        2int
    } else {
        0int
    };
    if has_failure(c.initial) {
        assert(s[b] == entry("initial_failure"@, "initial.failure.json"@));
    }
    if has_bundle(c.repair) {
        assert(s[s.len() - 2] == entry("repair_summary"@, "repair/summary-index.json"@));
    }
}

} // verus!
