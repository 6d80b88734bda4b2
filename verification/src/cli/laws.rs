//! Laws of what is told of candidates, admitted commands, watched files and plans.
use crate::api::types::ThermalAssessment;
use crate::cli::assessment;
use crate::cli::guard;
use crate::cli::progress;
use crate::cli::progress::{MetadataView, StateView};
use crate::cli::watch;
use crate::cli::watch::RepoFileFingerprint;
use crate::engine::batch::PlanStep;
use crate::engine::settings::VerifyConfig;
use crate::failure_parser::command;
use crate::text::chars;
use crate::text::find;
use crate::text::laws;
use crate::text::split;
use crate::verification::invocation;
use vstd::prelude::*;

verus! {

/// Whether the reason of a run says that its candidate repeats a state.
pub open spec fn repeats_state(m: MetadataView) -> bool {
    progress::reason_begins(m, "oscillation suppressed:"@) || progress::reason_begins(
        m,
        "duplicate verified candidate output"@,
    )
}

/// Whether a run failed in verification or lost against another candidate.
pub open spec fn was_beaten(m: MetadataView) -> bool {
    m.stage == Some("verification"@) || progress::reason_begins(
        m,
        "lost selection to higher-ranked verified candidate"@,
    )
}

/// A run has won exactly if it succeeded; of the others those that repeat a state are
/// suppressed, those that failed verification or were outranked are lost, those that still go
/// on are in flight, and all others are rejected.
pub proof fn law_decisions(s: StateView)
    ensures
        ({
            let d = progress::decision(s);
            let won = s.status == "success"@;
            let goes_on = progress::is_going_on(s.status);
            &&& d == "won"@ <==> won
            &&& d == "suppressed"@ <==> !won && repeats_state(s.meta)
            &&& d == "lost"@ <==> !won && !repeats_state(s.meta) && was_beaten(s.meta)
            &&& d == "in_flight"@ <==> !won && !repeats_state(s.meta) && !was_beaten(s.meta)
                && goes_on
            &&& d == "rejected"@ <==> !won && !repeats_state(s.meta) && !was_beaten(s.meta)
                && !goes_on
        }),
{
    reveal_strlit("won");
    reveal_strlit("suppressed");
    reveal_strlit("lost");
    reveal_strlit("in_flight");
    reveal_strlit("rejected");
    assert("won"@.len() == 3 && "suppressed"@.len() == 10 && "lost"@.len() == 4);
    assert("in_flight"@.len() == 9 && "rejected"@.len() == 8);
}

/// Verification passed exactly for runs that succeeded and failed exactly for others that
/// failed in it; runs that were suppressed or outranked passed it without being selected.
pub proof fn law_verification_results(s: StateView)
    ensures
        ({
            let v = progress::verification_result(s);
            let won = s.status == "success"@;
            let failed = s.meta.stage == Some("verification"@);
            let beaten = repeats_state(s.meta) || was_beaten(s.meta);
            &&& v == "passed"@ <==> won
            &&& v == "failed"@ <==> !won && failed
            &&& v == "passed_not_selected"@ <==> !won && !failed && beaten
            &&& v == "retrying"@ <==> !won && !failed && !beaten && s.status == "retrying"@
            &&& v == "pending"@ <==> !won && !failed && !beaten && (s.status == "spawned"@
                || s.status == "running"@)
            &&& v == "not_reached"@ <==> !won && !failed && !beaten && !progress::is_going_on(
                s.status,
            )
        }),
{
    law_decisions(s);
    reveal_strlit("passed");
    reveal_strlit("failed");
    reveal_strlit("passed_not_selected");
    reveal_strlit("retrying");
    reveal_strlit("pending");
    reveal_strlit("not_reached");
    reveal_strlit("spawned");
    reveal_strlit("running");
    assert("passed"@[0] == 'p' && "failed"@[0] == 'f');
    assert("passed"@.len() == 6 && "failed"@.len() == 6 && "passed_not_selected"@.len() == 19);
    assert("retrying"@.len() == 8 && "pending"@.len() == 7 && "not_reached"@.len() == 11);
    assert("spawned"@.len() == 7 && "running"@.len() == 7);
}

/// A reason that was recorded is the explanation; without one a run that still goes on or that
/// succeeded has one by its status, and only a failed run can be without.
pub proof fn law_explanations(s: StateView)
    ensures
        s.meta.reason is Some ==> progress::explanation(s) == s.meta.reason,
        s.meta.reason is None && (progress::is_going_on(s.status) || s.status == "success"@)
            ==> progress::explanation(s) is Some,
        s.meta.reason is None && s.status == "failed"@ ==> (progress::explanation(s) is Some
            <==> s.meta.stage == Some("generation"@) || s.meta.stage == Some("safety"@)
            || s.meta.stage == Some("verification"@)),
{
    reveal_strlit("failed");
    reveal_strlit("success");
    reveal_strlit("retrying");
    reveal_strlit("spawned");
    reveal_strlit("running");
    assert("failed"@.len() == 6 && "success"@.len() == 7 && "retrying"@.len() == 8);
    assert("spawned"@.len() == 7 && "running"@.len() == 7);
}

/// The phase of a run is what its notes say, and else what its command says behind the first
/// colon.
pub proof fn law_phase_of_a_run(a: Seq<char>, phase: Seq<char>, m: MetadataView)
    requires
        !a.contains(':'),
        phase.len() > 0,
        !chars::is_space(phase.first()),
        !chars::is_space(phase.last()),
    ensures
        progress::named_phase(a + seq![':'] + phase) == Some(phase),
        progress::named_phase(a) is None,
        m.phase matches Some(p) ==> (p.len() > 0 ==> progress::settled_metadata(
            a + seq![':'] + phase,
            m,
        ).phase == Some(p)),
        m.phase is None ==> progress::settled_metadata(a + seq![':'] + phase, m).phase == Some(
            phase,
        ),
{
    let e = Seq::<char>::empty();
    laws::law_cut_at_first(a, ':', phase);
    assert(e + phase + e =~= phase);
    laws::law_trimming_removes_what_is_around(e, phase, e);
}

/// Settling metadata drops empty texts and keeps all others and all numbers.
pub proof fn law_settled_metadata_keeps_what_is_filled(command: Seq<char>, m: MetadataView)
    ensures
        ({
            let s = progress::settled_metadata(command, m);
            &&& m.outcome matches Some(x) ==> (x.len() > 0 ==> s.outcome == m.outcome)
            &&& m.reason matches Some(x) ==> (x.len() > 0 ==> s.reason == m.reason)
            &&& m.source matches Some(x) ==> (x.len() > 0 ==> s.source == m.source)
            &&& m.stage matches Some(x) ==> (x.len() > 0 ==> s.stage == m.stage)
            &&& m.sandbox matches Some(x) ==> (x.len() > 0 ==> s.sandbox == m.sandbox)
            &&& s.outcome matches Some(x) ==> x.len() > 0 && s.outcome == m.outcome
            &&& s.reason matches Some(x) ==> x.len() > 0 && s.reason == m.reason
            &&& s.source matches Some(x) ==> x.len() > 0 && s.source == m.source
            &&& s.stage matches Some(x) ==> x.len() > 0 && s.stage == m.stage
            &&& s.sandbox matches Some(x) ==> x.len() > 0 && s.sandbox == m.sandbox
            &&& s.retries == m.retries
            &&& s.fanout == m.fanout
            &&& s.touched == m.touched
            &&& s.delta == m.delta
        }),
{
}

/// Two states of a run that differ in anything but their figures are told apart.
pub proof fn law_differing_states_are_noticed(a: StateView, b: StateView)
    requires
        a.id != b.id || a.agent != b.agent || a.file != b.file || a.command != b.command || a.status
            != b.status || a.started != b.started || a.completed != b.completed || a.tokens
            != b.tokens || a.meta.phase != b.meta.phase || a.meta.source != b.meta.source
            || a.meta.retries != b.meta.retries || a.meta.outcome != b.meta.outcome
            || a.meta.reason != b.meta.reason || a.meta.stage != b.meta.stage || a.meta.sandbox
            != b.meta.sandbox || a.meta.fanout != b.meta.fanout || a.meta.touched
            != b.meta.touched || a.meta.delta != b.meta.delta,
    ensures
        !progress::equal_states(a, b),
{
}

/// Whether a configuration wants a command that is not allowed.
pub open spec fn wants_forbidden(c: VerifyConfig) -> bool {
    (c.test_after_write && invocation::allowed_words(c.test_command@) is Err) || (
    c.lint_after_write && invocation::allowed_words(c.lint_command@) is Err)
}

/// Commands are admitted past the list exactly if the override is on outside automated builds,
/// and by the list exactly if no override is on and every command that is wanted is allowed.
pub proof fn law_admission(c: VerifyConfig, override_on: bool, ci: bool)
    ensures
        guard::admission(c, override_on, ci) == Ok::<bool, Seq<char>>(true) <==> override_on
            && !ci,
        guard::admission(c, override_on, ci) == Ok::<bool, Seq<char>>(false) <==> !override_on
            && !wants_forbidden(c),
        guard::admission(c, override_on, ci) is Err <==> (override_on && ci) || (!override_on
            && wants_forbidden(c)),
{
}

/// Every command that is wanted and not allowed is named, tests before lint.
pub proof fn law_violations_are_named(c: VerifyConfig)
    ensures
        ({
            let v = guard::violations(c);
            let test = c.test_after_write && invocation::allowed_words(c.test_command@) is Err;
            let lint = c.lint_after_write && invocation::allowed_words(c.lint_command@) is Err;
            &&& v.len() == (if test {
                1int
            } else {
                0
            }) + (if lint {
                1int
            } else {
                0
            })
            &&& test ==> find::has_text(v.first(), find::trimmed(c.test_command@))
            &&& lint ==> find::has_text(v.last(), find::trimmed(c.lint_command@))
        }),
{
    lemma_has_middle("test_command=`"@, find::trimmed(c.test_command@), "`"@);
    lemma_has_middle("lint_command=`"@, find::trimmed(c.lint_command@), "`"@);
}

proof fn lemma_has_middle(a: Seq<char>, m: Seq<char>, b: Seq<char>)
    ensures
        find::has_text(a + m + b, m),
{
    let s = a + m + b;
    assert(s.subrange(a.len() as int, a.len() as int + m.len()) =~= m);
    assert(find::occurs_at(s, m, a.len() as int));
}

/// A command is repaired exactly if it is one plain cargo test, check or clippy command;
/// clippy as a lint, the others as tests.
pub proof fn law_repaired_commands(line: Seq<char>)
    ensures
        ({
            let t = find::trimmed(line);
            let plain = t.len() > 0 && !command::composes(t);
            let kind = command::cargo_kind(command::command_words(t));
            &&& watch::repair_target(line) is Some <==> plain && kind !is Unknown
            &&& watch::repair_target(line) matches Some((c, mode)) ==> {
                &&& c == t
                &&& mode is Lint <==> kind is Clippy
                &&& mode is TestLike <==> kind is Test || kind is Check
            }
        }),
{
}

/// Files are watched one by one, in their order: those outside the directories that are left
/// out, and no others.
pub proof fn law_watched_files(
    a: Seq<(Seq<char>, RepoFileFingerprint)>,
    b: Seq<(Seq<char>, RepoFileFingerprint)>,
    f: (Seq<char>, RepoFileFingerprint),
)
    ensures
        watch::watched(a + b) == watch::watched(a) + watch::watched(b),
        !watch::unwatched(f.0) ==> watch::watched(seq![f]) == seq![f],
        watch::unwatched(f.0) ==> watch::watched(seq![f]).len() == 0,
    decreases b.len(),
{
    let x = watch::watched(a);
    assert(seq![f].drop_last() =~= Seq::empty());
    assert(seq![f].last() == f);
    let none = watch::watched(Seq::<(Seq<char>, RepoFileFingerprint)>::empty());
    assert(none =~= Seq::empty());
    if b.len() == 0 {
        assert(a + b =~= a);
        assert(x + watch::watched(b) =~= x);
    } else {
        assert((a + b).drop_last() =~= a + b.drop_last());
        assert((a + b).last() == b.last());
        law_watched_files(a, b.drop_last(), f);
        let y = watch::watched(b.drop_last());
        assert((x + y).push(b.last()) =~= x + y.push(b.last()));
    }
}

/// Output that fits is shown whole, without the white space around it; of longer output its
/// first characters are shown, and that it was cut.
pub proof fn law_shortened_output(output: Seq<char>, max: nat)
    ensures
        find::trimmed(output).len() <= max ==> watch::shortened(output, max) == find::trimmed(
            output,
        ),
        find::trimmed(output).len() > max ==> {
            &&& watch::shortened(output, max).take(max as int) == find::trimmed(output).take(
                max as int,
            )
            &&& watch::shortened(output, max).skip(max as int) == "\n...[truncated]"@
        },
{
    let t = find::trimmed(output);
    if t.len() > max {
        let s = watch::shortened(output, max);
        assert(s.take(max as int) =~= t.take(max as int));
        assert(s.skip(max as int) =~= "\n...[truncated]"@);
    }
}

/// A run that succeeded reports no failure, and one that failed reports one exactly if its
/// command is a known verifier.
pub proof fn law_failed_runs_report(
    parts: Seq<Seq<char>>,
    success: bool,
    exit_code: Option<i32>,
    stdout: Seq<char>,
    stderr: Seq<char>,
    env: Seq<(Seq<char>, Seq<char>)>,
)
    ensures
        ({
            let r = watch::run_result(parts, success, exit_code, stdout, stderr, env);
            &&& r.failure is Some <==> !success && command::verifier_kind(parts) !is Unknown
            &&& r.success == success
            &&& r.exit_code == exit_code
        }),
{
}

/// Each assessment is stored with its own four scores, for the file of the step with the same
/// number.
pub proof fn law_assessments_are_stored_in_order(
    steps: Seq<PlanStep>,
    s: Seq<ThermalAssessment>,
    n: int,
    i: int,
)
    requires
        0 <= i < n <= s.len(),
    ensures
        ({
            let rows = assessment::all_rows(steps, s, n);
            let file = if i < steps.len() {
                steps[i].file_path@
            } else {
                "unknown"@
            };
            &&& rows.len() == 4 * n
            &&& rows[4 * i].score == s[i].complexity_score && rows[4 * i].kind == "complexity"@
            &&& rows[4 * i + 1].score == s[i].dependency_score && rows[4 * i + 1].kind
                == "dependency"@
            &&& rows[4 * i + 2].score == s[i].risk_score && rows[4 * i + 2].kind == "risk"@
            &&& rows[4 * i + 3].score == s[i].churn_score && rows[4 * i + 3].kind == "churn"@
            &&& forall|k: int| 4 * i <= k < 4 * i + 4 ==> (#[trigger] rows[k]).file == file
        }),
    decreases n,
{
    assessment::law_four_scores_per_assessment(steps, s, n);
    assessment::law_four_scores_per_assessment(steps, s, n - 1);
    if i < n - 1 {
        law_assessments_are_stored_in_order(steps, s, n - 1, i);
        let rows = assessment::all_rows(steps, s, n);
        let front = assessment::all_rows(steps, s, n - 1);
        assert forall|k: int| 4 * i <= k < 4 * i + 4 implies #[trigger] rows[k] == front[k] by {}
    }
}

/// Each step of a plan is shown in two lines, with its number, its file and its instruction.
pub proof fn law_steps_are_shown_in_order(
    steps: Seq<PlanStep>,
    priorities: Seq<Seq<char>>,
    n: int,
    i: int,
)
    requires
        0 <= i < n <= steps.len(),
    ensures
        ({
            let shown = assessment::steps_shown(steps, priorities, n);
            &&& shown.len() == 2 * n
            &&& find::has_text(shown[2 * i], steps[i].file_path@)
            &&& find::has_text(shown[2 * i], priorities[i])
            &&& find::has_text(shown[2 * i + 1], steps[i].instruction@)
        }),
    decreases n,
{
    let shown = assessment::steps_shown(steps, priorities, n);
    lemma_steps_shown_length(steps, priorities, n - 1);
    if i < n - 1 {
        law_steps_are_shown_in_order(steps, priorities, n - 1, i);
    } else {
        let number = crate::text::number::decimal(n as nat);
        let file = steps[i].file_path@;
        let e = Seq::<char>::empty();
        lemma_has_middle(
            "  "@ + number + ". "@,
            file,
            " (priority: "@ + priorities[i] + ")"@,
        );
        assert(shown[2 * i] =~= "  "@ + number + ". "@ + file + (" (priority: "@ + priorities[i]
            + ")"@));
        lemma_has_middle("  "@ + number + ". "@ + file + " (priority: "@, priorities[i], ")"@);
        lemma_has_middle("     "@, steps[i].instruction@, e);
        assert(shown[2 * i + 1] =~= "     "@ + steps[i].instruction@ + e);
    }
}

proof fn lemma_steps_shown_length(steps: Seq<PlanStep>, priorities: Seq<Seq<char>>, n: int)
    requires
        0 <= n <= steps.len(),
    ensures
        assessment::steps_shown(steps, priorities, n).len() == 2 * n,
    decreases n,
{
    if n > 0 {
        lemma_steps_shown_length(steps, priorities, n - 1);
    }
}

/// What asks for a repair names the command and how it ended, and shows what it printed, errors
/// first, each only if there is something to show.
pub proof fn law_repair_requests_show_the_failure(
    line: Seq<char>,
    r: watch::ResultView,
    parsed: Option<Seq<char>>,
    env: Seq<(Seq<char>, Seq<char>)>,
)
    ensures
        ({
            let asked = watch::repair_description(line, r, parsed, env);
            &&& find::has_text(
                asked,
                crate::verification::secrets::masked(
                    crate::verification::secrets::Masking::Lines,
                    line,
                    env,
                ),
            )
            &&& find::has_text(asked, watch::shortened(r.stderr, 6000))
            &&& find::has_text(asked, watch::shortened(r.stdout, 4000))
            &&& parsed matches Some(p) ==> find::has_text(asked, p)
        }),
{
    let asked = watch::repair_description(line, r, parsed, env);
    let shown = crate::verification::secrets::masked(
        crate::verification::secrets::Masking::Lines,
        line,
        env,
    );
    let a = "Repair the repository so the Rust verifier command `"@;
    let b = "` succeeds.\nExit code: "@ + watch::exit_text(r.exit_code, "unknown"@)
        + ".\nFocus only on the changes needed to make that command pass.\n"@;
    let err = watch::section("\nCommand stderr:\n"@, watch::shortened(r.stderr, 6000));
    let out = watch::section("\nCommand stdout:\n"@, watch::shortened(r.stdout, 4000));
    let report = match parsed {
        Some(p) => "\nStructured parsed failure:\n"@ + p + "\n"@,
        None => Seq::<char>::empty(),
    };
    let tools = watch::section(
        "\nRepo-native tool surface available to grounding and repair loop:\n"@,
        split::joined(
            watch::tool_lines(crate::failure_parser::tools::tool_surface()),
            "\n"@,
        ),
    );
    assert(asked =~= a + shown + b + err + out + report + tools);
    lemma_has_middle(a, shown, b + err + out + report + tools);
    assert(asked =~= a + shown + (b + err + out + report + tools));
    lemma_section_shows(
        a + shown + b,
        "\nCommand stderr:\n"@,
        watch::shortened(r.stderr, 6000),
        out + report + tools,
    );
    assert(asked =~= (a + shown + b) + err + (out + report + tools));
    lemma_section_shows(
        a + shown + b + err,
        "\nCommand stdout:\n"@,
        watch::shortened(r.stdout, 4000),
        report + tools,
    );
    assert(asked =~= (a + shown + b + err) + out + (report + tools));
    if let Some(p) = parsed {
        let front = a + shown + b + err + out + "\nStructured parsed failure:\n"@;
        lemma_has_middle(front, p, "\n"@ + tools);
        assert(asked =~= front + p + ("\n"@ + tools));
    }
}

proof fn lemma_section_shows(front: Seq<char>, head: Seq<char>, body: Seq<char>, back: Seq<char>)
    ensures
        find::has_text(front + watch::section(head, body) + back, body),
{
    let all = front + watch::section(head, body) + back;
    if body.len() == 0 {
        assert(all.subrange(0, 0) =~= body);
        assert(find::occurs_at(all, body, 0));
    } else {
        lemma_has_middle(front + head, body, "\n"@ + back);
        assert(all =~= (front + head) + body + ("\n"@ + back));
    }
}

/// Nothing below the directories that are left out is watched, whatever it is called.
pub proof fn law_left_out_directories_are_not_watched(name: Seq<char>)
    ensures
        watch::unwatched(".git/"@ + name),
        watch::unwatched("target/"@ + name),
        watch::unwatched(".mercury/"@ + name),
        watch::unwatched(".git"@) && watch::unwatched("target"@) && watch::unwatched(".mercury"@),
        !watch::unwatched("src/"@ + name),
{
    reveal_strlit("/");
    reveal_strlit(".git");
    reveal_strlit(".git/");
    reveal_strlit("target");
    reveal_strlit("target/");
    reveal_strlit(".mercury");
    reveal_strlit(".mercury/");
    reveal_strlit("src/");
    assert(".git"@ + "/"@ =~= ".git/"@);
    assert("target"@ + "/"@ =~= "target/"@);
    assert(".mercury"@ + "/"@ =~= ".mercury/"@);
    assert((".git/"@ + name).subrange(0, 5) =~= ".git/"@);
    assert(("target/"@ + name).subrange(0, 7) =~= "target/"@);
    assert((".mercury/"@ + name).subrange(0, 9) =~= ".mercury/"@);
    let s = "src/"@ + name;
    assert(s[0] == 's');
    assert(".git"@[0] == '.' && "target"@[0] == 't' && ".mercury"@[0] == '.');
    if find::has_prefix(s, ".git/"@) {
        assert(s.subrange(0, 5)[0] == s[0] && ".git/"@[0] == '.');
    }
    if find::has_prefix(s, "target/"@) {
        assert(s.subrange(0, 7)[0] == s[0] && "target/"@[0] == 't');
    }
    if find::has_prefix(s, ".mercury/"@) {
        assert(s.subrange(0, 9)[0] == s[0] && ".mercury/"@[0] == '.');
    }
}

} // verus!
