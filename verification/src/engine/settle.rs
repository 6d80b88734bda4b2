//! Settling a step: which of its candidates is accepted, and what is recorded of each.
use crate::engine::candidate;
use crate::engine::candidate::{
    rank_candidate_outcomes, split_duplicate_state_candidates, CandidateFailureStage,
    CandidateOutcome, OutcomeView,
};
use crate::engine::summary;
use crate::engine::summary::{StepExecutionSummary, StepView};
use crate::json;
use crate::json::{count, field, object, text, text_or_null, Json, JsonView};
use crate::sorting;
use crate::text::chars;
use crate::text::chars::{own, own_opt, same};
use crate::thermal;
use crate::thermal::ExecutionPhase;
use vstd::prelude::*;

verus! {

broadcast use chars::lemma_texts_push, chars::lemma_texts_empty;

/// The temperature of a phase, as text.
pub open spec fn temperature(p: ExecutionPhase) -> Seq<char> {
    match p {
        ExecutionPhase::Scaffolding => "0.2"@,
        ExecutionPhase::Resolution => "0.65"@,
        ExecutionPhase::Annealing => "0.35"@,
    }
}

/// The temperature of a phase, as text.
pub fn phase_temperature(p: ExecutionPhase) -> (r: &'static str)
    ensures
        r@ == temperature(p),
{
    match p {
        ExecutionPhase::Scaffolding => "0.2",
        ExecutionPhase::Resolution => "0.65",
        ExecutionPhase::Annealing => "0.35",
    }
}

/// What becomes of a candidate.
#[derive(Debug, Clone, Copy, PartialEq, Eq, Structural)]
pub enum Verdict {
    /// It was not verified.
    Failed,
    /// It leads back to a state that the file had before.
    Stale,
    /// It leaves the file as a preferred candidate does.
    Duplicate,
    Accepted,
    /// Another candidate is preferred.
    Outranked,
}

/// The reason that is recorded for a verdict.
pub open spec fn verdict_reason(o: OutcomeView, v: Verdict) -> Option<Seq<char>> {
    match v {
        Verdict::Failed => o.reason,
        Verdict::Stale => Some(
            "oscillation suppressed: candidate matches a previously accepted file state"@,
        ),
        Verdict::Duplicate => Some("duplicate verified candidate output"@),
        Verdict::Accepted => None,
        Verdict::Outranked => Some("lower-ranked competing candidate"@),
    }
}

/// The step at which a candidate failed, as JSON.
pub open spec fn stage_json(s: Option<CandidateFailureStage>) -> JsonView {
    match s {
        Some(x) => JsonView::Text(candidate::failure_stage_name(x)),
        None => JsonView::Null,
    }
}

/// What is recorded of a candidate.
pub open spec fn metadata(o: OutcomeView, v: Verdict, phase: ExecutionPhase, fanout: nat) ->
    JsonView {
    let head = seq![
        (
            "outcome"@,
            JsonView::Text(
                if v == Verdict::Accepted {
                    "accepted"@
                } else {
                    "rejected"@
                },
            ),
        ),
    ];
    let why = if v == Verdict::Accepted {
        head
    } else {
        head.push(("reason"@, json::opt_text(verdict_reason(o, v))))
    };
    let origin = why.push(("sandbox_root"@, JsonView::Text(o.sandbox))).push(
        ("candidate_source"@, JsonView::Text(candidate::source_name(o.source))),
    );
    let stage = if v == Verdict::Failed {
        origin.push(("failure_stage"@, stage_json(o.stage)))
    } else {
        origin
    };
    let common = stage.push(("retry_attempts"@, json::natural(o.retries))).push(
        ("phase"@, JsonView::Text(thermal::phase_name(phase))),
    );
    JsonView::Object(
        if v == Verdict::Failed || v == Verdict::Stale {
            common
        } else {
            common.push(("fanout"@, json::natural(fanout))).push(
                ("temperature"@, JsonView::Number(temperature(phase))),
            ).push(
                ("touched_lines"@, json::natural(o.footprint.touched_lines as nat)),
            ).push(("byte_delta"@, json::natural(o.footprint.byte_delta as nat)))
        },
    )
}

/// A change of what is recorded of an agent.
#[derive(Debug)]
pub struct StatusUpdate {
    pub log_id: i64,
    pub status: String,
    pub tokens: i64,
    /// The cost in billionths of a dollar.
    pub cost: i128,
    pub metadata: Json,
}

/// What a [`StatusUpdate`] stands for.
#[verifier::ext_equal]
pub struct UpdateView {
    pub log_id: i64,
    pub status: Seq<char>,
    pub tokens: i64,
    pub cost: i128,
    pub metadata: JsonView,
}

impl View for StatusUpdate {
    type V = UpdateView;

    open spec fn view(&self) -> UpdateView {
        UpdateView {
            log_id: self.log_id,
            status: self.status@,
            tokens: self.tokens,
            cost: self.cost,
            metadata: self.metadata@,
        }
    }
}

/// The change that a verdict brings.
pub open spec fn update_of(o: OutcomeView, v: Verdict, phase: ExecutionPhase, fanout: nat) ->
    UpdateView {
    UpdateView {
        log_id: o.log_id,
        status: if v == Verdict::Accepted {
            "success"@
        } else {
            "failed"@
        },
        tokens: o.tokens,
        cost: o.cost,
        metadata: metadata(o, v, phase, fanout),
    }
}

fn reason_of(o: &CandidateOutcome, v: Verdict) -> (r: Option<String>)
    ensures
        chars::opt_text(r) == verdict_reason(o@, v),
{
    match v {
        Verdict::Failed => own_opt(&o.reason),
        Verdict::Stale => Some(
            own("oscillation suppressed: candidate matches a previously accepted file state"),
        ),
        Verdict::Duplicate => Some(own("duplicate verified candidate output")),
        Verdict::Accepted => None,
        Verdict::Outranked => Some(own("lower-ranked competing candidate")),
    }
}

fn make_update(o: &CandidateOutcome, v: Verdict, phase: ExecutionPhase, fanout: usize) -> (r:
    StatusUpdate)
    ensures
        r@ == update_of(o@, v, phase, fanout as nat),
{
    let accepted = v == Verdict::Accepted;
    let mut fields: Vec<(String, Json)> = Vec::new();
    fields.push(
        field(
            "outcome",
            text(
                if accepted {
                    "accepted"
                } else {
                    "rejected"
                },
            ),
        ),
    );
    if !accepted {
        fields.push(field("reason", text_or_null(&reason_of(o, v))));
    }
    fields.push(field("sandbox_root", text(o.sandbox_root.as_str())));
    fields.push(field("candidate_source", text(o.source.as_str())));
    if v == Verdict::Failed {
        let stage = match o.failure_stage {
            Some(s) => text(s.as_str()),
            None => Json::Null,
        };
        fields.push(field("failure_stage", stage));
    }
    fields.push(field("retry_attempts", count(o.retry_attempts)));
    fields.push(field("phase", text(phase.as_str())));
    if !(v == Verdict::Failed || v == Verdict::Stale) {
        fields.push(field("fanout", count(fanout)));
        fields.push(field("temperature", Json::Number(own(phase_temperature(phase)))));
        fields.push(field("touched_lines", count(o.change_footprint.touched_lines)));
        fields.push(field("byte_delta", count(o.change_footprint.byte_delta)));
    }
    proof {
        assert(json::fields_view(fields@) =~= metadata(o@, v, phase, fanout as nat)->Object_0);
    }
    StatusUpdate {
        log_id: o.log_id,
        status: own(
            if accepted {
                "success"
            } else {
                "failed"
            },
        ),
        tokens: o.total_tokens,
        cost: o.total_cost,
        metadata: object(fields),
    }
}

/// Whether a candidate failed, leads back, or competes.
#[derive(Debug, Clone, Copy, PartialEq, Eq, Structural)]
pub enum Fate {
    Failed,
    Stale,
    Competes,
}

/// The fate of a candidate, given the states that its file had.
pub open spec fn fate(o: OutcomeView, seen: Seq<Seq<char>>) -> Fate {
    if o.candidate is None {
        Fate::Failed
    } else if o.hash is Some && seen.contains(o.hash->0) {
        Fate::Stale
    } else {
        Fate::Competes
    }
}

/// The candidates with the given fate.
pub open spec fn with_fate(s: Seq<OutcomeView>, seen: Seq<Seq<char>>, f: Fate) -> Seq<OutcomeView>
    decreases s.len(),
{
    if s.len() == 0 {
        Seq::empty()
    } else {
        let front = with_fate(s.drop_last(), seen, f);
        if fate(s.last(), seen) == f {
            front.push(s.last())
        } else {
            front
        }
    }
}

/// How many of the candidates failed their verification.
pub open spec fn failed_verifications(s: Seq<OutcomeView>) -> nat
    decreases s.len(),
{
    if s.len() == 0 {
        0
    } else {
        failed_verifications(s.drop_last()) + (if s.last().candidate is None && s.last().stage
            == Some(CandidateFailureStage::Verification) {
            1nat
        } else {
            0nat
        })
    }
}

/// How many retries the candidates took.
pub open spec fn all_retries(s: Seq<OutcomeView>) -> nat
    decreases s.len(),
{
    if s.len() == 0 {
        0
    } else {
        all_retries(s.drop_last()) + s.last().retries
    }
}

/// The changes that a verdict on several candidates brings.
pub open spec fn updates_of(
    s: Seq<OutcomeView>,
    v: Verdict,
    phase: ExecutionPhase,
    fanout: nat,
) -> Seq<UpdateView> {
    Seq::new(s.len(), |i: int| update_of(s[i], v, phase, fanout))
}

/// The candidates that compete, preferred ones first.
pub open spec fn competitors(s: Seq<OutcomeView>, seen: Seq<Seq<char>>) -> Seq<OutcomeView> {
    candidate::ranked(with_fate(s, seen, Fate::Competes))
}

/// The candidates that compete and differ, preferred ones first.
pub open spec fn finalists(s: Seq<OutcomeView>, seen: Seq<Seq<char>>) -> Seq<OutcomeView> {
    let c = competitors(s, seen);
    candidate::originals(c, c.len() as int)
}

/// The candidates that compete but repeat a preferred one.
pub open spec fn repeated(s: Seq<OutcomeView>, seen: Seq<Seq<char>>) -> Seq<OutcomeView> {
    let c = competitors(s, seen);
    candidate::duplicates(c, c.len() as int)
}

/// The changes that settling a step brings, in order: candidates that failed, that lead
/// back, that repeat another, the accepted one, and the others.
pub open spec fn all_updates(
    s: Seq<OutcomeView>,
    seen: Seq<Seq<char>>,
    phase: ExecutionPhase,
    fanout: nat,
) -> Seq<UpdateView> {
    let f = finalists(s, seen);
    let head = updates_of(with_fate(s, seen, Fate::Failed), Verdict::Failed, phase, fanout)
        + updates_of(with_fate(s, seen, Fate::Stale), Verdict::Stale, phase, fanout)
        + updates_of(repeated(s, seen), Verdict::Duplicate, phase, fanout);
    if f.len() > 0 {
        head + seq![update_of(f[0], Verdict::Accepted, phase, fanout)] + updates_of(
            f.drop_first(),
            Verdict::Outranked,
            phase,
            fanout,
        )
    } else {
        head
    }
}

/// What came of a step.
pub open spec fn step_summary(
    s: Seq<OutcomeView>,
    seen: Seq<Seq<char>>,
    elapsed_ms: u64,
) -> StepView {
    let won = finalists(s, seen).len() > 0;
    StepView {
        accepted: if won {
            1
        } else {
            0
        },
        rejected: (s.len() - (if won {
            1int
        } else {
            0
        })) as nat,
        verification_failures: failed_verifications(s),
        retries: all_retries(s),
        first_candidate_ms: if won {
            Some(elapsed_ms)
        } else {
            None
        },
        ..summary::nothing()
    }
}

/// A candidate that is accepted.
#[derive(Debug, Clone, PartialEq, Eq)]
pub struct AcceptedCandidate {
    pub file_key: String,
    pub content: String,
    pub agent_id: String,
    pub state_hash: String,
}

/// What a settled step brings.
#[derive(Debug)]
pub struct StepDispatchResult {
    pub file_key: String,
    pub summary: StepExecutionSummary,
    pub updates: Vec<StatusUpdate>,
    pub winner: Option<AcceptedCandidate>,
}

/// Whether a verified candidate carries the hash of its state.
pub open spec fn is_complete(o: OutcomeView) -> bool {
    o.candidate is Some ==> o.hash is Some
}

/// Whether the accepted candidate is the given one.
pub open spec fn is_winner(w: AcceptedCandidate, o: OutcomeView, file: Seq<char>) -> bool {
    &&& w.file_key@ == file
    &&& Some(w.content@) == o.candidate
    &&& w.agent_id@ == o.agent
    &&& Some(w.state_hash@) == o.hash
}

fn is_seen(hash: &str, seen: &[String]) -> (r: bool)
    ensures
        r == chars::texts(seen@).contains(hash@),
{
    let ghost all = chars::texts(seen@);
    let mut i: usize = 0;
    while i < seen.len()
        invariant
            all == chars::texts(seen@),
            i <= seen@.len(),
            forall|j: int| 0 <= j < i ==> #[trigger] all[j] != hash@,
        decreases seen@.len() - i,
    {
        proof {
            assert(all[i as int] == seen@[i as int]@);
        }
        if same(seen[i].as_str(), hash) {
            proof {
                assert(all[i as int] == hash@);
            }
            return true;
        }
        i = i + 1;
    }
    false
}

fn fate_of(o: &CandidateOutcome, seen: &[String]) -> (r: Fate)
    ensures
        r == fate(o@, chars::texts(seen@)),
{
    if o.candidate.is_none() {
        return Fate::Failed;
    }
    match &o.state_hash {
        Some(h) => {
            if is_seen(h.as_str(), seen) {
                Fate::Stale
            } else {
                Fate::Competes
            }
        },
        None => Fate::Competes,
    }
}

fn push_updates(
    out: &mut Vec<StatusUpdate>,
    v: &[CandidateOutcome],
    from: usize,
    verdict: Verdict,
    phase: ExecutionPhase,
    fanout: usize,
)
    requires
        from <= v@.len(),
    ensures
        sorting::views(final(out)@) == sorting::views(old(out)@) + updates_of(
            sorting::views(v@).skip(from as int),
            verdict,
            phase,
            fanout as nat,
        ),
{
    let ghost start = sorting::views(out@);
    let ghost all = sorting::views(v@).skip(from as int);
    let ghost want = updates_of(all, verdict, phase, fanout as nat);
    let mut i: usize = from;
    proof {
        assert(sorting::views(out@) =~= start + want.take(0));
    }
    while i < v.len()
        invariant
            all == sorting::views(v@).skip(from as int),
            want == updates_of(all, verdict, phase, fanout as nat),
            from <= i <= v@.len(),
            sorting::views(out@) == start + want.take(i - from),
        decreases v@.len() - i,
    {
        let ghost before = out@;
        let u = make_update(&v[i], verdict, phase, fanout);
        out.push(u);
        proof {
            assert(all[i - from] == v@[i as int]@);
            assert(sorting::views(out@) =~= sorting::views(before).push(want[i - from]));
            assert(start + want.take(i - from + 1) =~= (start + want.take(i - from)).push(
                want[i - from],
            ));
        }
        i = i + 1;
    }
    proof {
        assert(want.take(want.len() as int) =~= want);
    }
}

proof fn lemma_fates(s: Seq<OutcomeView>, seen: Seq<Seq<char>>)
    ensures
        with_fate(s, seen, Fate::Failed).len() + with_fate(s, seen, Fate::Stale).len() + with_fate(
            s,
            seen,
            Fate::Competes,
        ).len() == s.len(),
        failed_verifications(s) <= s.len(),
    decreases s.len(),
{
    if s.len() > 0 {
        lemma_fates(s.drop_last(), seen);
    }
}

proof fn lemma_retries_take(s: Seq<OutcomeView>, n: int)
    requires
        0 <= n <= s.len(),
    ensures
        all_retries(s.take(n)) <= all_retries(s),
    decreases s.len(),
{
    if n < s.len() {
        lemma_retries_take(s.drop_last(), n);
        assert(s.drop_last().take(n) =~= s.take(n));
    } else {
        assert(s.take(n) =~= s);
    }
}

proof fn lemma_ranked_len(s: Seq<OutcomeView>)
    ensures
        candidate::ranked(s).len() == s.len(),
        candidate::ranked(s).to_multiset() =~= s.to_multiset(),
{
    sorting::law_sorted::<CandidateOutcome>(s);
    vstd::seq_lib::to_multiset_len(s);
    vstd::seq_lib::to_multiset_len(candidate::ranked(s));
}

proof fn lemma_fate_holds(s: Seq<OutcomeView>, seen: Seq<Seq<char>>, f: Fate, x: OutcomeView)
    requires
        with_fate(s, seen, f).contains(x),
    ensures
        s.contains(x),
        fate(x, seen) == f,
    decreases s.len(),
{
    if s.len() > 0 {
        let front = with_fate(s.drop_last(), seen, f);
        let all = with_fate(s, seen, f);
        let k = choose|k: int| 0 <= k < all.len() && all[k] == x;
        if k < front.len() {
            assert(front[k] == x);
            lemma_fate_holds(s.drop_last(), seen, f, x);
            let j = choose|j: int| 0 <= j < s.drop_last().len() && s.drop_last()[j] == x;
            assert(s[j] == x);
        } else {
            assert(s[s.len() - 1] == x);
        }
    }
}

proof fn lemma_winner(s: Seq<OutcomeView>, seen: Seq<Seq<char>>)
    requires
        finalists(s, seen).len() > 0,
    ensures
        s.contains(finalists(s, seen)[0]),
        fate(finalists(s, seen)[0], seen) == Fate::Competes,
        competitors(s, seen).len() > 0,
        finalists(s, seen)[0] == competitors(s, seen)[0],
{
    let w = with_fate(s, seen, Fate::Competes);
    let c = competitors(s, seen);
    lemma_ranked_len(w);
    candidate::law_split_loses_nothing(c);
    candidate::law_first_candidate_is_kept(c);
    w.to_multiset_ensures();
    c.to_multiset_ensures();
    assert(c.contains(c[0]));
    assert(w.to_multiset().count(c[0]) > 0);
    lemma_fate_holds(s, seen, Fate::Competes, c[0]);
}

/// Settles a step: candidates that failed or that lead back to an earlier state are
/// rejected, the others are ranked, repetitions are rejected, the first is accepted and the
/// rest is rejected.
pub fn settle_step(
    file_key: &str,
    outcomes: Vec<CandidateOutcome>,
    seen_hashes: &[String],
    phase: ExecutionPhase,
    fanout: usize,
    elapsed_ms: u64,
) -> (r: StepDispatchResult)
    requires
        all_retries(sorting::views(outcomes@)) <= usize::MAX,
        forall|i: int| 0 <= i < outcomes@.len() ==> is_complete((#[trigger] outcomes@[i])@),
    ensures
        r.file_key@ == file_key@,
        r.summary@ == step_summary(
            sorting::views(outcomes@),
            chars::texts(seen_hashes@),
            elapsed_ms,
        ),
        sorting::views(r.updates@) == all_updates(
            sorting::views(outcomes@),
            chars::texts(seen_hashes@),
            phase,
            fanout as nat,
        ),
        match r.winner {
            Some(w) => finalists(
                sorting::views(outcomes@),
                chars::texts(seen_hashes@),
            ).len() > 0 && is_winner(
                w,
                finalists(sorting::views(outcomes@), chars::texts(seen_hashes@))[0],
                file_key@,
            ),
            None => finalists(
                sorting::views(outcomes@),
                chars::texts(seen_hashes@),
            ).len() == 0,
        },
{
    let ghost all = sorting::views(outcomes@);
    let ghost seen = chars::texts(seen_hashes@);
    let n: usize = outcomes.len();
    let mut rest = outcomes;
    let mut failed: Vec<CandidateOutcome> = Vec::new();
    let mut stale: Vec<CandidateOutcome> = Vec::new();
    let mut competing: Vec<CandidateOutcome> = Vec::new();
    let mut retries: usize = 0;
    let mut failures: usize = 0;
    let mut i: usize = 0;
    proof {
        assert(all.take(0) =~= Seq::<OutcomeView>::empty());
        assert(sorting::views(failed@) =~= Seq::<OutcomeView>::empty());
        assert(sorting::views(stale@) =~= Seq::<OutcomeView>::empty());
        assert(sorting::views(competing@) =~= Seq::<OutcomeView>::empty());
        assert(sorting::views(rest@) =~= all.skip(0));
        assert forall|k: int| 0 <= k < all.len() implies is_complete(#[trigger] all[k]) by {
            assert(all[k] == outcomes@[k]@);
        }
    }
    while i < n
        invariant
            n == all.len(),
            seen == chars::texts(seen_hashes@),
            all_retries(all) <= usize::MAX,
            i <= n,
            rest@.len() == n - i,
            sorting::views(rest@) == all.skip(i as int),
            sorting::views(failed@) == with_fate(all.take(i as int), seen, Fate::Failed),
            sorting::views(stale@) == with_fate(all.take(i as int), seen, Fate::Stale),
            sorting::views(competing@) == with_fate(all.take(i as int), seen, Fate::Competes),
            retries == all_retries(all.take(i as int)),
            failures == failed_verifications(all.take(i as int)),
            failures <= i,
        decreases n - i,
    {
        let ghost before = rest@;
        let ghost f0 = failed@;
        let ghost s0 = stale@;
        let ghost c0 = competing@;
        let o = rest.remove(0);
        proof {
            assert(sorting::views(before)[0] == o@);
            assert(all.skip(i as int)[0] == all[i as int]);
            assert(all.take(i + 1).drop_last() =~= all.take(i as int));
            assert(all.take(i + 1).last() == o@);
            lemma_retries_take(all, i + 1);
            assert forall|k: int| 0 <= k < rest@.len() implies #[trigger] sorting::views(rest@)[k]
                == all.skip(i + 1)[k] by {
                assert(rest@[k] == before[k + 1]);
                assert(sorting::views(before)[k + 1] == all.skip(i as int)[k + 1]);
            }
            assert(sorting::views(rest@) =~= all.skip(i + 1));
        }
        retries = retries + o.retry_attempts;
        match fate_of(&o, seen_hashes) {
            Fate::Failed => {
                if o.failure_stage == Some(CandidateFailureStage::Verification) {
                    failures = failures + 1;
                }
                failed.push(o);
                proof {
                    assert(sorting::views(failed@) =~= sorting::views(f0).push(all[i as int]));
                }
            },
            Fate::Stale => {
                stale.push(o);
                proof {
                    assert(sorting::views(stale@) =~= sorting::views(s0).push(all[i as int]));
                }
            },
            Fate::Competes => {
                competing.push(o);
                proof {
                    assert(sorting::views(competing@) =~= sorting::views(c0).push(
                        all[i as int],
                    ));
                }
            },
        }
        i = i + 1;
    }
    proof {
        assert(all.take(all.len() as int) =~= all);
        lemma_fates(all, seen);
        lemma_ranked_len(with_fate(all, seen, Fate::Competes));
    }
    let ordered = rank_candidate_outcomes(competing);
    proof {
        assert(sorting::views(ordered@).len() == ordered@.len());
        candidate::law_split_loses_nothing(sorting::views(ordered@));
    }
    let (unique, double) = split_duplicate_state_candidates(ordered);
    let mut updates: Vec<StatusUpdate> = Vec::new();
    proof {
        assert(sorting::views(updates@) =~= Seq::<UpdateView>::empty());
        assert(sorting::views(failed@).skip(0) =~= sorting::views(failed@));
        assert(sorting::views(stale@).skip(0) =~= sorting::views(stale@));
        assert(sorting::views(double@).skip(0) =~= sorting::views(double@));
    }
    push_updates(&mut updates, failed.as_slice(), 0, Verdict::Failed, phase, fanout);
    push_updates(&mut updates, stale.as_slice(), 0, Verdict::Stale, phase, fanout);
    push_updates(&mut updates, double.as_slice(), 0, Verdict::Duplicate, phase, fanout);
    let ghost head = sorting::views(updates@);
    proof {
        assert(head =~= updates_of(
            with_fate(all, seen, Fate::Failed),
            Verdict::Failed,
            phase,
            fanout as nat,
        ) + updates_of(with_fate(all, seen, Fate::Stale), Verdict::Stale, phase, fanout as nat)
            + updates_of(repeated(all, seen), Verdict::Duplicate, phase, fanout as nat));
        assert(sorting::views(unique@).len() == unique@.len());
    }
    if unique.len() == 0 {
        return StepDispatchResult {
            file_key: own(file_key),
            summary: StepExecutionSummary {
                accepted: 0,
                rejected: n,
                verification_failures: failures,
                retry_attempts: retries,
                time_to_first_candidate_ms: None,
                time_to_verified_repair_ms: None,
                final_bundle_verified: false,
                applied: false,
                run_root: None,
                final_verification: None,
            },
            updates,
            winner: None,
        };
    }
    proof {
        lemma_winner(all, seen);
        let w = finalists(all, seen)[0];
        let k = choose|k: int| 0 <= k < all.len() && all[k] == w;
        assert(is_complete(all[k]));
        assert(sorting::views(unique@)[0] == unique@[0]@);
        assert(unique@[0]@ == w);
    }
    let ghost u0 = updates@;
    updates.push(make_update(&unique[0], Verdict::Accepted, phase, fanout));
    proof {
        assert(sorting::views(updates@) =~= sorting::views(u0).push(
            update_of(unique@[0]@, Verdict::Accepted, phase, fanout as nat),
        ));
        assert(sorting::views(unique@).skip(1) =~= finalists(all, seen).drop_first());
    }
    push_updates(&mut updates, unique.as_slice(), 1, Verdict::Outranked, phase, fanout);
    proof {
        assert(sorting::views(updates@) =~= all_updates(all, seen, phase, fanout as nat));
    }
    let first = &unique[0];
    let content = match &first.candidate {
        Some(t) => own(t.as_str()),
        None => String::new(),
    };
    let state_hash = match &first.state_hash {
        Some(t) => own(t.as_str()),
        None => String::new(),
    };
    StepDispatchResult {
        file_key: own(file_key),
        summary: StepExecutionSummary {
            accepted: 1,
            rejected: n - 1,
            verification_failures: failures,
            retry_attempts: retries,
            time_to_first_candidate_ms: Some(elapsed_ms),
            time_to_verified_repair_ms: None,
            final_bundle_verified: false,
            applied: false,
            run_root: None,
            final_verification: None,
        },
        updates,
        winner: Some(
            AcceptedCandidate {
                file_key: own(file_key),
                content,
                agent_id: own(first.agent_id.as_str()),
                state_hash,
            },
        ),
    }
}

/// Every candidate of a step is accepted or rejected, and each is recorded once.
pub proof fn law_every_candidate_is_settled(
    s: Seq<OutcomeView>,
    seen: Seq<Seq<char>>,
    phase: ExecutionPhase,
    fanout: nat,
    elapsed_ms: u64,
)
    ensures
        step_summary(s, seen, elapsed_ms).accepted + step_summary(s, seen, elapsed_ms).rejected
            == s.len(),
        all_updates(s, seen, phase, fanout).len() == s.len(),
        step_summary(s, seen, elapsed_ms).accepted <= 1,
{
    lemma_fates(s, seen);
    lemma_ranked_len(with_fate(s, seen, Fate::Competes));
    candidate::law_split_loses_nothing(competitors(s, seen));
    if finalists(s, seen).len() > 0 {
        lemma_winner(s, seen);
        assert(s.len() > 0);
    }
}

/// An accepted candidate was verified, and it does not lead back to a state that its file
/// had before.
pub proof fn law_accepted_candidates_are_new(s: Seq<OutcomeView>, seen: Seq<Seq<char>>)
    requires
        finalists(s, seen).len() > 0,
    ensures
        s.contains(finalists(s, seen)[0]),
        finalists(s, seen)[0].candidate is Some,
        finalists(s, seen)[0].hash is Some ==> !seen.contains(finalists(s, seen)[0].hash->0),
{
    lemma_winner(s, seen);
}

/// No competing candidate is preferred to the accepted one.
pub proof fn law_accepted_candidates_are_preferred(
    s: Seq<OutcomeView>,
    seen: Seq<Seq<char>>,
    x: OutcomeView,
)
    requires
        finalists(s, seen).len() > 0,
        with_fate(s, seen, Fate::Competes).contains(x),
    ensures
        !candidate::preferred(x, finalists(s, seen)[0]),
{
    lemma_winner(s, seen);
    let w = with_fate(s, seen, Fate::Competes);
    let c = competitors(s, seen);
    sorting::law_sorted::<CandidateOutcome>(w);
    w.to_multiset_ensures();
    c.to_multiset_ensures();
    assert(w.to_multiset().count(x) > 0);
    assert(c.contains(x));
    let k = choose|k: int| 0 <= k < c.len() && c[k] == x;
    if k > 0 {
        assert(!<CandidateOutcome as sorting::Ranked>::less(c[k], c[0]));
    } else {
        <CandidateOutcome as sorting::Ranked>::irreflexive(c[0]);
    }
}

} // verus!
