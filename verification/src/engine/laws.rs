//! Laws of how steps are planned, dispatched, tried and settled.
use crate::engine::batch;
use crate::engine::batch::{PlanStepView, StateView, TargetView};
use crate::engine::candidate;
use crate::engine::candidate::{CandidateFailureStage, CandidateSource, OutcomeView};
use crate::engine::plan;
use crate::engine::plan::{AcceptedView, PlanView};
use crate::engine::settle;
use crate::engine::settle::{Fate, UpdateView, Verdict};
use crate::engine::summary;
use crate::engine::summary::StepView;
use crate::engine::variant;
use crate::engine::variant::{Generation, VariantStage, VariantView};
use crate::engine::verify;
use crate::engine::verify::ResultView;
use crate::json;
use crate::json::JsonView;
use crate::score;
use crate::sorting;
use crate::text::order;
use crate::thermal::ExecutionPhase;
use vstd::prelude::*;

verus! {

/// The steps on a file are the steps of the plan that name it, all of them, in their order and
/// with their places in the plan.
pub proof fn law_steps_on_a_file(steps: Seq<PlanStepView>, n: int, file: Seq<char>)
    requires
        0 <= n <= steps.len(),
    ensures
        ({
            let found = batch::steps_on(steps, n, file);
            &&& forall|k: int|
                0 <= k < found.len() ==> (#[trigger] found[k]).index < n && found[k].step
                    == steps[found[k].index as int] && found[k].step.file == file
            &&& forall|a: int, b: int|
                0 <= a < b < found.len() ==> (#[trigger] found[a]).index < (
                #[trigger] found[b]).index
            &&& forall|i: int|
                0 <= i < n && (#[trigger] steps[i]).file == file ==> has_index(found, i)
        }),
    decreases n,
{
    if n > 0 {
        law_steps_on_a_file(steps, n - 1, file);
        let front = batch::steps_on(steps, n - 1, file);
        let found = batch::steps_on(steps, n, file);
        assert forall|k: int| 0 <= k < found.len() implies (#[trigger] found[k]).index < n
            && found[k].step == steps[found[k].index as int] && found[k].step.file == file by {
            if k < front.len() {
                assert(found[k] == front[k]);
            }
        }
        assert forall|a: int, b: int| 0 <= a < b < found.len() implies (#[trigger] found[a]).index
            < (#[trigger] found[b]).index by {
            assert(found[a] == front[a]);
            if b < front.len() {
                assert(found[b] == front[b]);
            }
        }
        assert forall|i: int| 0 <= i < n && (#[trigger] steps[i]).file == file implies has_index(
            found,
            i,
        ) by {
            if i < n - 1 {
                assert(has_index(front, i));
                let k = choose|k: int| 0 <= k < front.len() && (#[trigger] front[k]).index == i;
                assert(found[k].index == i);
            } else {
                assert(found[front.len() as int].index == i);
            }
        }
    }
}

/// Whether a step with the given place is among the steps.
pub open spec fn has_index(s: Seq<batch::IndexedView>, i: int) -> bool {
    exists|k: int| 0 <= k < s.len() && (#[trigger] s[k]).index == i
}

/// As many candidates are tried at once as the phase, the room at the file and the slots allow,
/// and no fewer: one while scaffolding, all there is room for while resolving, and half of what
/// the file can take while annealing.
pub proof fn law_fanout_is_as_wide_as_allowed(
    phase: ExecutionPhase,
    max_concurrency: int,
    density: int,
    current_density: int,
)
    requires
        1 <= density,
        1 <= max_concurrency,
        0 <= current_density,
    ensures
        ({
            let f = batch::fanout(phase, max_concurrency, density, current_density);
            let room = density - current_density;
            &&& f == 0 <==> room <= 0
            &&& room > 0 ==> {
                &&& f <= room
                &&& f <= max_concurrency
                &&& phase is Scaffolding ==> f == 1
                &&& phase is Resolution ==> f == room || f == max_concurrency
                &&& phase is Annealing ==> 2 * f <= density + 1 && (f == room || f
                    == max_concurrency || 2 * f >= density)
            }
        }),
{
}

/// Of two states the one of higher priority comes first, and of two with the same priority the
/// one whose file comes first by name.
pub proof fn law_higher_priority_states_come_first(a: StateView, b: StateView)
    requires
        a.steps.len() > 0,
        b.steps.len() > 0,
        score::is_finite(a.steps[0].step.priority),
        score::is_finite(b.steps[0].step.priority),
    ensures
        score::value_of(a.steps[0].step.priority) > score::value_of(b.steps[0].step.priority)
            ==> batch::comes_first(a, b) && !batch::comes_first(b, a),
        a.steps[0].step.priority == b.steps[0].step.priority ==> batch::comes_first(a, b)
            == order::text_less(a.file, b.file),
{
    let x = a.steps[0].step.priority;
    let y = b.steps[0].step.priority;
    score::law_ranks_order_numbers(y, x);
    score::law_ranks_order_numbers(x, y);
}

proof fn lemma_first_state(states: Seq<StateView>, n: int, phase: ExecutionPhase, j: int)
    requires
        0 <= j < n <= states.len(),
        batch::phase_of(states[j]) == Some(phase),
    ensures
        batch::first_state(states, n, phase) matches Some(k) && 0 <= k < n && batch::phase_of(
            states[k],
        ) == Some(phase) && !batch::comes_first(states[j], states[k]),
    decreases n,
{
    if j < n - 1 {
        lemma_first_state(states, n - 1, phase, j);
        let k = batch::first_state(states, n - 1, phase).unwrap();
        if batch::comes_first(states[n - 1], states[k]) {
            lemma_comes_first_transitive(states[n - 1], states[k], states[j]);
        }
    } else {
        order::lemma_text_irreflexive(states[j].file);
        match batch::first_state(states, n - 1, phase) {
            Some(k) => {
                lemma_first_state_in(states, n - 1, phase);
            },
            None => {},
        }
    }
}

proof fn lemma_first_state_in(states: Seq<StateView>, n: int, phase: ExecutionPhase)
    requires
        0 <= n <= states.len(),
    ensures
        batch::first_state(states, n, phase) matches Some(k) ==> 0 <= k < n && batch::phase_of(
            states[k],
        ) == Some(phase),
    decreases n,
{
    if n > 0 {
        lemma_first_state_in(states, n - 1, phase);
    }
}

proof fn lemma_comes_first_transitive(a: StateView, b: StateView, c: StateView)
    requires
        batch::comes_first(a, b),
        !batch::comes_first(c, b),
    ensures
        !batch::comes_first(c, a),
{
    if batch::comes_first(c, a) && order::text_less(c.file, a.file) && order::text_less(
        a.file,
        b.file,
    ) {
        order::lemma_text_transitive(c.file, a.file, b.file);
    }
}

/// Where no target can be launched, one state of the phase is worked on, and none of the phase
/// comes before it.
pub proof fn law_fallback_takes_the_first_state(
    states: Seq<StateView>,
    wanted: Seq<i32>,
    targets: Seq<TargetView>,
    phase: ExecutionPhase,
    max_concurrency: int,
    j: int,
)
    requires
        batch::targeted(
            states,
            wanted,
            targets,
            targets.len() as int,
            phase,
            max_concurrency,
        ).len() == 0,
        0 <= j < states.len(),
        batch::phase_of(states[j]) == Some(phase),
    ensures
        ({
            let b = batch::batch(states, wanted, targets, phase, max_concurrency);
            &&& b.len() == 1
            &&& 0 <= b[0].0 < states.len()
            &&& batch::phase_of(states[b[0].0]) == Some(phase)
            &&& !batch::comes_first(states[j], states[b[0].0])
            &&& b[0].1 >= 1
        }),
{
    lemma_first_state(states, states.len() as int, phase, j);
}

/// Whether a target is launched, and for which state with how many candidates.
pub open spec fn launches(
    states: Seq<StateView>,
    wanted: Seq<i32>,
    t: TargetView,
    phase: ExecutionPhase,
    max_concurrency: int,
    k: int,
) -> bool {
    &&& t.now
    &&& 0 <= k < states.len()
    &&& states[k].file == t.file
    &&& forall|i: int| 0 <= i < k ==> (#[trigger] states[i]).file != t.file
    &&& batch::phase_of(states[k]) == Some(phase)
    &&& batch::target_fanout(phase, max_concurrency, wanted[k], t) > 0
}

proof fn lemma_state_at(states: Seq<StateView>, file: Seq<char>, i: int)
    requires
        0 <= i <= states.len(),
        forall|j: int| 0 <= j < i ==> (#[trigger] states[j]).file != file,
    ensures
        match batch::state_at(states, file, i) {
            Some(k) => i <= k < states.len() && states[k].file == file && forall|j: int|
                0 <= j < k ==> (#[trigger] states[j]).file != file,
            None => forall|j: int| 0 <= j < states.len() ==> (#[trigger] states[j]).file != file,
        },
    decreases states.len() - i,
{
    if i < states.len() && states[i].file != file {
        lemma_state_at(states, file, i + 1);
    }
}

/// Every target that can be launched is, in the order of the targets, with the candidates that
/// its state and its room allow; no other target is.
pub proof fn law_ready_targets_are_launched(
    states: Seq<StateView>,
    wanted: Seq<i32>,
    targets: Seq<TargetView>,
    t: TargetView,
    phase: ExecutionPhase,
    max_concurrency: int,
)
    ensures
        ({
            let before = batch::targeted(
                states,
                wanted,
                targets,
                targets.len() as int,
                phase,
                max_concurrency,
            );
            let after = batch::targeted(
                states,
                wanted,
                targets.push(t),
                targets.len() as int + 1,
                phase,
                max_concurrency,
            );
            &&& forall|k: int| #[trigger]
                launches(states, wanted, t, phase, max_concurrency, k) ==> after == before.push(
                    (k, batch::target_fanout(phase, max_concurrency, wanted[k], t)),
                )
            &&& (forall|k: int| !#[trigger] launches(states, wanted, t, phase, max_concurrency, k))
                ==> after == before
        }),
{
    let n = targets.len() as int;
    lemma_targeted_front(states, wanted, targets, targets.push(t), n, phase, max_concurrency);
    lemma_state_at(states, t.file, 0);
    match batch::state_at(states, t.file, 0) {
        Some(k) => {
            assert forall|j: int| #[trigger]
                launches(states, wanted, t, phase, max_concurrency, j) implies j == k by {
                if j < k {
                    assert(states[j].file != t.file);
                } else if k < j {
                    assert(states[k].file != t.file);
                }
            }
            if t.now && batch::phase_of(states[k]) == Some(phase) && batch::target_fanout(
                phase,
                max_concurrency,
                wanted[k],
                t,
            ) > 0 {
                assert(launches(states, wanted, t, phase, max_concurrency, k));
            }
        },
        None => {},
    }
}

proof fn lemma_targeted_front(
    states: Seq<StateView>,
    wanted: Seq<i32>,
    a: Seq<TargetView>,
    b: Seq<TargetView>,
    n: int,
    phase: ExecutionPhase,
    max_concurrency: int,
)
    requires
        n <= a.len(),
        n <= b.len(),
        forall|i: int| 0 <= i < n ==> a[i] == b[i],
    ensures
        batch::targeted(states, wanted, a, n, phase, max_concurrency) == batch::targeted(
            states,
            wanted,
            b,
            n,
            phase,
            max_concurrency,
        ),
    decreases n,
{
    if n > 0 {
        lemma_targeted_front(states, wanted, a, b, n - 1, phase, max_concurrency);
    }
}

/// A target gets no more candidates than there is room for, and at least one where its phase
/// and density allow any.
pub proof fn law_targets_get_what_they_have_room_for(
    phase: ExecutionPhase,
    max_concurrency: int,
    wanted: i32,
    t: TargetView,
)
    requires
        1 <= max_concurrency,
    ensures
        ({
            let f = batch::target_fanout(phase, max_concurrency, wanted, t);
            let free = batch::fanout(
                phase,
                max_concurrency,
                crate::swarm::monitor::bounded_density(max_concurrency, wanted as int),
                t.active as int,
            );
            &&& f > 0 <==> free > 0
            &&& f <= free
            &&& t.launchable >= 1 ==> f <= t.launchable
            &&& f == free || f == t.launchable || f == 1
        }),
{
}

/// A candidate failed exactly if it was not verified, is stale exactly if its state was seen
/// before, and else competes.
pub proof fn law_fates(o: OutcomeView, seen: Seq<Seq<char>>)
    ensures
        settle::fate(o, seen) == Fate::Failed <==> o.candidate is None,
        settle::fate(o, seen) == Fate::Stale <==> o.candidate is Some && o.hash is Some
            && seen.contains(o.hash->0),
        settle::fate(o, seen) == Fate::Competes <==> o.candidate is Some && (o.hash is None
            || !seen.contains(o.hash->0)),
{
}

/// Those that share a fate are picked out of all candidates in their order, and none is missed.
pub proof fn law_candidates_of_one_fate(s: Seq<OutcomeView>, seen: Seq<Seq<char>>, f: Fate)
    ensures
        settle::with_fate(s, seen, f) == s.filter(|o: OutcomeView| settle::fate(o, seen) == f),
    decreases s.len(),
{
    reveal(Seq::filter);
    if s.len() > 0 {
        law_candidates_of_one_fate(s.drop_last(), seen, f);
    }
}

/// Retries are summed up over all candidates, and failed verifications are counted over all of
/// them.
pub proof fn law_step_numbers_add_up(a: Seq<OutcomeView>, b: Seq<OutcomeView>, o: OutcomeView)
    ensures
        settle::all_retries(a + b) == settle::all_retries(a) + settle::all_retries(b),
        settle::failed_verifications(a + b) == settle::failed_verifications(a)
            + settle::failed_verifications(b),
        settle::all_retries(seq![o]) == o.retries,
        settle::failed_verifications(seq![o]) == (if o.candidate is None && o.stage == Some(
            CandidateFailureStage::Verification,
        ) {
            1nat
        } else {
            0
        }),
    decreases b.len(),
{
    assert(seq![o].drop_last() =~= Seq::<OutcomeView>::empty());
    assert(settle::all_retries(seq![o].drop_last()) == 0);
    assert(settle::failed_verifications(seq![o].drop_last()) == 0);
    if b.len() == 0 {
        assert(a + b =~= a);
    } else {
        assert((a + b).drop_last() =~= a + b.drop_last());
        assert((a + b).last() == b.last());
        law_step_numbers_add_up(a, b.drop_last(), o);
    }
}

/// A step is won exactly if some candidate competes; then one is accepted and all others are
/// rejected, and else all are rejected.
pub proof fn law_a_step_is_won_if_any_competes(
    s: Seq<OutcomeView>,
    seen: Seq<Seq<char>>,
    elapsed_ms: u64,
)
    ensures
        ({
            let r = settle::step_summary(s, seen, elapsed_ms);
            let won = exists|i: int|
                0 <= i < s.len() && settle::fate(#[trigger] s[i], seen) == Fate::Competes;
            &&& r.accepted == (if won {
                1nat
            } else {
                0
            })
            &&& r.accepted + r.rejected == s.len()
            &&& r.first_candidate_ms == (if won {
                Some(elapsed_ms)
            } else {
                None
            })
            &&& r.retries == settle::all_retries(s)
            &&& r.verification_failures == settle::failed_verifications(s)
            &&& !r.applied
            &&& !r.verified
        }),
{
    let c = settle::with_fate(s, seen, Fate::Competes);
    let ranked = candidate::ranked(c);
    sorting::law_sorting_keeps::<crate::engine::candidate::CandidateOutcome>(c);
    lemma_with_fate_some(s, seen, Fate::Competes);
    if ranked.len() > 0 {
        candidate::law_first_candidate_is_kept(ranked);
    } else {
        assert(candidate::originals(ranked, 0) =~= Seq::<OutcomeView>::empty());
    }
    settle::law_every_candidate_is_settled(s, seen, ExecutionPhase::Resolution, 0, elapsed_ms);
}

proof fn lemma_with_fate_some(s: Seq<OutcomeView>, seen: Seq<Seq<char>>, f: Fate)
    ensures
        settle::with_fate(s, seen, f).len() > 0 <==> exists|i: int|
            0 <= i < s.len() && settle::fate(#[trigger] s[i], seen) == f,
    decreases s.len(),
{
    if s.len() > 0 {
        let front = s.drop_last();
        lemma_with_fate_some(front, seen, f);
        if settle::with_fate(front, seen, f).len() > 0 {
            let i = choose|i: int|
                0 <= i < front.len() && settle::fate(#[trigger] front[i], seen) == f;
            assert(settle::fate(s[i], seen) == f);
        }
        if settle::fate(s.last(), seen) == f {
            assert(settle::fate(s[s.len() - 1], seen) == f);
        }
        if exists|i: int| 0 <= i < s.len() && settle::fate(#[trigger] s[i], seen) == f {
            let i = choose|i: int| 0 <= i < s.len() && settle::fate(#[trigger] s[i], seen) == f;
            if i < front.len() {
                assert(settle::fate(front[i], seen) == f);
            }
        }
    }
}

/// What is recorded of a candidate carries its own log entry, tokens and cost, and says success
/// exactly if it was accepted.
pub proof fn law_updates_belong_to_their_candidates(
    o: OutcomeView,
    v: Verdict,
    phase: ExecutionPhase,
    fanout: nat,
)
    ensures
        ({
            let u = settle::update_of(o, v, phase, fanout);
            &&& u.log_id == o.log_id
            &&& u.tokens == o.tokens
            &&& u.cost == o.cost
            &&& u.status == "success"@ <==> v == Verdict::Accepted
            &&& u.status == "failed"@ <==> v != Verdict::Accepted
        }),
{
    reveal_strlit("success");
    reveal_strlit("failed");
    assert("success"@.len() == 7 && "failed"@.len() == 6);
}

/// How many of the updates say success.
pub open spec fn successes(s: Seq<UpdateView>) -> nat {
    s.filter(|u: UpdateView| u.status == "success"@).len()
}

proof fn lemma_successes_add(a: Seq<UpdateView>, b: Seq<UpdateView>)
    ensures
        successes(a + b) == successes(a) + successes(b),
    decreases b.len(),
{
    reveal(Seq::filter);
    if b.len() == 0 {
        assert(a + b =~= a);
    } else {
        assert((a + b).drop_last() =~= a + b.drop_last());
        assert((a + b).last() == b.last());
        lemma_successes_add(a, b.drop_last());
    }
}

proof fn lemma_no_successes(
    s: Seq<OutcomeView>,
    v: Verdict,
    phase: ExecutionPhase,
    fanout: nat,
)
    requires
        v != Verdict::Accepted,
    ensures
        successes(settle::updates_of(s, v, phase, fanout)) == 0,
    decreases s.len(),
{
    reveal(Seq::filter);
    let all = settle::updates_of(s, v, phase, fanout);
    if s.len() > 0 {
        lemma_no_successes(s.drop_last(), v, phase, fanout);
        assert(all.drop_last() =~= settle::updates_of(s.drop_last(), v, phase, fanout));
        law_updates_belong_to_their_candidates(s.last(), v, phase, fanout);
        assert(all.last() == settle::update_of(s.last(), v, phase, fanout));
    }
}

/// As many candidates are recorded as successes as were accepted: one at most.
pub proof fn law_one_success_is_recorded(
    s: Seq<OutcomeView>,
    seen: Seq<Seq<char>>,
    phase: ExecutionPhase,
    fanout: nat,
    elapsed_ms: u64,
)
    ensures
        successes(settle::all_updates(s, seen, phase, fanout)) == settle::step_summary(
            s,
            seen,
            elapsed_ms,
        ).accepted,
{
    let f = settle::finalists(s, seen);
    let x = settle::updates_of(
        settle::with_fate(s, seen, Fate::Failed),
        Verdict::Failed,
        phase,
        fanout,
    );
    let y = settle::updates_of(
        settle::with_fate(s, seen, Fate::Stale),
        Verdict::Stale,
        phase,
        fanout,
    );
    let z = settle::updates_of(settle::repeated(s, seen), Verdict::Duplicate, phase, fanout);
    lemma_no_successes(settle::with_fate(s, seen, Fate::Failed), Verdict::Failed, phase, fanout);
    lemma_no_successes(settle::with_fate(s, seen, Fate::Stale), Verdict::Stale, phase, fanout);
    lemma_no_successes(settle::repeated(s, seen), Verdict::Duplicate, phase, fanout);
    lemma_successes_add(x, y);
    lemma_successes_add(x + y, z);
    if f.len() > 0 {
        let w = settle::update_of(f[0], Verdict::Accepted, phase, fanout);
        let rest = settle::updates_of(f.drop_first(), Verdict::Outranked, phase, fanout);
        lemma_no_successes(f.drop_first(), Verdict::Outranked, phase, fanout);
        lemma_successes_add(x + y + z, seq![w]);
        lemma_successes_add(x + y + z + seq![w], rest);
        reveal(Seq::filter);
        law_updates_belong_to_their_candidates(f[0], Verdict::Accepted, phase, fanout);
        assert(seq![w].drop_last() =~= Seq::<UpdateView>::empty());
        assert(successes(Seq::<UpdateView>::empty()) == 0);
        assert(successes(seq![w]) == 1);
    }
}

/// Whether an update is recorded for a candidate.
pub open spec fn recorded(us: Seq<UpdateView>, o: OutcomeView) -> bool {
    exists|j: int|
        0 <= j < us.len() && (#[trigger] us[j]).log_id == o.log_id && us[j].tokens == o.tokens
            && us[j].cost == o.cost
}

proof fn lemma_recorded(
    s: Seq<OutcomeView>,
    v: Verdict,
    phase: ExecutionPhase,
    fanout: nat,
    o: OutcomeView,
)
    requires
        s.contains(o),
    ensures
        recorded(settle::updates_of(s, v, phase, fanout), o),
{
    let i = choose|i: int| 0 <= i < s.len() && s[i] == o;
    let u = settle::updates_of(s, v, phase, fanout)[i];
    assert(u.log_id == o.log_id);
}

proof fn lemma_recorded_in(a: Seq<UpdateView>, b: Seq<UpdateView>, o: OutcomeView)
    requires
        recorded(a, o) || recorded(b, o),
    ensures
        recorded(a + b, o),
{
    if recorded(a, o) {
        let j = choose|j: int|
            0 <= j < a.len() && (#[trigger] a[j]).log_id == o.log_id && a[j].tokens == o.tokens
                && a[j].cost == o.cost;
        assert((a + b)[j].log_id == o.log_id);
    } else {
        let j = choose|j: int|
            0 <= j < b.len() && (#[trigger] b[j]).log_id == o.log_id && b[j].tokens == o.tokens
                && b[j].cost == o.cost;
        assert((a + b)[a.len() + j].log_id == o.log_id);
    }
}

/// The log entry of every candidate is updated, whatever became of it.
pub proof fn law_every_log_entry_is_updated(
    s: Seq<OutcomeView>,
    seen: Seq<Seq<char>>,
    phase: ExecutionPhase,
    fanout: nat,
    i: int,
)
    requires
        0 <= i < s.len(),
    ensures
        recorded(settle::all_updates(s, seen, phase, fanout), s[i]),
{
    let o = s[i];
    let c = settle::with_fate(s, seen, Fate::Competes);
    let ranked = settle::competitors(s, seen);
    let f = settle::finalists(s, seen);
    let d = settle::repeated(s, seen);
    let x = settle::updates_of(
        settle::with_fate(s, seen, Fate::Failed),
        Verdict::Failed,
        phase,
        fanout,
    );
    let y = settle::updates_of(
        settle::with_fate(s, seen, Fate::Stale),
        Verdict::Stale,
        phase,
        fanout,
    );
    let z = settle::updates_of(d, Verdict::Duplicate, phase, fanout);
    let w = settle::update_of(f[0], Verdict::Accepted, phase, fanout);
    let rest = settle::updates_of(f.drop_first(), Verdict::Outranked, phase, fanout);
    lemma_fate_holds(s, seen, i);
    match settle::fate(o, seen) {
        Fate::Failed => {
            lemma_recorded(
                settle::with_fate(s, seen, Fate::Failed),
                Verdict::Failed,
                phase,
                fanout,
                o,
            );
            lemma_recorded_in(x, y, o);
            lemma_recorded_in(x + y, z, o);
        },
        Fate::Stale => {
            lemma_recorded(
                settle::with_fate(s, seen, Fate::Stale),
                Verdict::Stale,
                phase,
                fanout,
                o,
            );
            lemma_recorded_in(x, y, o);
            lemma_recorded_in(x + y, z, o);
        },
        Fate::Competes => {
            sorting::law_sorting_keeps::<crate::engine::candidate::CandidateOutcome>(c);
            vstd::seq_lib::to_multiset_contains(c, o);
            vstd::seq_lib::to_multiset_contains(ranked, o);
            candidate::law_split_loses_nothing(ranked);
            vstd::seq_lib::to_multiset_contains(f, o);
            vstd::seq_lib::to_multiset_contains(d, o);
            if d.contains(o) {
                lemma_recorded(d, Verdict::Duplicate, phase, fanout, o);
                lemma_recorded_in(x + y, z, o);
            } else {
                assert(f.contains(o));
                let k = choose|k: int| 0 <= k < f.len() && f[k] == o;
                if k == 0 {
                    assert(seq![w][0].log_id == o.log_id);
                    assert(recorded(seq![w], o));
                    lemma_recorded_in(x + y + z, seq![w], o);
                } else {
                    assert(f.drop_first()[k - 1] == o);
                    lemma_recorded(f.drop_first(), Verdict::Outranked, phase, fanout, o);
                    lemma_recorded_in(x + y + z + seq![w], rest, o);
                }
            }
        },
    }
    if f.len() > 0 && recorded(x + y + z, o) {
        lemma_recorded_in(x + y + z, seq![w], o);
        lemma_recorded_in(x + y + z + seq![w], rest, o);
    } else if f.len() > 0 && recorded(x + y + z + seq![w], o) {
        lemma_recorded_in(x + y + z + seq![w], rest, o);
    }
}

proof fn lemma_fate_holds(s: Seq<OutcomeView>, seen: Seq<Seq<char>>, i: int)
    requires
        0 <= i < s.len(),
    ensures
        settle::with_fate(s, seen, settle::fate(s[i], seen)).contains(s[i]),
    decreases s.len(),
{
    let f = settle::fate(s[i], seen);
    let all = settle::with_fate(s, seen, f);
    let front = settle::with_fate(s.drop_last(), seen, f);
    if i < s.len() - 1 {
        lemma_fate_holds(s.drop_last(), seen, i);
        assert(s.drop_last()[i] == s[i]);
        let k = choose|k: int| 0 <= k < front.len() && front[k] == s[i];
        assert(all[k] == s[i]);
    } else {
        assert(all[front.len() as int] == s[i]);
    }
}

/// A candidate that was made pays for its tokens and costs whether it is safe or not, and one
/// that was not made pays nothing more.
pub proof fn law_candidates_pay_what_they_cost(v: VariantView, g: Generation)
    ensures
        ({
            let after = variant::after_generation(v, g);
            match g {
                Generation::Made { text, tokens, cost } => after.tokens == v.tokens + tokens
                    && after.cost == v.cost + cost,
                Generation::Failed(_) => after.tokens == v.tokens && after.cost == v.cost,
            }
        }),
{
}

/// A candidate that could not be made ends in a failed generation, one that would blank the
/// file in a failed safety check, and any other is verified next as it was made.
pub proof fn law_made_candidates_are_verified(v: VariantView, g: Generation)
    requires
        v.stage == VariantStage::Generate || v.stage == VariantStage::Retry,
        v.outcome is None,
    ensures
        ({
            let after = variant::after_generation(v, g);
            let retried = v.stage == VariantStage::Retry;
            let base = if retried {
                v.candidate
            } else {
                v.latest
            };
            match g {
                Generation::Failed(_) => after.outcome matches Some(o) && o.stage == Some(
                    CandidateFailureStage::Generation,
                ) && o.candidate is None && after.stage == VariantStage::Finished,
                Generation::Made { text, tokens, cost } => if candidate::unsafe_reason(
                    base,
                    text@,
                ) is Some {
                    after.outcome matches Some(o) && o.stage == Some(CandidateFailureStage::Safety)
                        && o.candidate is None && after.stage == VariantStage::Finished
                } else {
                    &&& after.outcome is None
                    &&& after.candidate == text@
                    &&& after.stage == (if retried {
                        VariantStage::VerifyRetry
                    } else {
                        VariantStage::Verify
                    })
                },
            }
        }),
{
}

/// A candidate that passes is the outcome; one that fails is tried again exactly if it is the
/// first one, was not tried again yet, and there is a critique; and else it has failed.
pub proof fn law_failed_candidates_are_retried_once(
    v: VariantView,
    r: ResultView,
    hash: Seq<char>,
    structured: Seq<char>,
)
    requires
        v.stage == VariantStage::Verify || v.stage == VariantStage::VerifyRetry,
        v.outcome is None,
    ensures
        ({
            let after = variant::after_verification(v, r, hash, structured);
            let again = v.stage == VariantStage::Verify && v.index == 0 && r.critique is Some;
            &&& verify::passed(r) ==> {
                &&& after.stage == VariantStage::Finished
                &&& after.outcome matches Some(o) && o.candidate == Some(v.candidate) && o.hash
                    == Some(hash) && o.stage is None && o.reason is None
            }
            &&& !verify::passed(r) && again ==> {
                &&& after.stage == VariantStage::Retry
                &&& after.outcome is None
                &&& after.errors == r.errors
            }
            &&& !verify::passed(r) && !again ==> {
                &&& after.stage == VariantStage::Finished
                &&& after.outcome matches Some(o) && o.candidate is None && o.stage == Some(
                    CandidateFailureStage::Verification,
                ) && o.errors == r.errors && o.reason is Some
            }
        }),
{
}

/// An outcome counts one retry exactly if the candidate was made from a critique, and carries
/// what was paid for it until then.
pub proof fn law_outcomes_tell_of_retries(
    v: VariantView,
    r: ResultView,
    hash: Seq<char>,
    structured: Seq<char>,
)
    requires
        v.stage == VariantStage::Verify || v.stage == VariantStage::VerifyRetry,
        v.outcome is None,
        i64::MIN <= v.tokens <= i64::MAX,
        i128::MIN <= v.cost <= i128::MAX,
    ensures
        variant::after_verification(v, r, hash, structured).outcome matches Some(o) ==> {
            &&& o.retries == (if v.stage == VariantStage::VerifyRetry {
                1nat
            } else {
                0
            })
            &&& o.source is CritiqueRetry <==> v.stage == VariantStage::VerifyRetry
            &&& o.source is ApplyEdit <==> v.stage == VariantStage::Verify && v.index == 0
            &&& o.agent == v.agent
            &&& o.log_id == v.log_id
            &&& o.tokens == v.tokens
            &&& o.cost == v.cost
        },
{
}

/// Phases follow each other from scaffolding over resolution to annealing, and a plan is
/// finished after the last.
pub proof fn law_phases_follow_each_other(p: PlanView)
    requires
        !p.finished,
    ensures
        p.phase is Scaffolding ==> plan::phase_over(p).phase is Resolution && !plan::phase_over(
            p,
        ).finished,
        p.phase is Resolution ==> plan::phase_over(p).phase is Annealing && !plan::phase_over(
            p,
        ).finished,
        p.phase is Annealing <==> plan::phase_over(p).finished,
        plan::phase_over(p).states == p.states,
        plan::phase_over(p).accepted == p.accepted,
        plan::phase_over(p).summary == p.summary,
{
}

/// A plan dispatches while there is work, ends its phase exactly if there is none, and bundles
/// exactly what was accepted and not yet concluded.
pub proof fn law_plans_do_what_is_due(p: PlanView, batch_len: nat)
    ensures
        plan::next_action(p, batch_len) is Dispatch <==> !p.finished && batch_len > 0,
        plan::next_action(p, batch_len) is EndPhase <==> !p.finished && batch_len == 0,
        plan::next_action(p, batch_len) is Bundle <==> p.finished && p.accepted.len() > 0
            && p.summary.final_result is None,
        plan::next_action(p, batch_len) is Done <==> p.finished && (p.accepted.len() == 0
            || p.summary.final_result is Some),
{
}

/// A settled step is taken off its own file, and changes no other file; where nothing was
/// accepted, the content of the file and the states that it was in stay what they were.
pub proof fn law_settled_steps_touch_one_file(
    p: PlanView,
    k: int,
    s: StepView,
    w: Option<AcceptedView>,
)
    requires
        0 <= k < p.states.len(),
        p.states[k].steps.len() > 0,
    ensures
        ({
            let after = plan::absorbed(p, k, s, w);
            &&& after.states.len() == p.states.len()
            &&& forall|i: int|
                0 <= i < p.states.len() && i != k ==> #[trigger] after.states[i] == p.states[i]
            &&& after.states[k].file == p.states[k].file
            &&& seq![p.states[k].steps[0]] + after.states[k].steps == p.states[k].steps
            &&& w is None ==> {
                &&& after.states[k].latest == p.states[k].latest
                &&& after.states[k].seen == p.states[k].seen
                &&& after.accepted == p.accepted
            }
            &&& w matches Some(a) ==> {
                &&& after.states[k].seen.drop_last() == p.states[k].seen
                &&& after.accepted == p.accepted.push(a)
            }
            &&& after.phase == p.phase
            &&& after.finished == p.finished
        }),
{
    let after = plan::absorbed(p, k, s, w);
    assert(seq![p.states[k].steps[0]] + after.states[k].steps =~= p.states[k].steps);
    if let Some(a) = w {
        assert(after.states[k].seen.drop_last() =~= p.states[k].seen);
    }
}

/// What was accepted last for a file is what counts, and files do not answer for each other.
pub proof fn law_last_accepted_content_counts(
    accepted: Seq<AcceptedView>,
    a: AcceptedView,
    file: Seq<char>,
)
    ensures
        plan::last_content(accepted.push(a), a.file) == Some(a),
        file != a.file ==> plan::last_content(accepted.push(a), file) == plan::last_content(
            accepted,
            file,
        ),
        plan::last_content(Seq::empty(), file) is None,
{
    assert(accepted.push(a).drop_last() =~= accepted);
}

/// Every file with accepted content is named once, in order, and no other is.
pub proof fn law_accepted_files_are_named_once(accepted: Seq<AcceptedView>, file: Seq<char>)
    ensures
        sorting::ascending_texts(plan::accepted_names(accepted)),
        plan::accepted_names(accepted).contains(file) <==> exists|i: int|
            0 <= i < accepted.len() && (#[trigger] accepted[i]).file == file,
{
    let files = Seq::new(accepted.len(), |i: int| accepted[i].file);
    sorting::law_distinct_texts(files);
    assert(plan::accepted_names(accepted).contains(file) <==> files.contains(file));
    if files.contains(file) {
        let i = choose|i: int| 0 <= i < files.len() && files[i] == file;
        assert(accepted[i].file == file);
    }
    if exists|i: int| 0 <= i < accepted.len() && (#[trigger] accepted[i]).file == file {
        let i = choose|i: int| 0 <= i < accepted.len() && (#[trigger] accepted[i]).file == file;
        assert(files[i] == file);
    }
}

/// Concluding a plan counts one more failed verification exactly if the bundle did not pass,
/// and keeps the result and all other numbers.
pub proof fn law_failed_bundles_are_counted(
    s: StepView,
    passed: bool,
    result: ResultView,
    elapsed_ms: u64,
)
    ensures
        ({
            let after = plan::concluded(s, passed, result, elapsed_ms);
            &&& after.verified == passed
            &&& after.final_result == Some(result)
            &&& passed ==> after.verification_failures == s.verification_failures
                && after.verified_repair_ms == Some(elapsed_ms)
            &&& !passed ==> after.verification_failures == s.verification_failures + 1
                && after.verified_repair_ms == s.verified_repair_ms && after.applied == s.applied
            &&& after.accepted == s.accepted
            &&& after.rejected == s.rejected
            &&& after.retries == s.retries
            &&& after.first_candidate_ms == s.first_candidate_ms
        }),
{
}

/// Of two durations the shorter one is kept, and any is kept rather than none.
pub proof fn law_shorter_durations_are_kept(a: Option<u64>, b: Option<u64>)
    ensures
        summary::shorter(a, b) == summary::shorter(b, a),
        a matches Some(x) ==> (summary::shorter(a, b) matches Some(z) && z <= x),
        summary::shorter(a, b) == a || summary::shorter(a, b) == b,
        summary::shorter(a, b) is None <==> a is None && b is None,
{
}

/// Merging summaries adds their counts and holds what either of them says happened, whichever
/// comes first.
pub proof fn law_merging_adds_up(a: StepView, b: StepView)
    ensures
        ({
            let x = summary::merged(a, b);
            let y = summary::merged(b, a);
            &&& x.accepted == y.accepted && x.accepted == a.accepted + b.accepted
            &&& x.rejected == y.rejected && x.rejected == a.rejected + b.rejected
            &&& x.verification_failures == a.verification_failures + b.verification_failures
            &&& x.retries == a.retries + b.retries
            &&& x.verified <==> a.verified || b.verified
            &&& x.applied <==> a.applied || b.applied
            &&& x.first_candidate_ms == y.first_candidate_ms
            &&& x.verified_repair_ms == y.verified_repair_ms
        }),
{
    law_shorter_durations_are_kept(a.first_candidate_ms, b.first_candidate_ms);
    law_shorter_durations_are_kept(a.verified_repair_ms, b.verified_repair_ms);
}

/// The first candidate of a file is applied directly, the others explore, and what is made from
/// a critique is a retry.
pub proof fn law_sources_tell_how_candidates_were_made(index: nat, retry: bool)
    ensures
        candidate::source_of(index, retry) == CandidateSource::CritiqueRetry <==> retry,
        candidate::source_of(index, retry) == CandidateSource::ApplyEdit <==> !retry && index == 0,
        candidate::source_of(index, retry) == CandidateSource::ExploratoryNextEdit <==> !retry
            && index > 0,
{
}

proof fn lemma_field(fields: Seq<(Seq<char>, JsonView)>, key: Seq<char>, i: int, at: int)
    requires
        0 <= i <= at < fields.len(),
        fields[at].0 == key,
        forall|j: int| i <= j < at ==> (#[trigger] fields[j]).0 != key,
    ensures
        json::field_from(fields, key, i) == Some(fields[at].1),
    decreases at - i,
{
    if i < at {
        assert(fields[i].0 != key);
        lemma_field(fields, key, i + 1, at);
    }
}

proof fn lemma_no_field(fields: Seq<(Seq<char>, JsonView)>, key: Seq<char>, i: int)
    requires
        0 <= i,
        forall|j: int| i <= j < fields.len() ==> (#[trigger] fields[j]).0 != key,
    ensures
        json::field_from(fields, key, i) is None,
    decreases fields.len() - i,
{
    if i < fields.len() {
        assert(fields[i].0 != key);
        lemma_no_field(fields, key, i + 1);
    }
}

/// What is recorded of a candidate says whether it was accepted, why not if it was not, where it
/// came from and how often it was tried again.
pub proof fn law_updates_tell_what_became(
    o: OutcomeView,
    v: Verdict,
    phase: ExecutionPhase,
    fanout: nat,
)
    ensures
        ({
            let m = settle::update_of(o, v, phase, fanout).metadata;
            &&& json::value_at(m, "outcome"@) == Some(
                JsonView::Text(
                    if v == Verdict::Accepted {
                        "accepted"@
                    } else {
                        "rejected"@
                    },
                ),
            )
            &&& json::value_at(m, "reason"@) is None <==> v == Verdict::Accepted
            &&& v == Verdict::Failed ==> json::value_at(m, "reason"@) == Some(
                json::opt_text(o.reason),
            )
            &&& json::value_at(m, "sandbox_root"@) == Some(JsonView::Text(o.sandbox))
            &&& json::value_at(m, "candidate_source"@) == Some(
                JsonView::Text(candidate::source_name(o.source)),
            )
            &&& json::value_at(m, "retry_attempts"@) == Some(json::natural(o.retries))
            &&& json::value_at(m, "failure_stage"@) is Some <==> v == Verdict::Failed
        }),
{
    reveal_strlit("outcome");
    reveal_strlit("reason");
    reveal_strlit("sandbox_root");
    reveal_strlit("candidate_source");
    reveal_strlit("failure_stage");
    reveal_strlit("retry_attempts");
    reveal_strlit("phase");
    reveal_strlit("fanout");
    reveal_strlit("temperature");
    reveal_strlit("touched_lines");
    reveal_strlit("byte_delta");
    assert("reason"@[0] == 'r' && "fanout"@[0] == 'f');
    assert("failure_stage"@[0] == 'f' && "touched_lines"@[0] == 't');
    assert("outcome"@.len() == 7 && "reason"@.len() == 6 && "sandbox_root"@.len() == 12);
    assert("candidate_source"@.len() == 16 && "failure_stage"@.len() == 13);
    assert("retry_attempts"@.len() == 14 && "phase"@.len() == 5 && "fanout"@.len() == 6);
    assert("temperature"@.len() == 11 && "touched_lines"@.len() == 13);
    assert("byte_delta"@.len() == 10);
    let m = settle::update_of(o, v, phase, fanout).metadata;
    let f = m->Object_0;
    let why = if v == Verdict::Accepted {
        0int
    } else {
        1
    };
    let stage = if v == Verdict::Failed {
        1int
    } else {
        0
    };
    assert(f[0].0 == "outcome"@);
    lemma_field(f, "outcome"@, 0, 0);
    if v != Verdict::Accepted {
        assert(f[1].0 == "reason"@);
        lemma_field(f, "reason"@, 0, 1);
    } else {
        lemma_no_field(f, "reason"@, 0);
    }
    assert(f[1 + why].0 == "sandbox_root"@);
    lemma_field(f, "sandbox_root"@, 0, 1 + why);
    assert(f[2 + why].0 == "candidate_source"@);
    lemma_field(f, "candidate_source"@, 0, 2 + why);
    assert(f[3 + why + stage].0 == "retry_attempts"@);
    lemma_field(f, "retry_attempts"@, 0, 3 + why + stage);
    if v == Verdict::Failed {
        assert(f[4].0 == "failure_stage"@);
        lemma_field(f, "failure_stage"@, 0, 4);
    } else {
        lemma_no_field(f, "failure_stage"@, 0);
    }
}

/// Where both summaries name a run and a final result, those of the first are kept; where only
/// one does, its own.
pub proof fn law_merging_keeps_what_came_first(a: StepView, b: StepView)
    ensures
        ({
            let m = summary::merged(a, b);
            &&& a.run_root is Some ==> m.run_root == a.run_root
            &&& a.run_root is None ==> m.run_root == b.run_root
            &&& a.final_result is Some ==> m.final_result == a.final_result
            &&& a.final_result is None ==> m.final_result == b.final_result
        }),
{
}

/// The phase of a file is that of its next step: the steps that came before it and the step
/// itself, held against the steps that are left; a file without steps has none.
pub proof fn law_phase_of_a_file(s: StateView)
    ensures
        batch::phase_of(s) is None <==> s.steps.len() == 0,
        s.steps.len() > 0 ==> {
            let begun = s.steps[0].index + 1;
            let left = s.steps.len();
            &&& batch::phase_of(s) == Some(ExecutionPhase::Scaffolding) <==> 100 * begun < 30 * left
            &&& batch::phase_of(s) == Some(ExecutionPhase::Annealing) <==> 100 * begun >= 70 * left
            &&& batch::phase_of(s) == Some(ExecutionPhase::Resolution) <==> 30 * left <= 100 * begun
                && 100 * begun < 70 * left
        },
{
}

/// A candidate that was put aside for a state that was there before, or that another candidate
/// leaves too, is told as suppressed.
pub proof fn law_repeated_states_are_told_as_suppressed(
    o: OutcomeView,
    v: Verdict,
    s: crate::cli::progress::StateView,
)
    requires
        v == Verdict::Stale || v == Verdict::Duplicate,
        s.status == "failed"@,
        s.meta.reason == settle::verdict_reason(o, v),
    ensures
        crate::cli::progress::decision(s) == "suppressed"@,
{
    reveal_strlit("failed");
    reveal_strlit("success");
    reveal_strlit("oscillation suppressed:");
    reveal_strlit("oscillation suppressed: candidate matches a previously accepted file state");
    assert("failed"@.len() == 6 && "success"@.len() == 7);
    let said = "oscillation suppressed: candidate matches a previously accepted file state"@;
    assert(said.subrange(0, 23) =~= "oscillation suppressed:"@);
    let twice = "duplicate verified candidate output"@;
    assert(twice.subrange(0, twice.len() as int) =~= twice);
}

} // verus!
