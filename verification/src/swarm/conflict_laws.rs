//! Laws of conflicts and how they are settled.
use crate::score;
use crate::sorting;
use crate::swarm::conflict;
use crate::swarm::conflict::{
    ArbitrationAction, CandidateScore, ConflictSeverity, GapView, GroupView, ScoredView,
};
use crate::swarm::dispatch::AssignmentView;
use crate::text::find;
use crate::text::order;
use crate::text::split;
use vstd::prelude::*;

verus! {

/// The score that was given last counts, and a score of one candidate is none of another.
pub proof fn law_last_score_counts(scores: Seq<ScoredView>, x: ScoredView, id: Seq<char>)
    ensures
        conflict::score_of(scores.push(x), x.id) == Some(x.rank),
        id != x.id ==> conflict::score_of(scores.push(x), id) == conflict::score_of(scores, id),
        conflict::score_of(scores, id) is None <==> forall|i: int|
            0 <= i < scores.len() ==> (#[trigger] scores[i]).id != id,
    decreases scores.len(),
{
    assert(scores.push(x).drop_last() =~= scores);
    if scores.len() > 0 {
        law_last_score_counts(scores.drop_last(), x, id);
        if conflict::score_of(scores, id) is None {
            assert forall|i: int| 0 <= i < scores.len() implies (#[trigger] scores[i]).id != id by {
                if i < scores.len() - 1 {
                    assert(scores.drop_last()[i].id != id);
                }
            }
        }
        if forall|i: int| 0 <= i < scores.len() ==> (#[trigger] scores[i]).id != id {
            assert(scores[scores.len() - 1].id != id);
            assert forall|i: int| 0 <= i < scores.drop_last().len() implies (
            #[trigger] scores.drop_last()[i]).id != id by {
                assert(scores[i].id != id);
            }
        }
    }
}

/// Every candidate either has a score and takes part in the ranking, or is listed as having
/// none; both lists keep the order of the candidates.
pub proof fn law_candidates_with_and_without_score(ids: Seq<Seq<char>>, scores: Seq<ScoredView>)
    ensures
        conflict::unscored(ids, scores) == ids.filter(
            |id: Seq<char>| conflict::score_of(scores, id) is None,
        ),
        ({
            let with = ids.filter(|id: Seq<char>| conflict::score_of(scores, id) is Some);
            conflict::scored(ids, scores) == Seq::new(
                with.len(),
                |i: int|
                    ScoredView { id: with[i], rank: conflict::score_of(scores, with[i]).unwrap() },
            )
        }),
        conflict::unscored(ids, scores).len() + conflict::scored(ids, scores).len() == ids.len(),
    decreases ids.len(),
{
    reveal(Seq::filter);
    let with = ids.filter(|id: Seq<char>| conflict::score_of(scores, id) is Some);
    if ids.len() > 0 {
        law_candidates_with_and_without_score(ids.drop_last(), scores);
    }
    assert(conflict::scored(ids, scores) =~= Seq::new(
        with.len(),
        |i: int| ScoredView { id: with[i], rank: conflict::score_of(scores, with[i]).unwrap() },
    ));
}

/// A higher score ranks before a lower one, and of two equal ones the smaller id.
pub proof fn law_higher_scores_rank_first(a: ScoredView, b: ScoredView)
    requires
        score::is_number(a.rank as int),
        score::is_number(b.rank as int),
    ensures
        a.rank > b.rank ==> conflict::scored_before(a, b) && !conflict::scored_before(b, a),
        a.rank == b.rank ==> conflict::scored_before(a, b) == order::text_less(a.id, b.id),
{
}

/// How many of the ranked candidates are said to be tied.
pub open spec fn tied_count(n: nat, tied: Seq<bool>) -> nat
    decreases n,
{
    if n == 0 {
        0
    } else {
        tied_count((n - 1) as nat, tied) + (if n <= tied.len() && tied[n - 1] {
            1nat
        } else {
            0
        })
    }
}

proof fn lemma_tied_count(ranked: Seq<ScoredView>, tied: Seq<bool>)
    ensures
        conflict::tied_ids(ranked, tied).len() == tied_count(ranked.len(), tied),
    decreases ranked.len(),
{
    if ranked.len() > 0 {
        lemma_tied_count(ranked.drop_last(), tied);
    }
}

proof fn lemma_unscored(ids: Seq<Seq<char>>, scores: Seq<ScoredView>)
    ensures
        conflict::unscored(ids, scores).len() > 0 <==> exists|i: int|
            0 <= i < ids.len() && conflict::score_of(scores, #[trigger] ids[i]) is None,
    decreases ids.len(),
{
    if ids.len() > 0 {
        let front = ids.drop_last();
        lemma_unscored(front, scores);
        if conflict::unscored(front, scores).len() > 0 {
            let i = choose|i: int|
                0 <= i < front.len() && conflict::score_of(scores, #[trigger] front[i]) is None;
            assert(conflict::score_of(scores, ids[i]) is None);
        }
        if conflict::score_of(scores, ids.last()) is None {
            assert(conflict::score_of(scores, ids[ids.len() - 1]) is None);
        }
        if exists|i: int| 0 <= i < ids.len() && conflict::score_of(scores, #[trigger] ids[i]) is None {
            let i = choose|i: int|
                0 <= i < ids.len() && conflict::score_of(scores, #[trigger] ids[i]) is None;
            if i < ids.len() - 1 {
                assert(conflict::score_of(scores, front[i]) is None);
            }
        }
    }
}

/// A human decides exactly if there are several candidates of which one has no score or two
/// are tied for the best; then nothing is preferred, and the conflict is a severe one.
pub proof fn law_humans_decide_what_scores_cannot(
    ids: Seq<Seq<char>>,
    agents: Seq<Seq<char>>,
    scores: Seq<ScoredView>,
    gap: GapView,
)
    ensures
        ({
            let v = conflict::verdict(ids, agents, scores, gap);
            let missing = exists|i: int|
                0 <= i < ids.len() && conflict::score_of(scores, #[trigger] ids[i]) is None;
            &&& v.1.action == ArbitrationAction::RequireHumanReview <==> ids.len() != 1 && (missing
                || tied_count(ids.len(), gap.tied) > 1)
            &&& v.1.action != ArbitrationAction::RequireHumanReview ==> v.1.action
                == ArbitrationAction::PreferCandidate && v.1.winner is Some
            &&& v.1.action == ArbitrationAction::RequireHumanReview ==> {
                &&& v.0 == ConflictSeverity::High
                &&& v.1.winner is None
                &&& v.1.losers.len() == 0
            }
        }),
{
    let ranked = conflict::ranking(ids, scores);
    lemma_unscored(ids, scores);
    lemma_tied_count(ranked, gap.tied);
    law_candidates_with_and_without_score(ids, scores);
    sorting::law_sorting_keeps::<CandidateScore>(conflict::scored(ids, scores));
}

/// A conflict over one candidate is settled for it, and is severe only as far as many agents
/// took part; one that a score settles is severe if three took part or the scores are close.
pub proof fn law_severity_grows_with_those_involved(
    ids: Seq<Seq<char>>,
    agents: Seq<Seq<char>>,
    scores: Seq<ScoredView>,
    gap: GapView,
)
    requires
        conflict::verdict(ids, agents, scores, gap).1.action
            == ArbitrationAction::PreferCandidate,
    ensures
        ({
            let v = conflict::verdict(ids, agents, scores, gap);
            &&& ids.len() == 1 ==> {
                &&& v.1.winner == Some(ids[0])
                &&& v.1.losers.len() == 0
                &&& v.0 == ConflictSeverity::Low <==> agents.len() < 3
                &&& v.0 == ConflictSeverity::Medium <==> agents.len() >= 3
            }
            &&& ids.len() != 1 ==> {
                &&& v.0 == ConflictSeverity::High <==> ids.len() >= 3 || agents.len() >= 3
                    || gap.narrow
                &&& v.0 == ConflictSeverity::Medium <==> ids.len() < 3 && agents.len() < 3
                    && !gap.narrow
            }
        }),
{
}

/// Where a candidate wins over others, all the others lose, in their order.
pub proof fn law_all_others_lose(
    ids: Seq<Seq<char>>,
    agents: Seq<Seq<char>>,
    scores: Seq<ScoredView>,
    gap: GapView,
)
    requires
        ids.len() > 1,
        conflict::verdict(ids, agents, scores, gap).1.action
            == ArbitrationAction::PreferCandidate,
    ensures
        ({
            let v = conflict::verdict(ids, agents, scores, gap).1;
            v.losers == ids.filter(|id: Seq<char>| Some(id) != v.winner)
        }),
{
    let w = conflict::ranking(ids, scores)[0].id;
    lemma_others(ids, w);
    assert(ids.filter(|id: Seq<char>| id != w) =~= ids.filter(
        |id: Seq<char>| Some(id) != Some(w),
    )) by {
        lemma_same_filter(ids, w);
    }
}

proof fn lemma_same_filter(ids: Seq<Seq<char>>, w: Seq<char>)
    ensures
        ids.filter(|id: Seq<char>| id != w) == ids.filter(|id: Seq<char>| Some(id) != Some(w)),
    decreases ids.len(),
{
    reveal(Seq::filter);
    if ids.len() > 0 {
        lemma_same_filter(ids.drop_last(), w);
    }
}

proof fn lemma_others(ids: Seq<Seq<char>>, w: Seq<char>)
    ensures
        conflict::others(ids, w) == ids.filter(|id: Seq<char>| id != w),
    decreases ids.len(),
{
    reveal(Seq::filter);
    if ids.len() > 0 {
        lemma_others(ids.drop_last(), w);
    }
}

proof fn lemma_on_file(given: Seq<AssignmentView>, file: Seq<char>)
    ensures
        forall|id: Seq<char>| #[trigger]
            conflict::candidates_on(given, file).contains(id) <==> exists|i: int|
                0 <= i < given.len() && (#[trigger] given[i]).file == file && given[i].candidate
                    == id,
        forall|id: Seq<char>| #[trigger]
            conflict::agents_on(given, file).contains(id) <==> exists|i: int|
                0 <= i < given.len() && (#[trigger] given[i]).file == file && given[i].agent == id,
    decreases given.len(),
{
    if given.len() > 0 {
        let front = given.drop_last();
        lemma_on_file(front, file);
        let n = given.len() - 1;
        let c0 = conflict::candidates_on(front, file);
        let c1 = conflict::candidates_on(given, file);
        let a0 = conflict::agents_on(front, file);
        let a1 = conflict::agents_on(given, file);
        assert forall|id: Seq<char>| #[trigger] c1.contains(id) <==> exists|i: int|
            0 <= i < given.len() && (#[trigger] given[i]).file == file && given[i].candidate
                == id by {
            if c0.contains(id) {
                let i = choose|i: int|
                    0 <= i < front.len() && (#[trigger] front[i]).file == file && front[i].candidate
                        == id;
                assert(given[i] == front[i]);
                let k = choose|k: int| 0 <= k < c0.len() && c0[k] == id;
                assert(c1[k] == id);
            }
            if given[n].file == file && given[n].candidate == id {
                assert(c1[c0.len() as int] == id);
            }
            if c1.contains(id) && !c0.contains(id) {
                assert(given[n].file == file && given[n].candidate == id);
            }
            if exists|i: int|
                0 <= i < given.len() && (#[trigger] given[i]).file == file && given[i].candidate
                    == id {
                let i = choose|i: int|
                    0 <= i < given.len() && (#[trigger] given[i]).file == file && given[i].candidate
                        == id;
                if i < n {
                    assert(front[i] == given[i]);
                    assert(c0.contains(id));
                }
            }
        }
        assert forall|id: Seq<char>| #[trigger] a1.contains(id) <==> exists|i: int|
            0 <= i < given.len() && (#[trigger] given[i]).file == file && given[i].agent == id by {
            if a0.contains(id) {
                let i = choose|i: int|
                    0 <= i < front.len() && (#[trigger] front[i]).file == file && front[i].agent
                        == id;
                assert(given[i] == front[i]);
                let k = choose|k: int| 0 <= k < a0.len() && a0[k] == id;
                assert(a1[k] == id);
            }
            if given[n].file == file && given[n].agent == id {
                assert(a1[a0.len() as int] == id);
            }
            if a1.contains(id) && !a0.contains(id) {
                assert(given[n].file == file && given[n].agent == id);
            }
            if exists|i: int|
                0 <= i < given.len() && (#[trigger] given[i]).file == file && given[i].agent == id {
                let i = choose|i: int|
                    0 <= i < given.len() && (#[trigger] given[i]).file == file && given[i].agent
                        == id;
                if i < n {
                    assert(front[i] == given[i]);
                    assert(a0.contains(id));
                }
            }
        }
    }
}

/// A group holds exactly the agents and the candidates that were assigned on its file, each
/// once and in order.
pub proof fn law_groups_hold_what_was_assigned(
    given: Seq<AssignmentView>,
    k: int,
    id: Seq<char>,
)
    requires
        0 <= k < conflict::groups(given).len(),
    ensures
        ({
            let g = conflict::groups(given)[k];
            &&& sorting::ascending_texts(g.agents)
            &&& sorting::ascending_texts(g.candidates)
            &&& g.candidates.contains(id) <==> exists|i: int|
                0 <= i < given.len() && (#[trigger] given[i]).file == g.file && given[i].candidate
                    == id
            &&& g.agents.contains(id) <==> exists|i: int|
                0 <= i < given.len() && (#[trigger] given[i]).file == g.file && given[i].agent == id
        }),
{
    let file = conflict::files_of(given)[k];
    lemma_on_file(given, file);
    sorting::law_distinct_texts(conflict::candidates_on(given, file));
    sorting::law_distinct_texts(conflict::agents_on(given, file));
    let c = conflict::candidates_on(given, file);
    let a = conflict::agents_on(given, file);
    assert(c.contains(id) <==> sorting::distinct_texts(c).contains(id));
    assert(a.contains(id) <==> sorting::distinct_texts(a).contains(id));
}

/// Every file on which something was assigned has one group, and no other file has one.
pub proof fn law_every_file_has_one_group(given: Seq<AssignmentView>, file: Seq<char>)
    ensures
        (exists|i: int| 0 <= i < given.len() && (#[trigger] given[i]).file == file) <==> (exists|
            k: int,
        |
            0 <= k < conflict::groups(given).len() && (#[trigger] conflict::groups(given)[k]).file
                == file),
        forall|a: int, b: int|
            0 <= a < b < conflict::groups(given).len() ==> order::text_less(
                (#[trigger] conflict::groups(given)[a]).file,
                (#[trigger] conflict::groups(given)[b]).file,
            ),
{
    let files = Seq::new(given.len(), |i: int| given[i].file);
    sorting::law_distinct_texts(files);
    let fs = conflict::files_of(given);
    let gs = conflict::groups(given);
    assert(fs.contains(file) <==> files.contains(file));
    if exists|i: int| 0 <= i < given.len() && (#[trigger] given[i]).file == file {
        let i = choose|i: int| 0 <= i < given.len() && (#[trigger] given[i]).file == file;
        assert(files[i] == file);
        let k = choose|k: int| 0 <= k < fs.len() && fs[k] == file;
        assert(gs[k].file == file);
    }
    if exists|k: int| 0 <= k < gs.len() && (#[trigger] gs[k]).file == file {
        let k = choose|k: int| 0 <= k < gs.len() && (#[trigger] gs[k]).file == file;
        assert(fs[k] == file);
        let i = choose|i: int| 0 <= i < files.len() && files[i] == file;
        assert(given[i].file == file);
    }
    assert forall|a: int, b: int| 0 <= a < b < gs.len() implies order::text_less(
        (#[trigger] gs[a]).file,
        (#[trigger] gs[b]).file,
    ) by {
        assert(order::text_less(fs[a], fs[b]));
    }
}

/// Every group is settled on its own: there is one alert for each, in their order, and it does
/// not depend on the others.
pub proof fn law_alerts_are_independent(
    a: Seq<GroupView>,
    b: Seq<GroupView>,
    scores: Seq<ScoredView>,
    x: Seq<GapView>,
    y: Seq<GapView>,
)
    requires
        a.len() == x.len(),
        b.len() == y.len(),
    ensures
        conflict::alerts(a + b, scores, x + y) == conflict::alerts(a, scores, x)
            + conflict::alerts(b, scores, y),
        forall|i: int|
            0 <= i < a.len() ==> (#[trigger] conflict::alerts(a, scores, x)[i]).group == a[i],
        conflict::alerts(a, scores, x).len() == a.len(),
{
    assert(conflict::alerts(a + b, scores, x + y) =~= conflict::alerts(a, scores, x)
        + conflict::alerts(b, scores, y));
}

/// The reason of a verdict names the candidate that wins; without one it names all that are in
/// the way.
pub proof fn law_reasons_name_candidates(
    ids: Seq<Seq<char>>,
    agents: Seq<Seq<char>>,
    scores: Seq<ScoredView>,
    gap: GapView,
)
    ensures
        ({
            let v = conflict::verdict(ids, agents, scores, gap).1;
            let missing = conflict::unscored(ids, scores);
            &&& v.winner matches Some(w) ==> find::has_text(v.reason, w)
            &&& v.winner is None && missing.len() > 0 ==> find::has_suffix(
                v.reason,
                split::joined(missing, ", "@),
            )
        }),
{
    let v = conflict::verdict(ids, agents, scores, gap).1;
    if let Some(w) = v.winner {
        let at = "candidate "@.len() as int;
        assert(v.reason.subrange(at, at + w.len()) =~= w);
        assert(find::occurs_at(v.reason, w, at));
    }
    let j = split::joined(conflict::unscored(ids, scores), ", "@);
    let s = "missing arbitration scores for candidates: "@ + j;
    assert(s.subrange(s.len() - j.len(), s.len() as int) =~= j);
}

} // verus!
