//! Candidates that compete for a file.
use crate::score;
use crate::score::Score;
use crate::sorting;
use crate::sorting::{sort_distinct, sort_stable, Ranked};
use crate::swarm::dispatch::{AssignmentView, CandidateAssignment};
use crate::text::chars;
use crate::text::chars::{concat2, concat3, own, own_all, same};
use crate::text::number;
use crate::text::number::format_usize;
use crate::text::order;
use crate::text::order::text_before;
use crate::text::split;
use crate::text::split::join;
use vstd::prelude::*;
use vstd::string::*;

verus! {

broadcast use chars::lemma_texts_push, chars::lemma_texts_empty;

/// How serious a conflict is.
#[derive(Debug, Clone, Copy, PartialEq, Eq, Structural)]
pub enum ConflictSeverity {
    Low,
    Medium,
    High,
}

/// What to do about a conflict.
#[derive(Debug, Clone, Copy, PartialEq, Eq, Structural)]
pub enum ArbitrationAction {
    PreferCandidate,
    RequireHumanReview,
}

/// How a conflict is settled, and why.
#[derive(Debug, Clone, PartialEq, Eq)]
pub struct ArbitrationMetadata {
    pub action: ArbitrationAction,
    pub winning_candidate_id: Option<String>,
    pub losing_candidate_ids: Vec<String>,
    pub reason: String,
}

/// What an [`ArbitrationMetadata`] stands for.
#[verifier::ext_equal]
pub struct ArbitrationView {
    pub action: ArbitrationAction,
    pub winner: Option<Seq<char>>,
    pub losers: Seq<Seq<char>>,
    pub reason: Seq<char>,
}

impl View for ArbitrationMetadata {
    type V = ArbitrationView;

    open spec fn view(&self) -> ArbitrationView {
        ArbitrationView {
            action: self.action,
            winner: chars::opt_text(self.winning_candidate_id),
            losers: chars::texts(self.losing_candidate_ids@),
            reason: self.reason@,
        }
    }
}

/// A conflict over a file.
#[derive(Debug, Clone, PartialEq, Eq)]
pub struct ConflictAlert {
    pub file_path: String,
    pub agent_ids: Vec<String>,
    pub candidate_ids: Vec<String>,
    pub severity: ConflictSeverity,
    pub arbitration: ArbitrationMetadata,
}

/// What a [`ConflictAlert`] stands for.
#[verifier::ext_equal]
pub struct ConflictView {
    pub group: GroupView,
    pub severity: ConflictSeverity,
    pub arbitration: ArbitrationView,
}

impl View for ConflictAlert {
    type V = ConflictView;

    open spec fn view(&self) -> ConflictView {
        ConflictView {
            group: GroupView {
                file: self.file_path@,
                agents: chars::texts(self.agent_ids@),
                candidates: chars::texts(self.candidate_ids@),
            },
            severity: self.severity,
            arbitration: self.arbitration@,
        }
    }
}

/// The candidates and agents of a file.
#[derive(Debug, Clone, PartialEq, Eq)]
pub struct ConflictGroup {
    pub file_path: String,
    pub agent_ids: Vec<String>,
    pub candidate_ids: Vec<String>,
}

/// What a [`ConflictGroup`] stands for.
#[verifier::ext_equal]
pub struct GroupView {
    pub file: Seq<char>,
    pub agents: Seq<Seq<char>>,
    pub candidates: Seq<Seq<char>>,
}

impl View for ConflictGroup {
    type V = GroupView;

    open spec fn view(&self) -> GroupView {
        GroupView {
            file: self.file_path@,
            agents: chars::texts(self.agent_ids@),
            candidates: chars::texts(self.candidate_ids@),
        }
    }
}

/// The score of a candidate; higher is better.
#[derive(Debug, Clone, PartialEq, Eq)]
pub struct CandidateScore {
    pub candidate_id: String,
    pub score: Score,
}

/// What a [`CandidateScore`] stands for.
#[verifier::ext_equal]
pub struct ScoredView {
    pub id: Seq<char>,
    pub rank: i64,
}

impl View for CandidateScore {
    type V = ScoredView;

    open spec fn view(&self) -> ScoredView {
        ScoredView { id: self.candidate_id@, rank: self.score.rank }
    }
}

/// Whether a candidate comes before another: by falling score, then by id. Where one of the
/// scores is no number, only the ids count.
pub open spec fn scored_before(a: ScoredView, b: ScoredView) -> bool {
    score::lower(b.rank as int, a.rank as int) || (!score::lower(a.rank as int, b.rank as int)
        && order::text_less(a.id, b.id))
}

impl Ranked for CandidateScore {
    open spec fn proper(a: ScoredView) -> bool {
        score::is_number(a.rank as int)
    }

    open spec fn less(a: ScoredView, b: ScoredView) -> bool {
        scored_before(a, b)
    }

    fn before(&self, other: &CandidateScore) -> (r: bool) {
        self.score.above(&other.score) || (!other.score.above(&self.score) && text_before(
            self.candidate_id.as_str(),
            other.candidate_id.as_str(),
        ))
    }

    proof fn around(a: ScoredView, b: ScoredView, c: ScoredView) {
        if scored_before(c, a) && c.rank == a.rank && a.rank == b.rank {
            order::lemma_text_transitive(c.id, a.id, b.id);
        }
    }

    proof fn irreflexive(a: ScoredView) {
        order::lemma_text_irreflexive(a.id);
    }
}

/// How far the ranked candidates of a file lie apart.
#[derive(Debug, Clone, PartialEq, Eq)]
pub struct ScoreGap {
    /// For each ranked candidate, whether its score ties with the best.
    pub tied: Vec<bool>,
    /// The best score as text.
    pub best_text: String,
    /// The lead of the best score over the next, as text.
    pub lead_text: String,
    /// Whether that lead is small.
    pub narrow: bool,
}

/// What a [`ScoreGap`] stands for.
#[verifier::ext_equal]
pub struct GapView {
    pub tied: Seq<bool>,
    pub best: Seq<char>,
    pub lead: Seq<char>,
    pub narrow: bool,
}

impl View for ScoreGap {
    type V = GapView;

    open spec fn view(&self) -> GapView {
        GapView {
            tied: self.tied@,
            best: self.best_text@,
            lead: self.lead_text@,
            narrow: self.narrow,
        }
    }
}

/// The score of a candidate; of several entries the last counts.
pub open spec fn score_of(scores: Seq<ScoredView>, id: Seq<char>) -> Option<i64>
    decreases scores.len(),
{
    if scores.len() == 0 {
        None
    } else if scores.last().id == id {
        Some(scores.last().rank)
    } else {
        score_of(scores.drop_last(), id)
    }
}

/// The candidates that have no score.
pub open spec fn unscored(ids: Seq<Seq<char>>, scores: Seq<ScoredView>) -> Seq<Seq<char>>
    decreases ids.len(),
{
    if ids.len() == 0 {
        Seq::empty()
    } else {
        let front = unscored(ids.drop_last(), scores);
        if score_of(scores, ids.last()) is None {
            front.push(ids.last())
        } else {
            front
        }
    }
}

/// The candidates that have a score, with it.
pub open spec fn scored(ids: Seq<Seq<char>>, scores: Seq<ScoredView>) -> Seq<ScoredView>
    decreases ids.len(),
{
    if ids.len() == 0 {
        Seq::empty()
    } else {
        let front = scored(ids.drop_last(), scores);
        match score_of(scores, ids.last()) {
            Some(rank) => front.push(ScoredView { id: ids.last(), rank }),
            None => front,
        }
    }
}

/// The candidates that have a score, best first.
pub open spec fn ranking(ids: Seq<Seq<char>>, scores: Seq<ScoredView>) -> Seq<ScoredView> {
    sorting::sorted::<CandidateScore>(scored(ids, scores))
}

/// The ranked candidates that tie with the best.
pub open spec fn tied_ids(ranked: Seq<ScoredView>, tied: Seq<bool>) -> Seq<Seq<char>>
    decreases ranked.len(),
{
    if ranked.len() == 0 {
        Seq::empty()
    } else {
        let front = tied_ids(ranked.drop_last(), tied);
        if ranked.len() <= tied.len() && tied[ranked.len() - 1] {
            front.push(ranked.last().id)
        } else {
            front
        }
    }
}

/// The texts other than the given one.
pub open spec fn others(ids: Seq<Seq<char>>, id: Seq<char>) -> Seq<Seq<char>>
    decreases ids.len(),
{
    if ids.len() == 0 {
        Seq::empty()
    } else {
        let front = others(ids.drop_last(), id);
        if ids.last() != id {
            front.push(ids.last())
        } else {
            front
        }
    }
}

/// A conflict that a person has to settle.
pub open spec fn needs_review(reason: Seq<char>) -> (ConflictSeverity, ArbitrationView) {
    (
        ConflictSeverity::High,
        ArbitrationView {
            action: ArbitrationAction::RequireHumanReview,
            winner: None,
            losers: Seq::empty(),
            reason,
        },
    )
}

/// How a conflict is settled. A single candidate wins. Candidates without a score, and
/// candidates that tie for the best score, need a person. Else the best score wins.
pub open spec fn verdict(
    ids: Seq<Seq<char>>,
    agents: Seq<Seq<char>>,
    scores: Seq<ScoredView>,
    gap: GapView,
) -> (ConflictSeverity, ArbitrationView) {
    let missing = unscored(ids, scores);
    let ranked = ranking(ids, scores);
    let tied = tied_ids(ranked, gap.tied);
    if ids.len() == 1 {
        (
            if agents.len() >= 3 {
                ConflictSeverity::Medium
            } else {
                ConflictSeverity::Low
            },
            ArbitrationView {
                action: ArbitrationAction::PreferCandidate,
                winner: Some(ids[0]),
                losers: Seq::empty(),
                reason: "candidate "@ + ids[0] + " is duplicated across "@ + number::decimal(
                    agents.len(),
                ) + " agents for the same file"@,
            },
        )
    } else if missing.len() > 0 {
        needs_review(
            "missing arbitration scores for candidates: "@ + split::joined(missing, ", "@),
        )
    } else if tied.len() > 1 {
        needs_review(
            "candidates "@ + split::joined(tied, ", "@) + " are tied at arbitration score "@
                + gap.best,
        )
    } else {
        let winner = ranked[0].id;
        (
            if ids.len() >= 3 || agents.len() >= 3 || gap.narrow {
                ConflictSeverity::High
            } else {
                ConflictSeverity::Medium
            },
            ArbitrationView {
                action: ArbitrationAction::PreferCandidate,
                winner: Some(winner),
                losers: others(ids, winner),
                reason: "candidate "@ + winner + " leads arbitration by "@ + gap.lead
                    + " score over the next candidate"@,
            },
        )
    }
}

/// The candidates given out on a file.
pub open spec fn candidates_on(given: Seq<AssignmentView>, file: Seq<char>) -> Seq<Seq<char>>
    decreases given.len(),
{
    if given.len() == 0 {
        Seq::empty()
    } else {
        let front = candidates_on(given.drop_last(), file);
        if given.last().file == file {
            front.push(given.last().candidate)
        } else {
            front
        }
    }
}

/// The agents that got something on a file.
pub open spec fn agents_on(given: Seq<AssignmentView>, file: Seq<char>) -> Seq<Seq<char>>
    decreases given.len(),
{
    if given.len() == 0 {
        Seq::empty()
    } else {
        let front = agents_on(given.drop_last(), file);
        if given.last().file == file {
            front.push(given.last().agent)
        } else {
            front
        }
    }
}

/// The files of the assignments, in order.
pub open spec fn files_of(given: Seq<AssignmentView>) -> Seq<Seq<char>> {
    sorting::distinct_texts(Seq::new(given.len(), |i: int| given[i].file))
}

/// The candidates and agents of each file, in the order of the files.
pub open spec fn groups(given: Seq<AssignmentView>) -> Seq<GroupView> {
    Seq::new(
        files_of(given).len(),
        |i: int|
            GroupView {
                file: files_of(given)[i],
                agents: sorting::distinct_texts(agents_on(given, files_of(given)[i])),
                candidates: sorting::distinct_texts(candidates_on(given, files_of(given)[i])),
            },
    )
}

fn find_score(scores: &[CandidateScore], id: &str) -> (r: Option<Score>)
    ensures
        match r {
            Some(s) => score_of(sorting::views(scores@), id@) == Some(s.rank),
            None => score_of(sorting::views(scores@), id@) is None,
        },
{
    let ghost all = sorting::views(scores@);
    let n: usize = scores.len();
    let mut i: usize = n;
    proof {
        assert(all.take(n as int) =~= all);
    }
    while i > 0
        invariant
            all == sorting::views(scores@),
            i <= n == scores@.len(),
            score_of(all, id@) == score_of(all.take(i as int), id@),
        decreases i,
    {
        proof {
            assert(all.take(i as int).drop_last() =~= all.take(i - 1));
            assert(all.take(i as int).last() == scores@[i - 1]@);
        }
        if same(scores[i - 1].candidate_id.as_str(), id) {
            return Some(scores[i - 1].score);
        }
        i = i - 1;
    }
    None
}

/// Ranks the candidates by their scores, best first; names those without a score if there
/// are any.
pub fn rank_candidates(candidate_ids: &[String], candidate_scores: &[CandidateScore]) -> (r: Result<
    Vec<CandidateScore>,
    Vec<String>,
>)
    ensures
        match r {
            Ok(ranked) => unscored(
                chars::texts(candidate_ids@),
                sorting::views(candidate_scores@),
            ).len() == 0 && sorting::views(ranked@) == ranking(
                chars::texts(candidate_ids@),
                sorting::views(candidate_scores@),
            ),
            Err(missing) => missing@.len() > 0 && chars::texts(missing@) == unscored(
                chars::texts(candidate_ids@),
                sorting::views(candidate_scores@),
            ),
        },
{
    let ghost ids = chars::texts(candidate_ids@);
    let ghost scores = sorting::views(candidate_scores@);
    let mut found: Vec<CandidateScore> = Vec::new();
    let mut missing: Vec<String> = Vec::new();
    let mut i: usize = 0;
    proof {
        assert(ids.take(0) =~= Seq::<Seq<char>>::empty());
        assert(sorting::views(found@) =~= Seq::<ScoredView>::empty());
    }
    while i < candidate_ids.len()
        invariant
            ids == chars::texts(candidate_ids@),
            scores == sorting::views(candidate_scores@),
            i <= candidate_ids@.len(),
            sorting::views(found@) == scored(ids.take(i as int), scores),
            chars::texts(missing@) == unscored(ids.take(i as int), scores),
        decreases candidate_ids@.len() - i,
    {
        proof {
            assert(ids.take(i + 1).drop_last() =~= ids.take(i as int));
            assert(ids.take(i + 1).last() == candidate_ids@[i as int]@);
        }
        let id = candidate_ids[i].as_str();
        match find_score(candidate_scores, id) {
            Some(score) => {
                let ghost before = found@;
                found.push(CandidateScore { candidate_id: own(id), score });
                proof {
                    assert(sorting::views(found@) =~= sorting::views(before).push(
                        ScoredView { id: id@, rank: score.rank },
                    ));
                }
            },
            None => {
                missing.push(own(id));
            },
        }
        i = i + 1;
    }
    proof {
        assert(ids.take(ids.len() as int) =~= ids);
        assert(chars::texts(missing@).len() == missing@.len());
    }
    if missing.len() > 0 {
        return Err(missing);
    }
    Ok(sort_stable(found))
}

fn tied_of(ranked: &[CandidateScore], tied: &[bool]) -> (r: Vec<String>)
    ensures
        chars::texts(r@) == tied_ids(sorting::views(ranked@), tied@),
{
    let ghost all = sorting::views(ranked@);
    let mut out: Vec<String> = Vec::new();
    let mut i: usize = 0;
    while i < ranked.len()
        invariant
            all == sorting::views(ranked@),
            i <= ranked@.len(),
            chars::texts(out@) == tied_ids(all.take(i as int), tied@),
        decreases ranked@.len() - i,
    {
        proof {
            assert(all.take(i + 1).drop_last() =~= all.take(i as int));
            assert(all.take(i + 1).last() == ranked@[i as int]@);
        }
        if i < tied.len() && tied[i] {
            out.push(own(ranked[i].candidate_id.as_str()));
        }
        i = i + 1;
    }
    proof {
        assert(all.take(all.len() as int) =~= all);
    }
    out
}

fn others_of(ids: &[String], id: &str) -> (r: Vec<String>)
    ensures
        chars::texts(r@) == others(chars::texts(ids@), id@),
{
    let ghost all = chars::texts(ids@);
    let mut out: Vec<String> = Vec::new();
    let mut i: usize = 0;
    while i < ids.len()
        invariant
            all == chars::texts(ids@),
            i <= ids@.len(),
            chars::texts(out@) == others(all.take(i as int), id@),
        decreases ids@.len() - i,
    {
        proof {
            assert(all.take(i + 1).drop_last() =~= all.take(i as int));
            assert(all.take(i + 1).last() == ids@[i as int]@);
        }
        if !same(ids[i].as_str(), id) {
            out.push(own(ids[i].as_str()));
        }
        i = i + 1;
    }
    proof {
        assert(all.take(all.len() as int) =~= all);
    }
    out
}

proof fn lemma_scored_len(ids: Seq<Seq<char>>, scores: Seq<ScoredView>)
    ensures
        scored(ids, scores).len() + unscored(ids, scores).len() == ids.len(),
    decreases ids.len(),
{
    if ids.len() > 0 {
        lemma_scored_len(ids.drop_last(), scores);
    }
}

proof fn lemma_sorted_len(s: Seq<ScoredView>)
    ensures
        sorting::sorted::<CandidateScore>(s).len() == s.len(),
{
    sorting::law_sorting_keeps::<CandidateScore>(s);
}

/// Settles a conflict over a file.
pub fn classify_conflict_alert(
    candidate_ids: &[String],
    agent_ids: &[String],
    candidate_scores: &[CandidateScore],
    gap: &ScoreGap,
) -> (r: (ConflictSeverity, ArbitrationMetadata))
    requires
        candidate_ids@.len() > 0,
    ensures
        (r.0, r.1@) == verdict(
            chars::texts(candidate_ids@),
            chars::texts(agent_ids@),
            sorting::views(candidate_scores@),
            gap@,
        ),
{
    let ghost ids = chars::texts(candidate_ids@);
    let ghost scores = sorting::views(candidate_scores@);
    proof {
        assert(ids.len() == candidate_ids@.len());
        assert(chars::texts(agent_ids@).len() == agent_ids@.len());
    }
    if candidate_ids.len() == 1 {
        let winner = candidate_ids[0].as_str();
        let severity = if agent_ids.len() >= 3 {
            ConflictSeverity::Medium
        } else {
            ConflictSeverity::Low
        };
        let mut reason = concat3("candidate ", winner, " is duplicated across ");
        reason.append(format_usize(agent_ids.len()).as_str());
        reason.append(" agents for the same file");
        return (
            severity,
            ArbitrationMetadata {
                action: ArbitrationAction::PreferCandidate,
                winning_candidate_id: Some(own(winner)),
                losing_candidate_ids: Vec::new(),
                reason,
            },
        );
    }
    let ranked = match rank_candidates(candidate_ids, candidate_scores) {
        Ok(ranked) => ranked,
        Err(missing) => {
            let reason = concat2(
                "missing arbitration scores for candidates: ",
                join(missing.as_slice(), ", ").as_str(),
            );
            proof {
                assert(unscored(ids, scores).len() == missing@.len());
            }
            return (
                ConflictSeverity::High,
                ArbitrationMetadata {
                    action: ArbitrationAction::RequireHumanReview,
                    winning_candidate_id: None,
                    losing_candidate_ids: Vec::new(),
                    reason,
                },
            );
        },
    };
    proof {
        lemma_scored_len(ids, scores);
        lemma_sorted_len(scored(ids, scores));
        assert(sorting::views(ranked@).len() == ranked@.len());
        assert(sorting::views(ranked@)[0] == ranked@[0]@);
    }
    let tied = tied_of(ranked.as_slice(), gap.tied.as_slice());
    proof {
        assert(chars::texts(tied@).len() == tied@.len());
    }
    if tied.len() > 1 {
        let mut reason = concat3(
            "candidates ",
            join(tied.as_slice(), ", ").as_str(),
            " are tied at arbitration score ",
        );
        reason.append(gap.best_text.as_str());
        return (
            ConflictSeverity::High,
            ArbitrationMetadata {
                action: ArbitrationAction::RequireHumanReview,
                winning_candidate_id: None,
                losing_candidate_ids: Vec::new(),
                reason,
            },
        );
    }
    let winner = ranked[0].candidate_id.as_str();
    let severity = if candidate_ids.len() >= 3 || agent_ids.len() >= 3 || gap.narrow {
        ConflictSeverity::High
    } else {
        ConflictSeverity::Medium
    };
    let mut reason = concat3("candidate ", winner, " leads arbitration by ");
    reason.append(gap.lead_text.as_str());
    reason.append(" score over the next candidate");
    (
        severity,
        ArbitrationMetadata {
            action: ArbitrationAction::PreferCandidate,
            winning_candidate_id: Some(own(winner)),
            losing_candidate_ids: others_of(candidate_ids, winner),
            reason,
        },
    )
}

fn group_of(given: &[CandidateAssignment], file: &str) -> (r: ConflictGroup)
    ensures
        r@ == (GroupView {
            file: file@,
            agents: sorting::distinct_texts(agents_on(sorting::views(given@), file@)),
            candidates: sorting::distinct_texts(candidates_on(sorting::views(given@), file@)),
        }),
{
    let ghost all = sorting::views(given@);
    let mut agents: Vec<String> = Vec::new();
    let mut candidates: Vec<String> = Vec::new();
    let mut i: usize = 0;
    while i < given.len()
        invariant
            all == sorting::views(given@),
            i <= given@.len(),
            chars::texts(agents@) == agents_on(all.take(i as int), file@),
            chars::texts(candidates@) == candidates_on(all.take(i as int), file@),
        decreases given@.len() - i,
    {
        proof {
            assert(all.take(i + 1).drop_last() =~= all.take(i as int));
            assert(all.take(i + 1).last() == given@[i as int]@);
        }
        if same(given[i].target_file.as_str(), file) {
            agents.push(own(given[i].agent_id.as_str()));
            candidates.push(own(given[i].candidate_id.as_str()));
        }
        i = i + 1;
    }
    proof {
        assert(all.take(all.len() as int) =~= all);
    }
    ConflictGroup {
        file_path: own(file),
        agent_ids: sort_distinct(agents),
        candidate_ids: sort_distinct(candidates),
    }
}

/// Groups the assignments by file.
pub fn conflict_groups(assignments: &[CandidateAssignment]) -> (r: Vec<ConflictGroup>)
    ensures
        sorting::views(r@) == groups(sorting::views(assignments@)),
{
    let ghost given = sorting::views(assignments@);
    let mut files: Vec<String> = Vec::new();
    let mut i: usize = 0;
    while i < assignments.len()
        invariant
            i <= assignments@.len(),
            files@.len() == i,
            forall|j: int| 0 <= j < i ==> (#[trigger] files@[j])@ == assignments@[j].target_file@,
        decreases assignments@.len() - i,
    {
        files.push(own(assignments[i].target_file.as_str()));
        i = i + 1;
    }
    proof {
        assert(chars::texts(files@) =~= Seq::new(given.len(), |i: int| given[i].file));
    }
    let names = sort_distinct(files);
    let mut out: Vec<ConflictGroup> = Vec::new();
    let mut k: usize = 0;
    while k < names.len()
        invariant
            given == sorting::views(assignments@),
            chars::texts(names@) == files_of(given),
            k <= names@.len(),
            out@.len() == k,
            forall|j: int| 0 <= j < k ==> (#[trigger] out@[j])@ == groups(given)[j],
        decreases names@.len() - k,
    {
        let g = group_of(assignments, names[k].as_str());
        proof {
            assert(chars::texts(names@)[k as int] == names@[k as int]@);
        }
        out.push(g);
        k = k + 1;
    }
    proof {
        assert(chars::texts(names@).len() == names@.len());
        assert(sorting::views(out@) =~= groups(given));
    }
    out
}

/// The alerts for the groups.
pub open spec fn alerts(
    gs: Seq<GroupView>,
    scores: Seq<ScoredView>,
    gaps: Seq<GapView>,
) -> Seq<ConflictView> {
    Seq::new(
        gs.len(),
        |i: int|
            ConflictView {
                group: gs[i],
                severity: verdict(gs[i].candidates, gs[i].agents, scores, gaps[i]).0,
                arbitration: verdict(gs[i].candidates, gs[i].agents, scores, gaps[i]).1,
            },
    )
}

/// Raises an alert for each group, in order. `gaps` holds, for each group, how far its
/// ranked candidates lie apart.
pub fn build_conflict_alerts(
    conflicts: &[ConflictGroup],
    candidate_scores: &[CandidateScore],
    gaps: &[ScoreGap],
) -> (r: Vec<ConflictAlert>)
    requires
        conflicts@.len() == gaps@.len(),
        forall|i: int|
            0 <= i < conflicts@.len() ==> (#[trigger] conflicts@[i]).candidate_ids@.len() > 0,
    ensures
        sorting::views(r@) == alerts(
            sorting::views(conflicts@),
            sorting::views(candidate_scores@),
            sorting::views(gaps@),
        ),
{
    let ghost gs = sorting::views(conflicts@);
    let ghost scores = sorting::views(candidate_scores@);
    let ghost gvs = sorting::views(gaps@);
    let mut out: Vec<ConflictAlert> = Vec::new();
    let mut i: usize = 0;
    while i < conflicts.len()
        invariant
            gs == sorting::views(conflicts@),
            scores == sorting::views(candidate_scores@),
            gvs == sorting::views(gaps@),
            conflicts@.len() == gaps@.len(),
            forall|i: int|
                0 <= i < conflicts@.len() ==> (#[trigger] conflicts@[i]).candidate_ids@.len() > 0,
            i <= conflicts@.len(),
            out@.len() == i,
            forall|j: int| 0 <= j < i ==> (#[trigger] out@[j])@ == alerts(gs, scores, gvs)[j],
        decreases conflicts@.len() - i,
    {
        let g = &conflicts[i];
        let v = classify_conflict_alert(
            g.candidate_ids.as_slice(),
            g.agent_ids.as_slice(),
            candidate_scores,
            &gaps[i],
        );
        let alert = ConflictAlert {
            file_path: own(g.file_path.as_str()),
            agent_ids: own_all(g.agent_ids.as_slice()),
            candidate_ids: own_all(g.candidate_ids.as_slice()),
            severity: v.0,
            arbitration: v.1,
        };
        proof {
            assert(gs[i as int] == g@);
            assert(gvs[i as int] == gaps@[i as int]@);
            assert(alert@ =~= alerts(gs, scores, gvs)[i as int]);
        }
        out.push(alert);
        i = i + 1;
    }
    proof {
        assert(sorting::views(out@) =~= alerts(gs, scores, gvs));
    }
    out
}

proof fn lemma_on_file(given: Seq<AssignmentView>, file: Seq<char>)
    requires
        exists|i: int| 0 <= i < given.len() && (#[trigger] given[i]).file == file,
    ensures
        candidates_on(given, file).len() > 0,
    decreases given.len(),
{
    let i = choose|i: int| 0 <= i < given.len() && (#[trigger] given[i]).file == file;
    if given.last().file != file {
        assert(given.drop_last()[i].file == file);
        lemma_on_file(given.drop_last(), file);
    }
}

/// Every group has a candidate, so that every group can be settled.
pub proof fn law_groups_have_candidates(given: Seq<AssignmentView>, k: int)
    requires
        0 <= k < groups(given).len(),
    ensures
        groups(given)[k].candidates.len() > 0,
{
    let names = Seq::new(given.len(), |i: int| given[i].file);
    sorting::law_distinct_texts(names);
    let file = files_of(given)[k];
    assert(sorting::distinct_texts(names).contains(file));
    assert(names.contains(file));
    let i = choose|i: int| 0 <= i < names.len() && names[i] == file;
    assert(given[i].file == file);
    lemma_on_file(given, file);
    let cs = candidates_on(given, file);
    sorting::law_distinct_texts(cs);
    assert(cs.contains(cs[0]));
    assert(sorting::distinct_texts(cs).contains(cs[0]));
}

proof fn lemma_scored_holds(ids: Seq<Seq<char>>, scores: Seq<ScoredView>, x: ScoredView)
    requires
        scored(ids, scores).contains(x),
    ensures
        ids.contains(x.id),
        score_of(scores, x.id) == Some(x.rank),
    decreases ids.len(),
{
    if ids.len() > 0 {
        let front = ids.drop_last();
        let s = scored(ids, scores);
        let k = choose|k: int| 0 <= k < s.len() && s[k] == x;
        if k < scored(front, scores).len() {
            assert(scored(front, scores)[k] == x);
            lemma_scored_holds(front, scores, x);
            let j = choose|j: int| 0 <= j < front.len() && front[j] == x.id;
            assert(ids[j] == x.id);
        } else {
            assert(ids[ids.len() - 1] == x.id);
        }
    }
}

proof fn lemma_scored_all(ids: Seq<Seq<char>>, scores: Seq<ScoredView>, id: Seq<char>)
    requires
        ids.contains(id),
        unscored(ids, scores).len() == 0,
    ensures
        score_of(scores, id) is Some,
        scored(ids, scores).contains(ScoredView { id, rank: score_of(scores, id)->0 }),
    decreases ids.len(),
{
    let front = ids.drop_last();
    let k = choose|k: int| 0 <= k < ids.len() && ids[k] == id;
    let s = scored(ids, scores);
    let x = ScoredView { id, rank: score_of(scores, id)->0 };
    if k < front.len() {
        assert(front[k] == id);
        lemma_scored_all(front, scores, id);
        let f = scored(front, scores);
        let j = choose|j: int| 0 <= j < f.len() && f[j] == x;
        assert(s[j] == x);
    } else {
        assert(s[s.len() - 1] == x);
    }
}

/// Whether all scores are numbers.
pub open spec fn are_numbers(scores: Seq<ScoredView>) -> bool {
    forall|i: int| 0 <= i < scores.len() ==> score::is_number((#[trigger] scores[i]).rank as int)
}

proof fn lemma_score_is_number(scores: Seq<ScoredView>, id: Seq<char>)
    requires
        are_numbers(scores),
    ensures
        score_of(scores, id) matches Some(rank) ==> score::is_number(rank as int),
    decreases scores.len(),
{
    if scores.len() > 0 {
        assert(score::is_number(scores[scores.len() - 1].rank as int));
        assert forall|i: int| 0 <= i < scores.drop_last().len() implies score::is_number(
            (#[trigger] scores.drop_last()[i]).rank as int,
        ) by {
            assert(scores.drop_last()[i] == scores[i]);
        }
        lemma_score_is_number(scores.drop_last(), id);
    }
}

/// A candidate that is preferred over others is one of them, and none of them has a higher
/// score, where all scores are numbers.
pub proof fn law_winner_has_best_score(
    ids: Seq<Seq<char>>,
    agents: Seq<Seq<char>>,
    scores: Seq<ScoredView>,
    gap: GapView,
    id: Seq<char>,
)
    requires
        ids.len() > 1,
        verdict(ids, agents, scores, gap).1.action == ArbitrationAction::PreferCandidate,
        ids.contains(id),
        are_numbers(scores),
    ensures
        verdict(ids, agents, scores, gap).1.winner matches Some(w) && ids.contains(w) && score_of(
            scores,
            w,
        ) is Some && score_of(scores, id) is Some && score_of(scores, w)->0 >= score_of(
            scores,
            id,
        )->0,
{
    let ranked = ranking(ids, scores);
    let s = scored(ids, scores);
    lemma_scored_len(ids, scores);
    lemma_sorted_len(s);
    assert forall|i: int| 0 <= i < s.len() implies <CandidateScore as Ranked>::proper(
        #[trigger] s[i],
    ) by {
        assert(s.contains(s[i]));
        lemma_scored_holds(ids, scores, s[i]);
        lemma_score_is_number(scores, s[i].id);
    }
    sorting::law_sorted::<CandidateScore>(s);
    s.to_multiset_ensures();
    ranked.to_multiset_ensures();
    let top = ranked[0];
    assert(ranked.contains(top));
    assert(s.to_multiset().count(top) > 0);
    assert(s.contains(top));
    lemma_scored_holds(ids, scores, top);
    lemma_scored_all(ids, scores, id);
    let x = ScoredView { id, rank: score_of(scores, id)->0 };
    assert(s.to_multiset().count(x) > 0);
    assert(ranked.contains(x));
    let k = choose|k: int| 0 <= k < ranked.len() && ranked[k] == x;
    if k > 0 {
        assert(!<CandidateScore as Ranked>::less(ranked[k], ranked[0]));
    }
}

} // verus!
