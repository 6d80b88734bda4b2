//! Plans and assessments, as they are stored and shown.
use crate::api::types::ThermalAssessment;
use crate::cli::fix_report;
use crate::cli::fix_report::plan_estimate;
use crate::engine::batch::PlanStep;
use crate::engine::plan::ExecutionPlan;
use crate::score::Score;
use crate::text::chars;
use crate::text::chars::{concat2, concat3, own};
use crate::text::number;
use crate::text::number::format_usize;
use vstd::prelude::*;
use vstd::string::*;

verus! {

broadcast use chars::lemma_texts_push, chars::lemma_texts_empty;

/// The file that an assessment is about: that of the step in the same place.
pub open spec fn assessed_file(steps: Seq<PlanStep>, i: int) -> Seq<char> {
    if i < steps.len() {
        steps[i].file_path@
    } else {
        "unknown"@
    }
}

fn find_file(steps: &[PlanStep], i: usize) -> (r: &str)
    ensures
        r@ == assessed_file(steps@, i as int),
{
    if i < steps.len() {
        steps[i].file_path.as_str()
    } else {
        "unknown"
    }
}

/// A score that is stored for the first thousand lines of a file.
#[derive(Debug, Clone)]
pub struct ScoreRow {
    pub file_path: String,
    pub line_start: u32,
    pub line_end: u32,
    pub score: Score,
    pub score_type: String,
}

/// What a [`ScoreRow`] stands for.
#[verifier::ext_equal]
pub struct RowView {
    pub file: Seq<char>,
    pub start: u32,
    pub end: u32,
    pub score: Score,
    pub kind: Seq<char>,
}

impl View for ScoreRow {
    type V = RowView;

    open spec fn view(&self) -> RowView {
        RowView {
            file: self.file_path@,
            start: self.line_start,
            end: self.line_end,
            score: self.score,
            kind: self.score_type@,
        }
    }
}

/// What is stored of one score of an assessment.
pub open spec fn stored(file: Seq<char>, score: Score, kind: Seq<char>) -> RowView {
    RowView { file, start: 1, end: 1000, score, kind }
}

/// What is stored of an assessment.
pub open spec fn rows_of(file: Seq<char>, a: ThermalAssessment) -> Seq<RowView> {
    seq![
        stored(file, a.complexity_score, "complexity"@),
        stored(file, a.dependency_score, "dependency"@),
        stored(file, a.risk_score, "risk"@),
        stored(file, a.churn_score, "churn"@),
    ]
}

/// What is stored of the first `n` assessments.
pub open spec fn all_rows(steps: Seq<PlanStep>, s: Seq<ThermalAssessment>, n: int) -> Seq<RowView>
    decreases n,
{
    if n <= 0 || n > s.len() {
        Seq::empty()
    } else {
        all_rows(steps, s, n - 1) + rows_of(assessed_file(steps, n - 1), s[n - 1])
    }
}

fn store(out: &mut Vec<ScoreRow>, file: &str, score: &Score, kind: &str)
    ensures
        crate::sorting::views(final(out)@) == crate::sorting::views(old(out)@).push(
            stored(file@, *score, kind@),
        ),
{
    let ghost before = out@;
    out.push(
        ScoreRow {
            file_path: own(file),
            line_start: 1,
            line_end: 1000,
            score: Score { rank: score.rank },
            score_type: own(kind),
        },
    );
    proof {
        assert(crate::sorting::views(out@) =~= crate::sorting::views(before).push(
            stored(file@, *score, kind@),
        ));
    }
}

/// What is stored of the assessments of a plan.
pub fn assessment_rows(steps: &[PlanStep], assessments: &[ThermalAssessment]) -> (r: Vec<ScoreRow>)
    ensures
        crate::sorting::views(r@) == all_rows(
            steps@,
            assessments@,
            assessments@.len() as int,
        ),
{
    let mut out: Vec<ScoreRow> = Vec::new();
    let mut i: usize = 0;
    proof {
        assert(crate::sorting::views(out@) =~= Seq::<RowView>::empty());
    }
    while i < assessments.len()
        invariant
            i <= assessments@.len(),
            crate::sorting::views(out@) == all_rows(steps@, assessments@, i as int),
        decreases assessments@.len() - i,
    {
        let a = &assessments[i];
        let file = find_file(steps, i);
        let ghost before = crate::sorting::views(out@);
        store(&mut out, file, &a.complexity_score, "complexity");
        store(&mut out, file, &a.dependency_score, "dependency");
        store(&mut out, file, &a.risk_score, "risk");
        store(&mut out, file, &a.churn_score, "churn");
        proof {
            assert(crate::sorting::views(out@) =~= before + rows_of(file@, *a));
        }
        i = i + 1;
    }
    out
}

/// The scores of an assessment as they are shown, and their average.
#[derive(Debug, Clone, PartialEq, Eq)]
pub struct AssessmentTexts {
    pub complexity: String,
    pub dependency: String,
    pub risk: String,
    pub churn: String,
    pub average: String,
}

/// The line of an assessment.
pub open spec fn assessment_line(file: Seq<char>, t: AssessmentTexts) -> Seq<char> {
    "  - "@ + file + " => c:"@ + t.complexity@ + " d:"@ + t.dependency@ + " r:"@ + t.risk@ + " h:"@
        + t.churn@ + " avg:"@ + t.average@
}

/// The lines that are shown of assessments.
pub open spec fn assessments_shown(steps: Seq<PlanStep>, texts: Seq<AssessmentTexts>) -> Seq<
    Seq<char>,
> {
    if texts.len() == 0 {
        Seq::empty()
    } else {
        seq!["\nAssessment contributions (complexity/dependency/risk/churn):"@] + Seq::new(
            texts.len(),
            |i: int| assessment_line(assessed_file(steps, i), texts[i]),
        )
    }
}

/// The lines that are shown of assessments, given their numbers as texts.
pub fn assessment_lines(steps: &[PlanStep], texts: &[AssessmentTexts]) -> (r: Vec<String>)
    ensures
        chars::texts(r@) == assessments_shown(steps@, texts@),
{
    let ghost wanted = assessments_shown(steps@, texts@);
    let mut out: Vec<String> = Vec::new();
    if texts.len() == 0 {
        return out;
    }
    out.push(own("\nAssessment contributions (complexity/dependency/risk/churn):"));
    let mut i: usize = 0;
    while i < texts.len()
        invariant
            wanted == assessments_shown(steps@, texts@),
            texts@.len() > 0,
            i <= texts@.len(),
            out@.len() == i + 1,
            forall|j: int| 0 <= j <= i ==> (#[trigger] out@[j])@ == wanted[j],
        decreases texts@.len() - i,
    {
        let t = &texts[i];
        let mut s = concat3("  - ", find_file(steps, i), " => c:");
        s.append(t.complexity.as_str());
        s.append(" d:");
        s.append(t.dependency.as_str());
        s.append(" r:");
        s.append(t.risk.as_str());
        s.append(" h:");
        s.append(t.churn.as_str());
        s.append(" avg:");
        s.append(t.average.as_str());
        proof {
            assert(wanted[i + 1] == assessment_line(assessed_file(steps@, i as int), *t));
        }
        out.push(s);
        i = i + 1;
    }
    proof {
        assert(chars::texts(out@) =~= wanted);
    }
    out
}

/// The two lines of a step.
pub open spec fn step_lines(step: PlanStep, number: nat, priority: Seq<char>) -> Seq<Seq<char>> {
    seq![
        "  "@ + number::decimal(number) + ". "@ + step.file_path@ + " (priority: "@ + priority
            + ")"@,
        "     "@ + step.instruction@,
    ]
}

/// The lines of the first `n` steps.
pub open spec fn steps_shown(steps: Seq<PlanStep>, priorities: Seq<Seq<char>>, n: int) -> Seq<
    Seq<char>,
>
    decreases n,
{
    if n <= 0 || n > steps.len() {
        Seq::empty()
    } else {
        steps_shown(steps, priorities, n - 1) + step_lines(
            steps[n - 1],
            n as nat,
            priorities[n - 1],
        )
    }
}

/// The lines that are shown of a plan.
pub open spec fn plan_shown(p: ExecutionPlan, priorities: Seq<Seq<char>>) -> Seq<Seq<char>> {
    seq![
        "\nExecution Plan ("@ + number::decimal(p.steps@.len()) + " steps):"@,
        "Estimated planning cost: "@ + fix_report::estimate(
            p.estimated_cost as int,
            p.estimated_tokens,
        ),
    ] + steps_shown(p.steps@, priorities, p.steps@.len() as int)
}

/// The lines that are shown of a plan, given the priorities of its steps as texts.
pub fn plan_lines(p: &ExecutionPlan, priorities: &[String]) -> (r: Vec<String>)
    requires
        priorities@.len() == p.steps@.len(),
    ensures
        chars::texts(r@) == plan_shown(*p, chars::texts(priorities@)),
{
    let ghost given = chars::texts(priorities@);
    let n: usize = p.steps.len();
    let mut out: Vec<String> = Vec::new();
    out.push(concat3("\nExecution Plan (", format_usize(n).as_str(), " steps):"));
    out.push(
        concat2(
            "Estimated planning cost: ",
            plan_estimate(p.estimated_cost, p.estimated_tokens).as_str(),
        ),
    );
    let ghost head = chars::texts(out@);
    let mut i: usize = 0;
    proof {
        assert(head =~= plan_shown(*p, given).take(2));
        assert(head + steps_shown(p.steps@, given, 0) =~= head);
    }
    while i < n
        invariant
            n == p.steps@.len(),
            n == priorities@.len(),
            given == chars::texts(priorities@),
            i <= n,
            chars::texts(out@) == head + steps_shown(p.steps@, given, i as int),
        decreases n - i,
    {
        let step = &p.steps[i];
        let ghost before = chars::texts(out@);
        let mut s = concat3("  ", format_usize(i + 1).as_str(), ". ");
        s.append(step.file_path.as_str());
        s.append(" (priority: ");
        s.append(priorities[i].as_str());
        s.append(")");
        out.push(s);
        out.push(concat2("     ", step.instruction.as_str()));
        proof {
            assert(given[i as int] == priorities@[i as int]@);
            assert(chars::texts(out@) =~= before + step_lines(
                *step,
                (i + 1) as nat,
                given[i as int],
            ));
            assert(chars::texts(out@) =~= head + steps_shown(p.steps@, given, i + 1));
        }
        i = i + 1;
    }
    proof {
        assert(chars::texts(out@) =~= plan_shown(*p, given));
    }
    out
}

/// Every assessment is stored with four scores.
pub proof fn law_four_scores_per_assessment(
    steps: Seq<PlanStep>,
    s: Seq<ThermalAssessment>,
    n: int,
)
    requires
        0 <= n <= s.len(),
    ensures
        all_rows(steps, s, n).len() == 4 * n,
    decreases n,
{
    if n > 0 {
        law_four_scores_per_assessment(steps, s, n - 1);
    }
}

} // verus!
