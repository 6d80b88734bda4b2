//! Candidates: how much they change, where they come from, and which is preferred.
use crate::sorting;
use crate::sorting::{sort_stable, Ranked};
use crate::text::bytes;
use crate::text::bytes::count_bytes;
use crate::text::chars;
use crate::text::chars::same;
use crate::text::find;
use crate::text::find::trim;
use crate::text::laws;
use crate::text::order;
use crate::text::order::text_before;
use crate::text::split;
use crate::text::split::lines;
use vstd::prelude::*;

verus! {

/// How much a candidate changes.
#[derive(Debug, Clone, Copy, PartialEq, Eq, PartialOrd, Ord, Structural)]
pub struct ChangeFootprint {
    pub touched_lines: usize,
    pub byte_delta: usize,
}

/// How many lines two texts share from position `i` on, in front.
pub open spec fn shared_front(a: Seq<Seq<char>>, b: Seq<Seq<char>>, i: int) -> nat
    decreases a.len() - i,
{
    if 0 <= i < a.len() && i < b.len() && a[i] == b[i] {
        1 + shared_front(a, b, i + 1)
    } else {
        0
    }
}

/// How many lines two texts share at the end, the last `k` left out, and without their first
/// `p` lines.
pub open spec fn shared_back(a: Seq<Seq<char>>, b: Seq<Seq<char>>, p: nat, k: nat) -> nat
    decreases a.len() - k,
{
    if p + k < a.len() && p + k < b.len() && a[a.len() - 1 - k] == b[b.len() - 1 - k] {
        1 + shared_back(a, b, p, k + 1)
    } else {
        0
    }
}

/// How many lines are removed or added between two texts, without the lines that they share
/// in front and at the end.
pub open spec fn touched(a: Seq<Seq<char>>, b: Seq<Seq<char>>) -> int {
    let p = shared_front(a, b, 0);
    let s = shared_back(a, b, p, 0);
    (a.len() - p - s) + (b.len() - p - s)
}

/// By how many bytes two texts differ in length.
pub open spec fn length_gap(a: Seq<char>, b: Seq<char>) -> int {
    if bytes::byte_len(a) > bytes::byte_len(b) {
        bytes::byte_len(a) - bytes::byte_len(b)
    } else {
        bytes::byte_len(b) - bytes::byte_len(a)
    }
}

proof fn lemma_front(a: Seq<Seq<char>>, b: Seq<Seq<char>>, i: int)
    requires
        0 <= i,
        i <= a.len(),
        i <= b.len(),
    ensures
        i + shared_front(a, b, i) <= a.len(),
        i + shared_front(a, b, i) <= b.len(),
    decreases a.len() - i,
{
    if i < a.len() && i < b.len() && a[i] == b[i] {
        lemma_front(a, b, i + 1);
    }
}

proof fn lemma_back(a: Seq<Seq<char>>, b: Seq<Seq<char>>, p: nat, k: nat)
    requires
        p + k <= a.len(),
        p + k <= b.len(),
    ensures
        p + k + shared_back(a, b, p, k) <= a.len(),
        p + k + shared_back(a, b, p, k) <= b.len(),
    decreases a.len() - k,
{
    if p + k < a.len() && p + k < b.len() && a[a.len() - 1 - k] == b[b.len() - 1 - k] {
        lemma_back(a, b, p, k + 1);
    }
}

/// How much a text changes.
pub fn change_footprint(before: &str, after: &str) -> (r: ChangeFootprint)
    requires
        split::lines_of(before@).len() + split::lines_of(after@).len() <= usize::MAX,
    ensures
        r.touched_lines == touched(split::lines_of(before@), split::lines_of(after@)),
        r.byte_delta == length_gap(before@, after@),
{
    let x = lines(before);
    let y = lines(after);
    let ghost a = chars::texts(x@);
    let ghost b = chars::texts(y@);
    let n: usize = x.len();
    let m: usize = y.len();
    let mut p: usize = 0;
    proof {
        assert(a.len() == n && b.len() == m);
    }
    while p < n && p < m && same(x[p].as_str(), y[p].as_str())
        invariant
            a == chars::texts(x@),
            b == chars::texts(y@),
            n == x@.len(),
            m == y@.len(),
            p <= n,
            p <= m,
            shared_front(a, b, 0) == p + shared_front(a, b, p as int),
        decreases n - p,
    {
        proof {
            assert(a[p as int] == x@[p as int]@ && b[p as int] == y@[p as int]@);
        }
        p = p + 1;
    }
    proof {
        if p < n && p < m {
            assert(a[p as int] == x@[p as int]@ && b[p as int] == y@[p as int]@);
        }
        assert(shared_front(a, b, p as int) == 0);
    }
    let mut s: usize = 0;
    while s < n - p && s < m - p && same(x[n - 1 - s].as_str(), y[m - 1 - s].as_str())
        invariant
            a == chars::texts(x@),
            b == chars::texts(y@),
            n == x@.len(),
            m == y@.len(),
            p <= n,
            p <= m,
            s <= n - p,
            s <= m - p,
            shared_back(a, b, p as nat, 0) == s + shared_back(a, b, p as nat, s as nat),
        decreases n - s,
    {
        proof {
            assert(a[n - 1 - s] == x@[n - 1 - s]@ && b[m - 1 - s] == y@[m - 1 - s]@);
        }
        s = s + 1;
    }
    proof {
        if s < n - p && s < m - p {
            assert(a[n - 1 - s] == x@[n - 1 - s]@ && b[m - 1 - s] == y@[m - 1 - s]@);
        }
        assert(shared_back(a, b, p as nat, s as nat) == 0);
    }
    let old_bytes = count_bytes(before);
    let new_bytes = count_bytes(after);
    ChangeFootprint {
        touched_lines: (n - p - s) + (m - p - s),
        byte_delta: if old_bytes > new_bytes {
            old_bytes - new_bytes
        } else {
            new_bytes - old_bytes
        },
    }
}

/// A text that does not change has no footprint.
pub proof fn law_no_change_has_no_footprint(a: Seq<Seq<char>>)
    ensures
        touched(a, a) == 0,
{
    lemma_all_shared(a, 0);
}

proof fn lemma_all_shared(a: Seq<Seq<char>>, i: int)
    requires
        0 <= i <= a.len(),
    ensures
        shared_front(a, a, i) == a.len() - i,
    decreases a.len() - i,
{
    if i < a.len() {
        lemma_all_shared(a, i + 1);
    }
}

/// No more lines are touched than the two texts have.
pub proof fn law_footprint_is_bounded(a: Seq<Seq<char>>, b: Seq<Seq<char>>)
    ensures
        0 <= touched(a, b) <= a.len() + b.len(),
{
    lemma_front(a, b, 0);
    lemma_back(a, b, shared_front(a, b, 0), 0);
}

/// No lines are touched exactly if nothing changes.
pub proof fn law_only_equal_texts_touch_nothing(a: Seq<Seq<char>>, b: Seq<Seq<char>>)
    ensures
        touched(a, b) == 0 <==> a == b,
{
    if a == b {
        law_no_change_has_no_footprint(a);
    } else if touched(a, b) == 0 {
        let p = shared_front(a, b, 0);
        let s = shared_back(a, b, p, 0);
        lemma_front(a, b, 0);
        lemma_back(a, b, p, 0);
        lemma_front_agrees(a, b, 0);
        lemma_back_agrees(a, b, p, 0);
        assert(a.len() == p + s && b.len() == p + s);
        assert forall|i: int| 0 <= i < a.len() implies a[i] == b[i] by {
            if i >= p {
                let k = a.len() - 1 - i;
                assert(a[a.len() - 1 - k] == b[b.len() - 1 - k]);
            }
        }
        assert(a =~= b);
    }
}

proof fn lemma_front_agrees(a: Seq<Seq<char>>, b: Seq<Seq<char>>, i: int)
    requires
        0 <= i,
    ensures
        forall|j: int| i <= j < i + shared_front(a, b, i) ==> #[trigger] a[j] == b[j],
    decreases a.len() - i,
{
    if i < a.len() && i < b.len() && a[i] == b[i] {
        lemma_front_agrees(a, b, i + 1);
    }
}

proof fn lemma_back_agrees(a: Seq<Seq<char>>, b: Seq<Seq<char>>, p: nat, k: nat)
    ensures
        forall|j: int|
            k <= j < k + shared_back(a, b, p, k) ==> #[trigger] a[a.len() - 1 - j] == b[b.len() - 1
                - j],
    decreases a.len() - k,
{
    if p + k < a.len() && p + k < b.len() && a[a.len() - 1 - k] == b[b.len() - 1 - k] {
        lemma_back_agrees(a, b, p, k + 1);
    }
}

proof fn lemma_front_runs(a: Seq<Seq<char>>, b: Seq<Seq<char>>, i: int, n: int)
    requires
        0 <= i <= n <= a.len(),
        n <= b.len(),
        forall|j: int| i <= j < n ==> #[trigger] a[j] == b[j],
    ensures
        shared_front(a, b, i) == (n - i) + shared_front(a, b, n),
    decreases n - i,
{
    if i < n {
        lemma_front_runs(a, b, i + 1, n);
    }
}

proof fn lemma_back_runs(a: Seq<Seq<char>>, b: Seq<Seq<char>>, p: nat, k: nat, n: nat)
    requires
        k <= n,
        p + n <= a.len(),
        p + n <= b.len(),
        forall|j: int| k <= j < n ==> #[trigger] a[a.len() - 1 - j] == b[b.len() - 1 - j],
    ensures
        shared_back(a, b, p, k) == (n - k) + shared_back(a, b, p, n),
    decreases n - k,
{
    if k < n {
        lemma_back_runs(a, b, p, k + 1, n);
    }
}

/// Where one run of lines is replaced by another, and the two begin and end differently, the
/// touched lines are those that leave and those that come: no line in front or behind counts.
pub proof fn law_only_replaced_lines_are_touched(
    front: Seq<Seq<char>>,
    gone: Seq<Seq<char>>,
    new: Seq<Seq<char>>,
    back: Seq<Seq<char>>,
)
    requires
        gone.len() > 0 && new.len() > 0 ==> gone.first() != new.first() && gone.last()
            != new.last(),
    ensures
        touched(front + gone + back, front + new + back) == gone.len() + new.len(),
{
    let a = front + gone + back;
    let b = front + new + back;
    let f = front.len() as int;
    lemma_front_runs(a, b, 0, f);
    if gone.len() > 0 && new.len() > 0 {
        assert(a[f] == gone[0] && b[f] == new[0]);
        assert(shared_front(a, b, f) == 0);
        assert forall|j: int| 0 <= j < back.len() implies #[trigger] a[a.len() - 1 - j] == b[b.len()
            - 1 - j] by {
            assert(a[a.len() - 1 - j] == back[back.len() - 1 - j]);
        }
        lemma_back_runs(a, b, f as nat, 0, back.len());
        assert(a[a.len() - 1 - back.len()] == gone.last());
        assert(b[b.len() - 1 - back.len()] == new.last());
        assert(shared_back(a, b, f as nat, back.len()) == 0);
    } else {
        let p = shared_front(a, b, 0);
        lemma_front(a, b, 0);
        let less = if a.len() <= b.len() {
            a.len()
        } else {
            b.len()
        };
        let n = (less - p) as nat;
        assert forall|j: int| 0 <= j < n implies #[trigger] a[a.len() - 1 - j] == b[b.len() - 1
            - j] by {
            assert(a[a.len() - 1 - j] == back[back.len() - 1 - j]);
        }
        lemma_back_runs(a, b, p, 0, n);
        assert(shared_back(a, b, p, n) == 0);
    }
}

/// Two texts differ in length by the same number of bytes whichever comes first: the longer
/// one has that many bytes more.
pub proof fn law_byte_delta_is_the_difference(a: Seq<char>, b: Seq<char>)
    ensures
        length_gap(a, b) == length_gap(b, a),
        bytes::byte_len(a) <= bytes::byte_len(b) ==> bytes::byte_len(a) + length_gap(a, b)
            == bytes::byte_len(b),
        length_gap(a, b) == 0 <==> bytes::byte_len(a) == bytes::byte_len(b),
{
}

/// Why a candidate must not be accepted as it stands: it would blank a file that is not
/// blank.
pub open spec fn unsafe_reason(before: Seq<char>, after: Seq<char>) -> Option<Seq<char>> {
    if find::trimmed(before).len() > 0 && find::trimmed(after).len() == 0 {
        Some("blank rewrite would erase a non-empty file"@)
    } else {
        None
    }
}

/// What an optional literal stands for.
pub open spec fn opt_str(o: Option<&'static str>) -> Option<Seq<char>> {
    match o {
        Some(s) => Some(s@),
        None => None,
    }
}

/// Why a candidate must not be accepted as it stands.
pub fn unsafe_candidate_reason(before: &str, after: &str) -> (r: Option<&'static str>)
    ensures
        opt_str(r) == unsafe_reason(before@, after@),
{
    let a = trim(before);
    let b = trim(after);
    if !a.as_str().is_empty() && b.as_str().is_empty() {
        Some("blank rewrite would erase a non-empty file")
    } else {
        None
    }
}

/// Where a candidate comes from.
#[derive(Debug, Clone, Copy, PartialEq, Eq, PartialOrd, Ord, Structural)]
pub enum CandidateSource {
    ApplyEdit,
    CritiqueRetry,
    ExploratoryNextEdit,
}

/// The name of a source.
pub open spec fn source_name(s: CandidateSource) -> Seq<char> {
    match s {
        CandidateSource::ApplyEdit => "apply_edit"@,
        CandidateSource::CritiqueRetry => "critique_retry"@,
        CandidateSource::ExploratoryNextEdit => "exploratory_next_edit"@,
    }
}

/// The rank of a source; lower is preferred.
pub open spec fn source_rank(s: CandidateSource) -> int {
    match s {
        CandidateSource::ApplyEdit => 0,
        CandidateSource::CritiqueRetry => 1,
        CandidateSource::ExploratoryNextEdit => 2,
    }
}

impl CandidateSource {
    /// The name of the source.
    pub fn as_str(self) -> (r: &'static str)
        ensures
            r@ == source_name(self),
    {
        match self {
            CandidateSource::ApplyEdit => "apply_edit",
            CandidateSource::CritiqueRetry => "critique_retry",
            CandidateSource::ExploratoryNextEdit => "exploratory_next_edit",
        }
    }

    fn rank(self) -> (r: u8)
        ensures
            r == source_rank(self),
    {
        match self {
            CandidateSource::ApplyEdit => 0,
            CandidateSource::CritiqueRetry => 1,
            CandidateSource::ExploratoryNextEdit => 2,
        }
    }
}

/// Where the candidate with the given index comes from.
pub open spec fn source_of(candidate_index: nat, retry: bool) -> CandidateSource {
    if retry {
        CandidateSource::CritiqueRetry
    } else if candidate_index == 0 {
        CandidateSource::ApplyEdit
    } else {
        CandidateSource::ExploratoryNextEdit
    }
}

/// Where the candidate with the given index comes from.
pub fn candidate_source(candidate_index: usize, retry: bool) -> (r: CandidateSource)
    ensures
        r == source_of(candidate_index as nat, retry),
{
    if retry {
        CandidateSource::CritiqueRetry
    } else if candidate_index == 0 {
        CandidateSource::ApplyEdit
    } else {
        CandidateSource::ExploratoryNextEdit
    }
}

/// The step at which a candidate failed.
#[derive(Debug, Clone, Copy, PartialEq, Eq, Structural)]
pub enum CandidateFailureStage {
    Generation,
    Safety,
    Verification,
}

/// The name of a step.
pub open spec fn failure_stage_name(s: CandidateFailureStage) -> Seq<char> {
    match s {
        CandidateFailureStage::Generation => "generation"@,
        CandidateFailureStage::Safety => "safety"@,
        CandidateFailureStage::Verification => "verification"@,
    }
}

impl CandidateFailureStage {
    /// The name of the step.
    pub fn as_str(self) -> (r: &'static str)
        ensures
            r@ == failure_stage_name(self),
    {
        match self {
            CandidateFailureStage::Generation => "generation",
            CandidateFailureStage::Safety => "safety",
            CandidateFailureStage::Verification => "verification",
        }
    }
}

/// What came of a candidate.
#[derive(Debug, Clone, PartialEq, Eq)]
pub struct CandidateOutcome {
    pub agent_id: String,
    pub log_id: i64,
    pub sandbox_root: String,
    pub source: CandidateSource,
    /// The text of the candidate if it was verified.
    pub candidate: Option<String>,
    pub retry_attempts: usize,
    pub total_tokens: i64,
    /// The cost in billionths of a dollar.
    pub total_cost: i128,
    pub verification_errors: Vec<String>,
    pub state_hash: Option<String>,
    pub change_footprint: ChangeFootprint,
    pub failure_stage: Option<CandidateFailureStage>,
    pub reason: Option<String>,
}

/// What a [`CandidateOutcome`] stands for.
#[verifier::ext_equal]
pub struct OutcomeView {
    pub agent: Seq<char>,
    pub log_id: i64,
    pub sandbox: Seq<char>,
    pub source: CandidateSource,
    pub candidate: Option<Seq<char>>,
    pub retries: nat,
    pub tokens: i64,
    pub cost: i128,
    pub errors: Seq<Seq<char>>,
    pub hash: Option<Seq<char>>,
    pub footprint: ChangeFootprint,
    pub stage: Option<CandidateFailureStage>,
    pub reason: Option<Seq<char>>,
}

impl View for CandidateOutcome {
    type V = OutcomeView;

    open spec fn view(&self) -> OutcomeView {
        OutcomeView {
            agent: self.agent_id@,
            log_id: self.log_id,
            sandbox: self.sandbox_root@,
            source: self.source,
            candidate: chars::opt_text(self.candidate),
            retries: self.retry_attempts as nat,
            tokens: self.total_tokens,
            cost: self.total_cost,
            errors: chars::texts(self.verification_errors@),
            hash: chars::opt_text(self.state_hash),
            footprint: self.change_footprint,
            stage: self.failure_stage,
            reason: chars::opt_text(self.reason),
        }
    }
}

/// Whether a candidate is preferred: by its source, then by fewer retries, a smaller
/// footprint, fewer errors, lower cost, and at last by the id of its agent.
pub open spec fn preferred(a: OutcomeView, b: OutcomeView) -> bool {
    if source_rank(a.source) != source_rank(b.source) {
        source_rank(a.source) < source_rank(b.source)
    } else if a.retries != b.retries {
        a.retries < b.retries
    } else if a.footprint.touched_lines != b.footprint.touched_lines {
        a.footprint.touched_lines < b.footprint.touched_lines
    } else if a.footprint.byte_delta != b.footprint.byte_delta {
        a.footprint.byte_delta < b.footprint.byte_delta
    } else if a.errors.len() != b.errors.len() {
        a.errors.len() < b.errors.len()
    } else if a.cost != b.cost {
        a.cost < b.cost
    } else {
        order::text_less(a.agent, b.agent)
    }
}

impl Ranked for CandidateOutcome {
    open spec fn proper(a: OutcomeView) -> bool {
        true
    }

    open spec fn less(a: OutcomeView, b: OutcomeView) -> bool {
        preferred(a, b)
    }

    fn before(&self, other: &CandidateOutcome) -> (r: bool) {
        proof {
            assert(self@.errors.len() == self.verification_errors@.len());
            assert(other@.errors.len() == other.verification_errors@.len());
        }
        if self.source.rank() != other.source.rank() {
            self.source.rank() < other.source.rank()
        } else if self.retry_attempts != other.retry_attempts {
            self.retry_attempts < other.retry_attempts
        } else if self.change_footprint.touched_lines != other.change_footprint.touched_lines {
            self.change_footprint.touched_lines < other.change_footprint.touched_lines
        } else if self.change_footprint.byte_delta != other.change_footprint.byte_delta {
            self.change_footprint.byte_delta < other.change_footprint.byte_delta
        } else if self.verification_errors.len() != other.verification_errors.len() {
            self.verification_errors.len() < other.verification_errors.len()
        } else if self.total_cost != other.total_cost {
            self.total_cost < other.total_cost
        } else {
            text_before(self.agent_id.as_str(), other.agent_id.as_str())
        }
    }

    proof fn around(a: OutcomeView, b: OutcomeView, c: OutcomeView) {
        if preferred(c, a) && order::text_less(c.agent, a.agent) && order::text_less(
            a.agent,
            b.agent,
        ) {
            order::lemma_text_transitive(c.agent, a.agent, b.agent);
        }
    }

    proof fn irreflexive(a: OutcomeView) {
        order::lemma_text_irreflexive(a.agent);
    }
}

/// The candidates, preferred ones first.
pub open spec fn ranked(s: Seq<OutcomeView>) -> Seq<OutcomeView> {
    sorting::sorted::<CandidateOutcome>(s)
}

/// Puts preferred candidates first.
pub fn rank_candidate_outcomes(candidates: Vec<CandidateOutcome>) -> (r: Vec<CandidateOutcome>)
    ensures
        sorting::views(r@) == ranked(sorting::views(candidates@)),
{
    sort_stable(candidates)
}

/// Whether the candidate at `i` leaves a file in the same state as an earlier one.
pub open spec fn repeats(s: Seq<OutcomeView>, i: int) -> bool {
    s[i].hash is Some && exists|j: int| 0 <= j < i && (#[trigger] s[j]).hash == s[i].hash
}

/// Those of the first `n` candidates that repeat no earlier one.
pub open spec fn originals(s: Seq<OutcomeView>, n: int) -> Seq<OutcomeView>
    decreases n,
{
    if n <= 0 {
        Seq::empty()
    } else if repeats(s, n - 1) {
        originals(s, n - 1)
    } else {
        originals(s, n - 1).push(s[n - 1])
    }
}

/// Those of the first `n` candidates that repeat an earlier one.
pub open spec fn duplicates(s: Seq<OutcomeView>, n: int) -> Seq<OutcomeView>
    decreases n,
{
    if n <= 0 {
        Seq::empty()
    } else if repeats(s, n - 1) {
        duplicates(s, n - 1).push(s[n - 1])
    } else {
        duplicates(s, n - 1)
    }
}

/// Whether two optional texts are the same text.
fn same_hash(a: &Option<String>, b: &Option<String>) -> (r: bool)
    ensures
        r == (chars::opt_text(*a) is Some && chars::opt_text(*a) == chars::opt_text(*b)),
{
    match (a, b) {
        (Some(x), Some(y)) => same(x.as_str(), y.as_str()),
        _ => false,
    }
}

fn flag_repeats(v: &[CandidateOutcome]) -> (r: Vec<bool>)
    ensures
        r@.len() == v@.len(),
        forall|i: int| 0 <= i < v@.len() ==> #[trigger] r@[i] == repeats(sorting::views(v@), i),
{
    let ghost all = sorting::views(v@);
    let mut out: Vec<bool> = Vec::new();
    let mut i: usize = 0;
    while i < v.len()
        invariant
            all == sorting::views(v@),
            i <= v@.len(),
            out@.len() == i,
            forall|k: int| 0 <= k < i ==> #[trigger] out@[k] == repeats(all, k),
        decreases v@.len() - i,
    {
        let mut j: usize = 0;
        let mut again = false;
        while j < i
            invariant
                all == sorting::views(v@),
                j <= i < v@.len(),
                again == (all[i as int].hash is Some && exists|k: int|
                    0 <= k < j && (#[trigger] all[k]).hash == all[i as int].hash),
            decreases i - j,
        {
            proof {
                assert(all[i as int] == v@[i as int]@);
                assert(all[j as int] == v@[j as int]@);
            }
            if same_hash(&v[i].state_hash, &v[j].state_hash) {
                again = true;
                proof {
                    assert(all[j as int].hash == all[i as int].hash);
                }
            }
            j = j + 1;
        }
        out.push(again);
        i = i + 1;
    }
    out
}

/// Parts the candidates that repeat an earlier one from the others.
pub fn split_duplicate_state_candidates(candidates: Vec<CandidateOutcome>) -> (r: (
    Vec<CandidateOutcome>,
    Vec<CandidateOutcome>,
))
    ensures
        sorting::views(r.0@) == originals(
            sorting::views(candidates@),
            candidates@.len() as int,
        ),
        sorting::views(r.1@) == duplicates(
            sorting::views(candidates@),
            candidates@.len() as int,
        ),
{
    let ghost all = sorting::views(candidates@);
    let flags = flag_repeats(candidates.as_slice());
    let mut rest = candidates;
    let n: usize = rest.len();
    let mut unique: Vec<CandidateOutcome> = Vec::new();
    let mut double: Vec<CandidateOutcome> = Vec::new();
    let mut i: usize = 0;
    proof {
        assert(sorting::views(unique@) =~= Seq::<OutcomeView>::empty());
        assert(sorting::views(double@) =~= Seq::<OutcomeView>::empty());
        assert(sorting::views(rest@) =~= all.skip(0));
    }
    while i < n
        invariant
            n == all.len(),
            flags@.len() == n,
            forall|k: int| 0 <= k < n ==> #[trigger] flags@[k] == repeats(all, k),
            i <= n,
            rest@.len() == n - i,
            sorting::views(rest@) == all.skip(i as int),
            sorting::views(unique@) == originals(all, i as int),
            sorting::views(double@) == duplicates(all, i as int),
        decreases n - i,
    {
        let ghost before = rest@;
        let ghost u = unique@;
        let ghost d = double@;
        let c = rest.remove(0);
        proof {
            assert(sorting::views(before)[0] == c@);
            assert(all.skip(i as int)[0] == all[i as int]);
            assert forall|k: int| 0 <= k < rest@.len() implies #[trigger] sorting::views(rest@)[k]
                == all.skip(i + 1)[k] by {
                assert(rest@[k] == before[k + 1]);
                assert(sorting::views(before)[k + 1] == all.skip(i as int)[k + 1]);
            }
            assert(sorting::views(rest@) =~= all.skip(i + 1));
        }
        if flags[i] {
            double.push(c);
            proof {
                assert(sorting::views(double@) =~= sorting::views(d).push(all[i as int]));
            }
        } else {
            unique.push(c);
            proof {
                assert(sorting::views(unique@) =~= sorting::views(u).push(all[i as int]));
            }
        }
        i = i + 1;
    }
    (unique, double)
}

proof fn lemma_originals_hold(s: Seq<OutcomeView>, n: int, k: int) -> (j: int)
    requires
        0 <= n <= s.len(),
        0 <= k < originals(s, n).len(),
    ensures
        0 <= j < n,
        !repeats(s, j),
        originals(s, n)[k] == s[j],
    decreases n,
{
    if repeats(s, n - 1) {
        lemma_originals_hold(s, n - 1, k)
    } else if k < originals(s, n - 1).len() {
        lemma_originals_hold(s, n - 1, k)
    } else {
        n - 1
    }
}

proof fn lemma_originals_differ(s: Seq<OutcomeView>, n: int, a: int, b: int)
    requires
        0 <= n <= s.len(),
        0 <= a < b < originals(s, n).len(),
        originals(s, n)[a].hash is Some,
    ensures
        originals(s, n)[a].hash != originals(s, n)[b].hash,
    decreases n,
{
    if repeats(s, n - 1) {
        lemma_originals_differ(s, n - 1, a, b);
    } else if b < originals(s, n - 1).len() {
        lemma_originals_differ(s, n - 1, a, b);
    } else {
        let j = lemma_originals_hold(s, n - 1, a);
        if s[j].hash == s[n - 1].hash {
            assert(repeats(s, n - 1));
        }
    }
}

/// No two candidates that are kept leave a file in the same state.
pub proof fn law_kept_states_differ(s: Seq<OutcomeView>, a: int, b: int)
    requires
        0 <= a < b < originals(s, s.len() as int).len(),
        originals(s, s.len() as int)[a].hash is Some,
    ensures
        originals(s, s.len() as int)[a].hash != originals(s, s.len() as int)[b].hash,
{
    lemma_originals_differ(s, s.len() as int, a, b);
}

proof fn lemma_split_counts(s: Seq<OutcomeView>, n: int)
    requires
        0 <= n <= s.len(),
    ensures
        originals(s, n).len() + duplicates(s, n).len() == n,
    decreases n,
{
    if n > 0 {
        lemma_split_counts(s, n - 1);
    }
}

/// No candidate is lost when duplicates are parted from the others.
pub proof fn law_split_loses_nothing(s: Seq<OutcomeView>)
    ensures
        originals(s, s.len() as int).len() + duplicates(s, s.len() as int).len() == s.len(),
        originals(s, s.len() as int).to_multiset().add(
            duplicates(s, s.len() as int).to_multiset(),
        ) =~= s.to_multiset(),
{
    lemma_split_counts(s, s.len() as int);
    lemma_split_multiset(s, s.len() as int);
    assert(s.take(s.len() as int) =~= s);
}

proof fn lemma_split_multiset(s: Seq<OutcomeView>, n: int)
    requires
        0 <= n <= s.len(),
    ensures
        originals(s, n).to_multiset().add(duplicates(s, n).to_multiset()) =~= s.take(
            n,
        ).to_multiset(),
    decreases n,
{
    if n == 0 {
        assert(s.take(0) =~= Seq::<OutcomeView>::empty());
        Seq::<OutcomeView>::empty().to_multiset_ensures();
    } else {
        lemma_split_multiset(s, n - 1);
        let x = s[n - 1];
        assert(s.take(n) =~= s.take(n - 1).push(x));
        s.take(n - 1).to_multiset_ensures();
        originals(s, n - 1).to_multiset_ensures();
        duplicates(s, n - 1).to_multiset_ensures();
        assert(s.take(n).to_multiset() =~= s.take(n - 1).to_multiset().insert(x));
    }
}

/// The most preferred candidate is never dropped as a duplicate.
pub proof fn law_first_candidate_is_kept(s: Seq<OutcomeView>)
    requires
        s.len() > 0,
    ensures
        originals(s, s.len() as int).len() > 0,
        originals(s, s.len() as int)[0] == s[0],
{
    lemma_first_kept(s, s.len() as int);
}

proof fn lemma_first_kept(s: Seq<OutcomeView>, n: int)
    requires
        1 <= n <= s.len(),
    ensures
        originals(s, n).len() > 0,
        originals(s, n)[0] == s[0],
    decreases n,
{
    if n > 1 {
        lemma_first_kept(s, n - 1);
    } else {
        assert(originals(s, 0) =~= Seq::<OutcomeView>::empty());
        assert(!repeats(s, 0));
        assert(originals(s, 1) == originals(s, 0).push(s[0]));
    }
}

/// Candidates that were applied directly come before those of a retry, and those before
/// exploratory ones, whatever else is known of them.
pub proof fn law_sources_come_first(a: OutcomeView, b: OutcomeView)
    ensures
        a.source is ApplyEdit && b.source !is ApplyEdit ==> preferred(a, b) && !preferred(b, a),
        a.source is CritiqueRetry && b.source is ExploratoryNextEdit ==> preferred(a, b)
            && !preferred(b, a),
{
}

/// Of two candidates of one source, the one that is at least as good in every respect and
/// better in one is preferred.
pub proof fn law_better_candidates_are_preferred(a: OutcomeView, b: OutcomeView)
    requires
        a.source == b.source,
        a.retries <= b.retries,
        a.footprint.touched_lines <= b.footprint.touched_lines,
        a.footprint.byte_delta <= b.footprint.byte_delta,
        a.errors.len() <= b.errors.len(),
        a.cost <= b.cost,
        a.agent == b.agent || order::text_less(a.agent, b.agent),
    ensures
        preferred(a, b) <==> !(a.retries == b.retries && a.footprint == b.footprint
            && a.errors.len() == b.errors.len() && a.cost == b.cost && a.agent == b.agent),
        !preferred(b, a),
{
    order::lemma_text_irreflexive(a.agent);
    if order::text_less(a.agent, b.agent) && order::text_less(b.agent, a.agent) {
        order::lemma_text_transitive(a.agent, b.agent, a.agent);
    }
}

/// What counts for more decides before what counts for less: retries, then touched lines,
/// then bytes, then errors, then cost, then the agent's id.
pub proof fn law_preference_order(a: OutcomeView, b: OutcomeView)
    requires
        a.source == b.source,
    ensures
        a.retries < b.retries ==> preferred(a, b),
        a.retries == b.retries ==> {
            &&& a.footprint.touched_lines < b.footprint.touched_lines ==> preferred(a, b)
            &&& a.footprint.touched_lines == b.footprint.touched_lines ==> {
                &&& a.footprint.byte_delta < b.footprint.byte_delta ==> preferred(a, b)
                &&& a.footprint.byte_delta == b.footprint.byte_delta ==> {
                    &&& a.errors.len() < b.errors.len() ==> preferred(a, b)
                    &&& a.errors.len() == b.errors.len() && a.cost < b.cost ==> preferred(a, b)
                    &&& a.errors.len() == b.errors.len() && a.cost == b.cost ==> preferred(a, b)
                        == order::text_less(a.agent, b.agent)
                }
            }
        },
{
}

/// After ranking, no candidate stands behind one that it is preferred to, and none is lost.
pub proof fn law_ranking_puts_preferred_first(s: Seq<OutcomeView>, i: int, j: int)
    requires
        0 <= i < j < ranked(s).len(),
    ensures
        !preferred(ranked(s)[j], ranked(s)[i]),
        ranked(s).to_multiset() == s.to_multiset(),
{
    sorting::law_sorted::<CandidateOutcome>(s);
    sorting::law_sorting_keeps::<CandidateOutcome>(s);
}

/// A candidate is dropped only for the sake of one that is kept and leaves the file in the
/// same state; one whose state is not known is never dropped.
pub proof fn law_duplicates_repeat_kept_ones(s: Seq<OutcomeView>, k: int)
    requires
        0 <= k < duplicates(s, s.len() as int).len(),
    ensures
        duplicates(s, s.len() as int)[k].hash is Some,
        exists|i: int|
            0 <= i < originals(s, s.len() as int).len() && (#[trigger] originals(
                s,
                s.len() as int,
            )[i]).hash == duplicates(s, s.len() as int)[k].hash,
{
    lemma_duplicates_repeat(s, s.len() as int, k);
}

proof fn lemma_duplicates_repeat(s: Seq<OutcomeView>, n: int, k: int)
    requires
        0 <= n <= s.len(),
        0 <= k < duplicates(s, n).len(),
    ensures
        duplicates(s, n)[k].hash is Some,
        exists|i: int|
            0 <= i < originals(s, n).len() && (#[trigger] originals(s, n)[i]).hash == duplicates(
                s,
                n,
            )[k].hash,
    decreases n,
{
    if k < duplicates(s, n - 1).len() {
        lemma_duplicates_repeat(s, n - 1, k);
        let i = choose|i: int|
            0 <= i < originals(s, n - 1).len() && (#[trigger] originals(s, n - 1)[i]).hash
                == duplicates(s, n - 1)[k].hash;
        assert(originals(s, n)[i].hash == duplicates(s, n)[k].hash);
    } else {
        let j = choose|j: int| 0 <= j < n - 1 && (#[trigger] s[j]).hash == s[n - 1].hash;
        lemma_state_is_kept(s, n - 1, j);
        let i = choose|i: int|
            0 <= i < originals(s, n - 1).len() && (#[trigger] originals(s, n - 1)[i]).hash
                == s[j].hash;
        assert(originals(s, n)[i].hash == duplicates(s, n)[k].hash);
    }
}

proof fn lemma_state_is_kept(s: Seq<OutcomeView>, n: int, j: int)
    requires
        0 <= j < n <= s.len(),
        s[j].hash is Some,
    ensures
        exists|i: int|
            0 <= i < originals(s, n).len() && (#[trigger] originals(s, n)[i]).hash == s[j].hash,
    decreases n,
{
    if j < n - 1 {
        lemma_state_is_kept(s, n - 1, j);
        let i = choose|i: int|
            0 <= i < originals(s, n - 1).len() && (#[trigger] originals(s, n - 1)[i]).hash
                == s[j].hash;
        assert(originals(s, n)[i].hash == s[j].hash);
    } else if repeats(s, j) {
        let m = choose|m: int| 0 <= m < j && (#[trigger] s[m]).hash == s[j].hash;
        lemma_state_is_kept(s, n - 1, m);
        let i = choose|i: int|
            0 <= i < originals(s, n - 1).len() && (#[trigger] originals(s, n - 1)[i]).hash
                == s[m].hash;
        assert(originals(s, n)[i].hash == s[j].hash);
    } else {
        assert(originals(s, n)[originals(s, n - 1).len() as int] == s[j]);
    }
}

/// A rewrite is unsafe exactly if the file held something other than white space and the
/// rewrite holds nothing else.
pub proof fn law_blank_rewrites_are_unsafe(before: Seq<char>, after: Seq<char>)
    ensures
        unsafe_reason(before, after) is Some <==> (exists|i: int|
            0 <= i < before.len() && !chars::is_space(#[trigger] before[i])) && (forall|i: int|
            0 <= i < after.len() ==> chars::is_space(#[trigger] after[i])),
{
    laws::law_blank_texts_trim_to_nothing(before);
    laws::law_blank_texts_trim_to_nothing(after);
}

} // verus!
