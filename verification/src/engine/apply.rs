//! Writing accepted files to the project, all or none.
use crate::db::CoolLock;
use crate::engine::batch;
use crate::engine::batch::{FileExecutionState, IndexedPlanStep};
use crate::engine::candidate::OutcomeView;
use crate::engine::plan;
use crate::engine::plan::{last_accepted, PlanRun};
use crate::engine::settle;
use crate::engine::variant;
use crate::engine::variant::{VariantRun, VariantView};
use crate::engine::verify::{ResultView, VerifyResult};
use crate::sorting;
use crate::text::chars::{own, same};
use crate::text::number;
use crate::text::number::format_hex;
use crate::text::split;
use crate::text::split::lines;
use std::collections::hash_map::DefaultHasher;
use std::hash::Hasher;
use vstd::prelude::*;
use vstd::std_specs::hash::DefaultHasherAdditionalSpecFns;

verus! {

/// A file that is to be written.
#[derive(Debug, Clone, PartialEq, Eq)]
pub struct StagedWrite {
    pub path: String,
    /// What the file held before, if it was there.
    pub original: Option<Vec<u8>>,
    /// What the file is to hold.
    pub content: Vec<u8>,
}

/// The files of a project: what each holds.
pub type Files = Map<Seq<char>, Seq<u8>>;

/// What an optional content stands for.
pub open spec fn opt_bytes(o: Option<Vec<u8>>) -> Option<Seq<u8>> {
    match o {
        Some(v) => Some(v@),
        None => None,
    }
}

/// The files with one of them holding the given content, or gone.
pub open spec fn with_file(f: Files, path: Seq<char>, content: Option<Seq<u8>>) -> Files {
    match content {
        Some(c) => f.insert(path, c),
        None => f.remove(path),
    }
}

/// The files after the first `n` were written.
pub open spec fn written(f: Files, s: Seq<StagedWrite>, n: int) -> Files
    decreases n,
{
    if n <= 0 || n > s.len() {
        f
    } else {
        with_file(written(f, s, n - 1), s[n - 1].path@, Some(s[n - 1].content@))
    }
}

/// A file that is to be put back.
#[derive(Debug, Clone, PartialEq, Eq)]
pub struct RollbackStep {
    pub path: String,
    /// What the file is to hold; it is removed if it was not there.
    pub restore: Option<Vec<u8>>,
}

/// The files after the first `n` steps of a rollback.
pub open spec fn put_back(f: Files, s: Seq<RollbackStep>, n: int) -> Files
    decreases n,
{
    if n <= 0 || n > s.len() {
        f
    } else {
        with_file(put_back(f, s, n - 1), s[n - 1].path@, opt_bytes(s[n - 1].restore))
    }
}

/// Whether the steps put back the first `n` files that were written.
pub open spec fn undoes(steps: Seq<RollbackStep>, s: Seq<StagedWrite>, n: int) -> bool {
    &&& steps.len() == n
    &&& forall|i: int|
        0 <= i < n ==> (#[trigger] steps[i]).path@ == s[i].path@ && opt_bytes(steps[i].restore)
            == opt_bytes(s[i].original)
}

fn own_bytes(v: &Vec<u8>) -> (r: Vec<u8>)
    ensures
        r@ == v@,
{
    let mut out: Vec<u8> = Vec::new();
    let mut i: usize = 0;
    while i < v.len()
        invariant
            i <= v@.len(),
            out@ == v@.take(i as int),
        decreases v@.len() - i,
    {
        out.push(v[i]);
        proof {
            assert(v@.take(i + 1) =~= v@.take(i as int).push(v@[i as int]));
        }
        i = i + 1;
    }
    proof {
        assert(v@.take(v@.len() as int) =~= v@);
    }
    out
}

/// The steps that put back the files that were written before one could not be.
pub fn rollback_atomic_targets(staged: &[StagedWrite], applied: usize) -> (r: Vec<RollbackStep>)
    requires
        applied <= staged@.len(),
    ensures
        undoes(r@, staged@, applied as int),
{
    let mut out: Vec<RollbackStep> = Vec::new();
    let mut i: usize = 0;
    while i < applied
        invariant
            applied <= staged@.len(),
            i <= applied,
            undoes(out@, staged@, i as int),
        decreases applied - i,
    {
        let restore = match &staged[i].original {
            Some(v) => Some(own_bytes(v)),
            None => None,
        };
        out.push(RollbackStep { path: own(staged[i].path.as_str()), restore });
        i = i + 1;
    }
    out
}

/// Whether each file is written once, and held before what is noted of it.
pub open spec fn is_staged(f: Files, s: Seq<StagedWrite>) -> bool {
    &&& forall|i: int, j: int|
        0 <= i < j < s.len() ==> (#[trigger] s[i]).path@ != (#[trigger] s[j]).path@
    &&& forall|i: int|
        0 <= i < s.len() ==> match opt_bytes((#[trigger] s[i]).original) {
            Some(c) => f.dom().contains(s[i].path@) && f[s[i].path@] == c,
            None => !f.dom().contains(s[i].path@),
        }
}

proof fn lemma_written(f: Files, s: Seq<StagedWrite>, n: int, p: Seq<char>)
    requires
        0 <= n <= s.len(),
        forall|i: int| 0 <= i < n ==> (#[trigger] s[i]).path@ != p,
    ensures
        written(f, s, n).dom().contains(p) == f.dom().contains(p),
        f.dom().contains(p) ==> written(f, s, n)[p] == f[p],
    decreases n,
{
    if n > 0 {
        assert(s[n - 1].path@ != p);
        lemma_written(f, s, n - 1, p);
    }
}

proof fn lemma_put_back(f: Files, steps: Seq<RollbackStep>, n: int, p: Seq<char>)
    requires
        0 <= n <= steps.len(),
        forall|i: int, j: int|
            0 <= i < j < steps.len() ==> (#[trigger] steps[i]).path@ != (#[trigger] steps[j]).path@,
    ensures
        forall|i: int|
            0 <= i < n && (#[trigger] steps[i]).path@ == p ==> match opt_bytes(steps[i].restore) {
                Some(c) => put_back(f, steps, n).dom().contains(p) && put_back(f, steps, n)[p]
                    == c,
                None => !put_back(f, steps, n).dom().contains(p),
            },
        (forall|i: int| 0 <= i < n ==> (#[trigger] steps[i]).path@ != p) ==> {
            &&& put_back(f, steps, n).dom().contains(p) == f.dom().contains(p)
            &&& f.dom().contains(p) ==> put_back(f, steps, n)[p] == f[p]
        },
    decreases n,
{
    if n > 0 {
        lemma_put_back(f, steps, n - 1, p);
    }
}

/// If a file cannot be written, the rollback leaves every file as it was before the first was
/// written.
pub proof fn law_rollback_restores_every_file(
    f: Files,
    s: Seq<StagedWrite>,
    steps: Seq<RollbackStep>,
    n: int,
)
    requires
        0 <= n <= s.len(),
        is_staged(f, s),
        undoes(steps, s, n),
    ensures
        put_back(written(f, s, n), steps, n) == f,
{
    let w = written(f, s, n);
    let r = put_back(w, steps, n);
    assert forall|i: int, j: int| 0 <= i < j < steps.len() implies (#[trigger] steps[i]).path@ != (
    #[trigger] steps[j]).path@ by {
        assert(s[i].path@ != s[j].path@);
    }
    assert forall|p: Seq<char>|
        #![trigger r.dom().contains(p)]
        r.dom().contains(p) == f.dom().contains(p) && (f.dom().contains(p) ==> r[p] == f[p]) by {
        lemma_put_back(w, steps, n, p);
        if exists|i: int| 0 <= i < n && (#[trigger] s[i]).path@ == p {
            let i = choose|i: int| 0 <= i < n && (#[trigger] s[i]).path@ == p;
            assert(steps[i].path@ == p);
            assert(opt_bytes(s[i].original) == opt_bytes(steps[i].restore));
        } else {
            assert forall|i: int| 0 <= i < n implies (#[trigger] steps[i]).path@ != p by {
                assert(s[i].path@ != p);
            }
            lemma_written(f, s, n, p);
        }
    }
    assert(r.dom() =~= f.dom());
    assert(r =~= f);
}

/// Once all files are written, each holds what it was to hold.
pub proof fn law_written_files_hold_their_content(f: Files, s: Seq<StagedWrite>, i: int)
    requires
        is_staged(f, s),
        0 <= i < s.len(),
    ensures
        written(f, s, s.len() as int).dom().contains(s[i].path@),
        written(f, s, s.len() as int)[s[i].path@] == s[i].content@,
{
    lemma_written_holds(f, s, s.len() as int, i);
}

proof fn lemma_written_holds(f: Files, s: Seq<StagedWrite>, n: int, i: int)
    requires
        is_staged(f, s),
        0 <= i < n <= s.len(),
    ensures
        written(f, s, n).dom().contains(s[i].path@),
        written(f, s, n)[s[i].path@] == s[i].content@,
    decreases n,
{
    if i < n - 1 {
        lemma_written_holds(f, s, n - 1, i);
        assert(s[i].path@ != s[n - 1].path@);
    }
}

/// What hashing a text writes to a hasher.
pub uninterp spec fn hashed_text(text: Seq<char>) -> Seq<Seq<u8>>;

/// `std::hash::Hash::hash` of a text: it feeds the text into the hasher, and what it writes
/// depends on the text alone.
#[verifier::external_body]
fn feed_text(source: &str, hasher: &mut DefaultHasher)
    ensures
        final(hasher)@ == old(hasher)@ + hashed_text(source@),
{
    std::hash::Hash::hash(source, hasher);
}

/// The hash of a text, with sixteen hexadecimal digits.
pub open spec fn state_hash(text: Seq<char>) -> Seq<char> {
    number::hex(DefaultHasher::spec_finish(hashed_text(text)) as nat, 16)
}

/// The hash of a text, with sixteen hexadecimal digits.
pub fn content_hash(source: &str) -> (r: String)
    ensures
        r@ == state_hash(source@),
{
    let mut hasher = DefaultHasher::new();
    feed_text(source, &mut hasher);
    proof {
        assert(Seq::<Seq<u8>>::empty() + hashed_text(source@) =~= hashed_text(source@));
    }
    format_hex(hasher.finish())
}

impl FileExecutionState {
    /// A file with its steps and its content, which is the one state that it had so far.
    pub fn of_content(file_key: String, steps: Vec<IndexedPlanStep>, latest_state: String) -> (r:
        FileExecutionState)
        ensures
            r@ == (batch::StateView {
                file: file_key@,
                steps: sorting::views(steps@),
                latest: latest_state@,
                seen: seq![state_hash(latest_state@)],
            }),
    {
        let hash = content_hash(latest_state.as_str());
        FileExecutionState::new(file_key, steps, latest_state, hash)
    }
}

impl VariantRun {
    /// Takes what the verification of the candidate brought, and notes the hash of the
    /// candidate.
    pub fn verified_candidate(&mut self, result: VerifyResult, structured: &str)
        requires
            old(self).stage == variant::VariantStage::Verify || old(self).stage
                == variant::VariantStage::VerifyRetry,
            variant::countable(old(self).latest_state@, old(self).candidate@),
        ensures
            final(self)@ == variant::after_verification(
                old(self)@,
                result@,
                state_hash(old(self).candidate@),
                structured@,
            ),
    {
        let hash = content_hash(self.candidate.as_str());
        self.verified(result, hash.as_str(), structured);
    }
}

/// Whether every verified candidate carries the hash of its content.
pub open spec fn hashes_are_true(s: Seq<OutcomeView>) -> bool {
    forall|i: int|
        0 <= i < s.len() ==> ((#[trigger] s[i]).candidate matches Some(c) ==> s[i].hash == Some(
            state_hash(c),
        ))
}

/// A candidate that comes out of a verification carries the hash of its content.
pub proof fn law_candidates_carry_their_hash(
    v: VariantView,
    r: ResultView,
    structured: Seq<char>,
)
    requires
        v.outcome is None,
    ensures
        variant::after_verification(v, r, state_hash(v.candidate), structured).outcome matches Some(
            o,
        ) ==> hashes_are_true(seq![o]),
{
}

/// A content that a file had before is never accepted again.
pub proof fn law_earlier_contents_are_not_accepted(
    s: Seq<OutcomeView>,
    seen: Seq<Seq<char>>,
    content: Seq<char>,
)
    requires
        hashes_are_true(s),
        seen.contains(state_hash(content)),
        settle::finalists(s, seen).len() > 0,
    ensures
        settle::finalists(s, seen)[0].candidate != Some(content),
{
    settle::law_accepted_candidates_are_new(s, seen);
    let w = settle::finalists(s, seen)[0];
    let i = choose|i: int| 0 <= i < s.len() && s[i] == w;
    assert(s[i].candidate is Some);
}

/// The last line that the lock of a file covers.
pub open spec fn lock_end(content: Seq<char>) -> nat {
    if split::lines_of(content).len() == 0 {
        1
    } else {
        split::lines_of(content).len()
    }
}

/// The lock of a whole file.
pub fn file_lock(file_key: &str, content: &str, agent_id: &str, locked_at: &str) -> (r: CoolLock)
    requires
        split::lines_of(content@).len() <= u32::MAX,
    ensures
        r.file_path@ == file_key@,
        r.line_start == 1,
        r.line_end == lock_end(content@),
        r.locked_hash@ == state_hash(content@),
        r.locked_by_agent@ == agent_id@,
        r.locked_at@ == locked_at@,
{
    let all = lines(content);
    let n: usize = all.len();
    proof {
        assert(split::lines_of(content@).len() == n);
    }
    let line_end: u32 = if n == 0 {
        1
    } else {
        n as u32
    };
    CoolLock {
        file_path: own(file_key),
        line_start: 1,
        line_end,
        locked_hash: content_hash(content),
        locked_at: own(locked_at),
        locked_by_agent: own(agent_id),
    }
}

/// Whether a lock covers a whole file with the given content.
pub open spec fn locks_content(
    lock: CoolLock,
    accepted: plan::AcceptedView,
    locked_at: Seq<char>,
) -> bool {
    &&& lock.file_path@ == accepted.file
    &&& lock.line_start == 1
    &&& lock.line_end == lock_end(accepted.content)
    &&& lock.locked_hash@ == state_hash(accepted.content)
    &&& lock.locked_by_agent@ == accepted.agent
    &&& lock.locked_at@ == locked_at
}

/// Whether a lock is that of the accepted file at `k`.
pub open spec fn is_lock_of(
    lock: CoolLock,
    accepted: Seq<plan::AcceptedView>,
    k: int,
    locked_at: Seq<char>,
) -> bool {
    match plan::last_content(accepted, plan::accepted_names(accepted)[k]) {
        Some(a) => locks_content(lock, a, locked_at),
        None => false,
    }
}

/// Whether the lines of all accepted candidates can be counted.
pub open spec fn lines_fit(accepted: Seq<plan::AcceptedView>) -> bool {
    forall|i: int|
        0 <= i < accepted.len() ==> split::lines_of((#[trigger] accepted[i]).content).len()
            <= u32::MAX
}

proof fn lemma_last_is_accepted(accepted: Seq<plan::AcceptedView>, file: Seq<char>)
    ensures
        plan::last_content(accepted, file) matches Some(a) ==> a.file == file,
    decreases accepted.len(),
{
    if accepted.len() > 0 {
        lemma_last_is_accepted(accepted.drop_last(), file);
    }
}

impl PlanRun {
    /// The locks of the files that are applied: each names the agent whose candidate was last
    /// accepted.
    pub fn accepted_locks(&self, locked_at: &str) -> (r: Vec<CoolLock>)
        requires
            lines_fit(self@.accepted),
        ensures
            r@.len() == plan::accepted_names(self@.accepted).len(),
            forall|i: int|
                0 <= i < r@.len() ==> is_lock_of(
                    #[trigger] r@[i],
                    self@.accepted,
                    i,
                    locked_at@,
                ),
    {
        let ghost all = self@.accepted;
        let files = self.accepted_files();
        let mut out: Vec<CoolLock> = Vec::new();
        let mut i: usize = 0;
        while i < files.len()
            invariant
                all == self@.accepted,
                all == sorting::views(self.accepted@),
                lines_fit(all),
                files@.len() == plan::accepted_names(all).len(),
                forall|k: int|
                    0 <= k < files@.len() ==> (#[trigger] files@[k]).path@ == plan::accepted_names(
                        all,
                    )[k] && plan::last_content(all, files@[k].path@) is Some,
                i <= files@.len(),
                out@.len() == i,
                forall|k: int|
                    0 <= k < i ==> is_lock_of(#[trigger] out@[k], all, k, locked_at@),
            decreases files@.len() - i,
        {
            proof {
                lemma_last_is_accepted(all, files@[i as int].path@);
            }
            match last_accepted(self.accepted.as_slice(), files[i].path.as_str()) {
                Some(k) => {
                    let a = &self.accepted[k];
                    proof {
                        assert(all[k as int] == a@);
                    }
                    out.push(
                        file_lock(
                            a.file_key.as_str(),
                            a.content.as_str(),
                            a.agent_id.as_str(),
                            locked_at,
                        ),
                    );
                },
                None => {
                    proof {
                        assert(false);
                    }
                },
            }
            i = i + 1;
        }
        out
    }
}

/// The locks of a file, which a new lock of the file takes the place of.
pub open spec fn is_replaced(lock: CoolLock, file: Seq<char>) -> bool {
    lock.file_path@ == file
}

/// The positions of the locks that a new lock of the file takes the place of.
pub fn replaced_locks(locks: &[CoolLock], file_key: &str) -> (r: Vec<usize>)
    ensures
        forall|i: int| 0 <= i < r@.len() ==> (#[trigger] r@[i]) < locks@.len() && is_replaced(
            locks@[r@[i] as int],
            file_key@,
        ),
        forall|k: usize|
            k < locks@.len() && is_replaced(#[trigger] locks@[k as int], file_key@)
                ==> r@.contains(k),
        forall|i: int, j: int| 0 <= i < j < r@.len() ==> r@[i] < r@[j],
{
    let mut out: Vec<usize> = Vec::new();
    let mut k: usize = 0;
    while k < locks.len()
        invariant
            k <= locks@.len(),
            forall|i: int| 0 <= i < out@.len() ==> (#[trigger] out@[i]) < k && is_replaced(
                locks@[out@[i] as int],
                file_key@,
            ),
            forall|m: usize|
                m < k && is_replaced(#[trigger] locks@[m as int], file_key@) ==> out@.contains(m),
            forall|i: int, j: int| 0 <= i < j < out@.len() ==> out@[i] < out@[j],
        decreases locks@.len() - k,
    {
        if same(locks[k].file_path.as_str(), file_key) {
            let ghost before = out@;
            out.push(k);
            proof {
                assert forall|m: usize|
                    m < k + 1 && is_replaced(#[trigger] locks@[m as int], file_key@) implies out@
                    .contains(m) by {
                    if m < k {
                        let i = choose|i: int| 0 <= i < before.len() && before[i] == m;
                        assert(out@[i] == m);
                    } else {
                        assert(out@[before.len() as int] == m);
                    }
                }
            }
        }
        k = k + 1;
    }
    out
}

/// Counters of a session. They wrap around where they no longer fit.
#[derive(Debug, Clone, Copy, PartialEq, Eq, Structural)]
pub struct ExecutionTelemetry {
    pub swarm_id: i64,
    pub agents_spawned: i64,
    pub total_tokens: i64,
    pub iterations: i64,
}

impl ExecutionTelemetry {
    /// The counters of a session that was begun before.
    pub fn new(swarm_id: i64, agents_spawned: i64, total_tokens: i64, iterations: i64) -> (r:
        ExecutionTelemetry)
        ensures
            r == (ExecutionTelemetry { swarm_id, agents_spawned, total_tokens, iterations }),
    {
        ExecutionTelemetry { swarm_id, agents_spawned, total_tokens, iterations }
    }

    /// Counts an agent, and gives the number of agents.
    pub fn record_spawn(&mut self) -> (r: i64)
        ensures
            r == old(self).agents_spawned.wrapping_add(1),
            *final(self) == (ExecutionTelemetry { agents_spawned: r, ..*old(self) }),
    {
        self.agents_spawned = self.agents_spawned.wrapping_add(1);
        self.agents_spawned
    }

    /// Counts tokens.
    pub fn record_usage(&mut self, tokens: i64)
        ensures
            *final(self) == (ExecutionTelemetry {
                total_tokens: old(self).total_tokens.wrapping_add(tokens),
                ..*old(self)
            }),
    {
        self.total_tokens = self.total_tokens.wrapping_add(tokens);
    }

    /// Counts an iteration, and gives its number.
    pub fn next_iteration(&mut self) -> (r: i64)
        ensures
            r == old(self).iterations.wrapping_add(1),
            *final(self) == (ExecutionTelemetry { iterations: r, ..*old(self) }),
    {
        self.iterations = self.iterations.wrapping_add(1);
        self.iterations
    }
}

/// A lock on a file reaches from its first line to its last, and over one line at least.
pub proof fn law_locks_reach_to_the_last_line(content: Seq<char>)
    ensures
        lock_end(content) >= 1,
        split::lines_of(content).len() > 0 ==> lock_end(content) == split::lines_of(content).len(),
{
}

} // verus!
