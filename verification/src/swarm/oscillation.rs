//! Alerts on files whose candidates are accepted and rejected in turn.
use crate::sorting;
use crate::sorting::sort_distinct;
use crate::swarm::track;
use crate::swarm::track::{find_track, keep_latest, open_track, Track};
use crate::text::chars;
use crate::text::chars::own;
use vstd::prelude::*;

verus! {

broadcast use chars::lemma_texts_push, chars::lemma_texts_empty;

/// What became of a candidate.
#[derive(Debug, Clone, Copy, PartialEq, Eq, Structural)]
pub enum CandidateOutcome {
    Accepted,
    Rejected,
}

/// The outcome of a candidate for a file.
#[derive(Debug, Clone, PartialEq, Eq)]
pub struct CandidateOutcomeEvent {
    pub file_path: String,
    pub candidate_id: String,
    pub outcome: CandidateOutcome,
}

/// What a [`CandidateOutcomeEvent`] stands for.
#[verifier::ext_equal]
pub struct OutcomeView {
    pub file: Seq<char>,
    pub id: Seq<char>,
    pub outcome: CandidateOutcome,
}

impl View for CandidateOutcomeEvent {
    type V = OutcomeView;

    open spec fn view(&self) -> OutcomeView {
        OutcomeView {
            file: self.file_path@,
            id: self.candidate_id@,
            outcome: self.outcome,
        }
    }
}

/// Raised when outcomes for a file change too often.
#[derive(Debug, Clone, PartialEq, Eq)]
pub struct OscillationAlert {
    pub file_path: String,
    pub flip_count: u32,
    pub candidate_ids: Vec<String>,
}

/// What an [`OscillationAlert`] stands for.
#[verifier::ext_equal]
pub struct OscillationView {
    pub file: Seq<char>,
    pub flips: nat,
    pub ids: Seq<Seq<char>>,
}

impl View for OscillationAlert {
    type V = OscillationView;

    open spec fn view(&self) -> OscillationView {
        OscillationView {
            file: self.file_path@,
            flips: self.flip_count as nat,
            ids: chars::texts(self.candidate_ids@),
        }
    }
}

/// What an optional alert stands for.
pub open spec fn alert_view(a: Option<OscillationAlert>) -> Option<OscillationView> {
    match a {
        Some(x) => Some(x@),
        None => None,
    }
}

/// How often neighbouring outcomes differ.
pub open spec fn outcome_flips(s: Seq<OutcomeView>) -> nat
    decreases s.len(),
{
    if s.len() < 2 {
        0
    } else {
        outcome_flips(s.drop_last()) + (if s[s.len() - 2].outcome != s.last().outcome {
            1nat
        } else {
            0nat
        })
    }
}

/// How many outcomes at the end are the same.
pub open spec fn settled_run(s: Seq<OutcomeView>) -> nat
    decreases s.len(),
{
    if s.len() == 0 {
        0
    } else if s.len() >= 2 && s[s.len() - 2].outcome == s.last().outcome {
        settled_run(s.drop_last()) + 1
    } else {
        1
    }
}

/// The candidates of the outcomes.
pub open spec fn outcome_ids(s: Seq<OutcomeView>) -> Seq<Seq<char>> {
    Seq::new(s.len(), |i: int| s[i].id)
}

/// The limits of a tracker.
pub struct TrackerLimits {
    /// How many outcomes are kept per file.
    pub window: nat,
    /// How many changes raise an alert.
    pub threshold: nat,
    /// How many equal outcomes settle a file.
    pub stabilization: nat,
}

/// What one more outcome makes of a file, and the alert that it raises. The latest outcomes
/// are kept. While the file is suppressed nothing is raised until it settles; then only the
/// settled outcomes are kept.
pub open spec fn outcome_step(
    c: TrackerLimits,
    t: track::Seen<OutcomeView>,
    e: OutcomeView,
) -> (track::Seen<OutcomeView>, Option<OscillationView>) {
    let kept = track::latest(t.history.push(e), c.window);
    let run = settled_run(kept);
    if t.suppressed && run < c.stabilization {
        (track::Seen { history: kept, suppressed: true }, None)
    } else {
        let h = if t.suppressed {
            track::latest(kept, run)
        } else {
            kept
        };
        if h.len() < 3 || outcome_flips(h) < c.threshold {
            (track::Seen { history: h, suppressed: false }, None)
        } else {
            (
                track::Seen { history: h, suppressed: true },
                Some(
                    OscillationView {
                        file: e.file,
                        flips: outcome_flips(h),
                        ids: sorting::distinct_texts(outcome_ids(h)),
                    },
                ),
            )
        }
    }
}

/// Watches the outcomes of candidates per file.
#[derive(Debug)]
pub struct OscillationTracker {
    window_size: usize,
    flip_threshold: u32,
    stabilization_window: usize,
    tracks: Vec<Track<CandidateOutcomeEvent>>,
}

proof fn lemma_run_bounds(s: Seq<OutcomeView>)
    ensures
        settled_run(s) <= s.len(),
        s.len() > 0 ==> settled_run(s) >= 1,
        outcome_flips(s) <= s.len(),
        s.len() > 0 ==> outcome_flips(s) < s.len(),
    decreases s.len(),
{
    if s.len() > 0 {
        lemma_run_bounds(s.drop_last());
    }
}

fn count_flips(h: &[CandidateOutcomeEvent]) -> (r: u32)
    requires
        h@.len() <= u32::MAX,
    ensures
        r == outcome_flips(sorting::views(h@)),
{
    let ghost all = sorting::views(h@);
    if h.len() < 2 {
        return 0;
    }
    let mut n: u32 = 0;
    let mut i: usize = 1;
    while i < h.len()
        invariant
            all == sorting::views(h@),
            1 <= i <= h@.len() <= u32::MAX,
            n < i,
            n == outcome_flips(all.take(i as int)),
        decreases h@.len() - i,
    {
        proof {
            let t = all.take(i + 1);
            assert(t.drop_last() =~= all.take(i as int));
            assert(t.last() == h@[i as int]@);
            assert(t[t.len() - 2] == h@[i - 1]@);
        }
        if h[i - 1].outcome != h[i].outcome {
            n = n + 1;
        }
        i = i + 1;
    }
    proof {
        assert(all.take(all.len() as int) =~= all);
    }
    n
}

/// Counts the equal outcomes at the end.
fn trailing_same_outcome_len(h: &[CandidateOutcomeEvent]) -> (r: usize)
    ensures
        r == settled_run(sorting::views(h@)),
{
    let ghost all = sorting::views(h@);
    let n: usize = h.len();
    if n == 0 {
        return 0;
    }
    let mut run: usize = 1;
    proof {
        assert(all.take(n as int) =~= all);
    }
    while run < n && h[n - run - 1].outcome == h[n - run].outcome
        invariant
            all == sorting::views(h@),
            n == h@.len(),
            1 <= run <= n,
            settled_run(all) == settled_run(all.take(n - run + 1)) + run - 1,
        decreases n - run,
    {
        proof {
            let t = all.take(n - run + 1);
            assert(t.drop_last() =~= all.take(n - run));
            assert(t.last() == h@[n - run]@);
            assert(t[t.len() - 2] == h@[n - run - 1]@);
        }
        run = run + 1;
    }
    proof {
        let t = all.take(n - run + 1);
        assert(t.last() == h@[n - run]@);
        if run < n {
            assert(t[t.len() - 2] == h@[n - run - 1]@);
        }
        assert(settled_run(t) == 1);
    }
    run
}

fn ids_of(h: &[CandidateOutcomeEvent]) -> (r: Vec<String>)
    ensures
        chars::texts(r@) == outcome_ids(sorting::views(h@)),
{
    let mut out: Vec<String> = Vec::new();
    let mut i: usize = 0;
    while i < h.len()
        invariant
            i <= h@.len(),
            out@.len() == i,
            forall|j: int| 0 <= j < i ==> (#[trigger] out@[j])@ == h@[j].candidate_id@,
        decreases h@.len() - i,
    {
        out.push(own(h[i].candidate_id.as_str()));
        i = i + 1;
    }
    proof {
        assert(chars::texts(out@) =~= outcome_ids(sorting::views(h@)));
    }
    out
}

fn record_in(
    t: &mut Track<CandidateOutcomeEvent>,
    event: CandidateOutcomeEvent,
    window: usize,
    threshold: u32,
    stabilization: usize,
) -> (r: Option<OscillationAlert>)
    requires
        old(t).history@.len() < u32::MAX,
    ensures
        final(t).file == old(t).file,
        (final(t)@, alert_view(r)) == outcome_step(
            TrackerLimits {
                window: window as nat,
                threshold: threshold as nat,
                stabilization: stabilization as nat,
            },
            old(t)@,
            event@,
        ),
{
    let file = own(event.file_path.as_str());
    let ghost before = sorting::views(t.history@);
    let ghost e = event@;
    t.history.push(event);
    proof {
        assert(sorting::views(t.history@) =~= before.push(e));
    }
    keep_latest(&mut t.history, window);
    let ghost kept = sorting::views(t.history@);
    proof {
        lemma_run_bounds(kept);
        assert(kept.len() == t.history@.len());
    }
    if t.suppressed {
        let run = trailing_same_outcome_len(t.history.as_slice());
        if run < stabilization {
            return None;
        }
        keep_latest(&mut t.history, run);
        t.suppressed = false;
    }
    proof {
        assert(sorting::views(t.history@).len() == t.history@.len());
    }
    if t.history.len() < 3 {
        return None;
    }
    let flips = count_flips(t.history.as_slice());
    if flips < threshold {
        return None;
    }
    t.suppressed = true;
    let ids = sort_distinct(ids_of(t.history.as_slice()));
    Some(OscillationAlert { file_path: file, flip_count: flips, candidate_ids: ids })
}

impl OscillationTracker {
    /// The limits of the tracker.
    pub closed spec fn limits(&self) -> TrackerLimits {
        TrackerLimits {
            window: self.window_size as nat,
            threshold: self.flip_threshold as nat,
            stabilization: self.stabilization_window as nat,
        }
    }

    /// What the tracker holds of a file.
    pub closed spec fn of(&self, file: Seq<char>) -> track::Seen<OutcomeView> {
        track::seen(self.tracks@, file)
    }

    /// A tracker whose files settle after as many equal outcomes as changes raise an alert,
    /// but at least two.
    pub fn new(window_size: usize, flip_threshold: u32) -> (r: OscillationTracker)
        ensures
            r.limits() == (TrackerLimits {
                window: if window_size < 3 {
                    3
                } else {
                    window_size as nat
                },
                threshold: flip_threshold as nat,
                stabilization: if flip_threshold < 2 {
                    2
                } else {
                    flip_threshold as nat
                },
            }),
            forall|file: Seq<char>| #[trigger] r.of(file) == track::unseen::<OutcomeView>(),
    {
        let settle: usize = if flip_threshold < 2 {
            2
        } else {
            flip_threshold as usize
        };
        OscillationTracker::with_stabilization_window(window_size, flip_threshold, settle)
    }

    /// A tracker with its own number of outcomes after which a file settles. At least three
    /// outcomes are kept, and at least two settle a file.
    pub fn with_stabilization_window(
        window_size: usize,
        flip_threshold: u32,
        stabilization_window: usize,
    ) -> (r: OscillationTracker)
        ensures
            r.limits() == (TrackerLimits {
                window: if window_size < 3 {
                    3
                } else {
                    window_size as nat
                },
                threshold: flip_threshold as nat,
                stabilization: if stabilization_window < 2 {
                    2
                } else {
                    stabilization_window as nat
                },
            }),
            forall|file: Seq<char>| #[trigger] r.of(file) == track::unseen::<OutcomeView>(),
    {
        OscillationTracker {
            window_size: if window_size < 3 {
                3
            } else {
                window_size
            },
            flip_threshold,
            stabilization_window: if stabilization_window < 2 {
                2
            } else {
                stabilization_window
            },
            tracks: Vec::new(),
        }
    }

    /// Records an outcome, and raises an alert if the outcomes for its file change too often.
    pub fn record(&mut self, event: CandidateOutcomeEvent) -> (r: Option<OscillationAlert>)
        requires
            old(self).of(event.file_path@).history.len() < u32::MAX,
        ensures
            final(self).limits() == old(self).limits(),
            (final(self).of(event.file_path@), alert_view(r)) == outcome_step(
                old(self).limits(),
                old(self).of(event.file_path@),
                event@,
            ),
            forall|file: Seq<char>|
                file != event.file_path@ ==> #[trigger] final(self).of(file) == old(self).of(file),
    {
        let window = self.window_size;
        let threshold = self.flip_threshold;
        let stabilization = self.stabilization_window;
        let ghost file = event.file_path@;
        let k = open_track(&mut self.tracks, event.file_path.as_str());
        let ghost opened = self.tracks@;
        proof {
            track::lemma_seen_at(opened, file, k as int);
            assert(track::seen(old(self).tracks@, file).history.len() < u32::MAX);
        }
        let r = record_in(&mut self.tracks[k], event, window, threshold, stabilization);
        proof {
            assert(self.tracks@ =~= opened.update(k as int, self.tracks@[k as int]));
            assert forall|f: Seq<char>| #[trigger]
                track::seen(self.tracks@, f) == (if f == file {
                    self.tracks@[k as int]@
                } else {
                    track::seen(opened, f)
                }) by {
                track::lemma_seen_update(opened, file, k as int, self.tracks@[k as int], f);
            }
        }
        r
    }

    /// The outcomes that are kept for a file, oldest first.
    pub fn history_for(&self, file_path: &str) -> (r: &[CandidateOutcomeEvent])
        ensures
            sorting::views(r@) == self.of(file_path@).history,
    {
        match find_track(self.tracks.as_slice(), file_path) {
            Some(k) => self.tracks[k].history.as_slice(),
            None => {
                let r: &[CandidateOutcomeEvent] = &[];
                proof {
                    assert(sorting::views(r@) =~= Seq::<OutcomeView>::empty());
                }
                r
            },
        }
    }

    /// Whether alerts for a file are suppressed.
    pub fn is_suppressed(&self, file_path: &str) -> (r: bool)
        ensures
            r == self.of(file_path@).suppressed,
    {
        match find_track(self.tracks.as_slice(), file_path) {
            Some(k) => self.tracks[k].suppressed,
            None => false,
        }
    }
}

/// No more outcomes are kept than the window allows.
pub proof fn law_history_is_bounded(
    c: TrackerLimits,
    t: track::Seen<OutcomeView>,
    e: OutcomeView,
)
    ensures
        outcome_step(c, t, e).0.history.len() <= c.window,
{
    let kept = track::latest(t.history.push(e), c.window);
    lemma_run_bounds(kept);
}

/// An alert suppresses its file.
pub proof fn law_alert_suppresses(c: TrackerLimits, t: track::Seen<OutcomeView>, e: OutcomeView)
    ensures
        outcome_step(c, t, e).1 is Some ==> outcome_step(c, t, e).0.suppressed,
{
}

/// A suppressed file raises no alert: it either stays suppressed, or it has settled and no
/// outcome that is kept differs from another. (An alert threshold of zero is met by settled
/// files too.)
pub proof fn law_suppressed_files_stay_silent(
    c: TrackerLimits,
    t: track::Seen<OutcomeView>,
    e: OutcomeView,
)
    requires
        t.suppressed,
        c.threshold > 0,
    ensures
        outcome_step(c, t, e).1 is None,
        !outcome_step(c, t, e).0.suppressed ==> outcome_flips(outcome_step(c, t, e).0.history)
            == 0,
{
    let kept = track::latest(t.history.push(e), c.window);
    lemma_run_bounds(kept);
    lemma_settled_never_flips(kept);
}

proof fn lemma_settled_never_flips(s: Seq<OutcomeView>)
    ensures
        outcome_flips(track::latest(s, settled_run(s))) == 0,
    decreases s.len(),
{
    lemma_run_bounds(s);
    let n = settled_run(s);
    let h = track::latest(s, n);
    assert(h.len() == n);
    if n >= 2 {
        let front = s.drop_last();
        lemma_settled_never_flips(front);
        lemma_run_bounds(front);
        assert(h.drop_last() =~= track::latest(front, settled_run(front)));
        assert(h.last() == s.last());
        assert(h[h.len() - 2] == s[s.len() - 2]);
    }
}

} // verus!
