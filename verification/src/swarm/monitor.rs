//! Alerts on files whose scores swing, files with several agents, and agent density.
use crate::score;
use crate::score::Score;
use crate::sorting;
use crate::swarm::agent::{Agent, SwarmError};
use crate::swarm::track;
use crate::swarm::track::{find_track, keep_latest, open_track, Track};
use crate::text::chars;
use crate::text::chars::{own, same};
use vstd::prelude::*;

verus! {

broadcast use chars::lemma_texts_push, chars::lemma_texts_empty;

/// Whether one reading is lower than another.
pub open spec fn is_lower(a: i64, b: i64) -> bool {
    score::lower(a as int, b as int)
}

/// How often neighbouring steps of the readings go in opposite directions. Steps go by the order
/// of the readings, however small they are; a step from or to what is no number goes nowhere.
pub open spec fn score_flips(s: Seq<i64>) -> nat
    decreases s.len(),
{
    if s.len() < 3 {
        0
    } else {
        let n = s.len();
        let a = s[n - 3];
        let b = s[n - 2];
        let c = s[n - 1];
        score_flips(s.drop_last()) + (if (is_lower(a, b) && is_lower(c, b)) || (is_lower(b, a)
            && is_lower(b, c)) {
            1nat
        } else {
            0nat
        })
    }
}

/// The direction from one reading to the next.
pub open spec fn direction(from: i64, to: i64) -> int {
    if is_lower(from, to) {
        1
    } else if is_lower(to, from) {
        -1
    } else {
        0
    }
}

/// How many readings before the one at `i` continue a run in the given direction.
pub open spec fn run_before(s: Seq<i64>, i: int, dir: int) -> nat
    decreases i,
{
    if i <= 0 {
        0
    } else {
        let d = direction(s[i - 1], s[i]);
        if d == 0 {
            1 + run_before(s, i - 1, dir)
        } else if dir == 0 || d == dir {
            1 + run_before(s, i - 1, d)
        } else {
            0
        }
    }
}

/// How many readings at the end only rise or only fall.
pub open spec fn monotonic_run(s: Seq<i64>) -> nat {
    if s.len() == 0 {
        0
    } else {
        1 + run_before(s, s.len() - 1, 0)
    }
}

/// The limits of a monitor.
pub struct MonitorLimits {
    /// How many readings are kept per file.
    pub window: nat,
    /// How many changes of direction raise an alert.
    pub threshold: nat,
    /// How many readings in one direction settle a file.
    pub stabilization: nat,
}

/// What one more reading makes of a file, and the number of changes of direction if it
/// raises an alert. The latest readings are kept. While the file is suppressed nothing is
/// raised until it settles; then only the settled readings are kept.
pub open spec fn score_step(c: MonitorLimits, t: track::Seen<i64>, rank: i64) -> (
    track::Seen<i64>,
    Option<nat>,
) {
    let kept = track::latest(t.history.push(rank), c.window);
    let run = monotonic_run(kept);
    if t.suppressed && run < c.stabilization {
        (track::Seen { history: kept, suppressed: true }, None)
    } else {
        let h = if t.suppressed {
            track::latest(kept, run)
        } else {
            kept
        };
        if h.len() < 3 || score_flips(h) < c.threshold {
            (track::Seen { history: h, suppressed: false }, None)
        } else {
            (track::Seen { history: h, suppressed: true }, Some(score_flips(h)))
        }
    }
}

/// Watches the scores of files.
#[derive(Debug)]
pub struct Monitor {
    tracks: Vec<Track<i64>>,
    oscillation_threshold: u32,
    stabilization_window: usize,
    history_window: usize,
}

/// Whether readings never fall from one to the next.
pub open spec fn rises(s: Seq<i64>) -> bool {
    forall|i: int| 0 < i < s.len() ==> !is_lower(#[trigger] s[i], s[i - 1])
}

/// Whether readings never rise from one to the next.
pub open spec fn falls(s: Seq<i64>) -> bool {
    forall|i: int| 0 < i < s.len() ==> !is_lower(s[i - 1], #[trigger] s[i])
}

proof fn lemma_run_bounds(s: Seq<i64>, i: int, dir: int)
    requires
        0 <= i < s.len(),
    ensures
        run_before(s, i, dir) <= i,
    decreases i,
{
    if i > 0 {
        let d = direction(s[i - 1], s[i]);
        lemma_run_bounds(s, i - 1, dir);
        lemma_run_bounds(s, i - 1, d);
    }
}

proof fn lemma_run_len(s: Seq<i64>)
    ensures
        monotonic_run(s) <= s.len(),
        s.len() > 0 ==> monotonic_run(s) >= 1,
{
    if s.len() > 0 {
        lemma_run_bounds(s, s.len() - 1, 0);
    }
}

/// Counts changes of direction.
fn count_flips(h: &[i64]) -> (r: u32)
    requires
        h@.len() <= u32::MAX,
    ensures
        r == score_flips(h@),
{
    if h.len() < 3 {
        return 0;
    }
    let mut n: u32 = 0;
    let mut i: usize = 2;
    while i < h.len()
        invariant
            2 <= i <= h@.len() <= u32::MAX,
            n < i,
            n == score_flips(h@.take(i as int)),
        decreases h@.len() - i,
    {
        proof {
            assert(h@.take(i + 1).drop_last() =~= h@.take(i as int));
        }
        let a = h[i - 2];
        let b = h[i - 1];
        let c = h[i];
        if (score::is_lower(a, b) && score::is_lower(c, b)) || (score::is_lower(b, a)
            && score::is_lower(b, c)) {
            n = n + 1;
        }
        i = i + 1;
    }
    proof {
        assert(h@.take(h@.len() as int) =~= h@);
    }
    n
}

/// Counts the readings at the end that only rise or only fall.
fn trailing_monotonic_run_len(h: &[i64]) -> (r: usize)
    ensures
        r == monotonic_run(h@),
{
    let n: usize = h.len();
    if n == 0 {
        return 0;
    }
    let mut dir: i8 = 0;
    let mut run: usize = 1;
    while run < n
        invariant
            n == h@.len(),
            1 <= run <= n,
            -1 <= dir <= 1,
            monotonic_run(h@) == run + run_before(h@, n - run, dir as int),
        decreases n - run,
    {
        let i: usize = n - run;
        let d: i8 = if score::is_lower(h[i - 1], h[i]) {
            1
        } else if score::is_lower(h[i], h[i - 1]) {
            -1
        } else {
            0
        };
        proof {
            assert(d == direction(h@[i - 1], h@[i as int]));
        }
        if d != 0 {
            if dir != 0 && d != dir {
                return run;
            }
            dir = d;
        }
        run = run + 1;
    }
    run
}

fn record_in(t: &mut Track<i64>, rank: i64, window: usize, threshold: u32, stabilization: usize) -> (r:
    Option<u32>)
    requires
        old(t).history@.len() < u32::MAX,
    ensures
        final(t).file == old(t).file,
        final(t)@ == score_step(
            MonitorLimits {
                window: window as nat,
                threshold: threshold as nat,
                stabilization: stabilization as nat,
            },
            old(t)@,
            rank,
        ).0,
        match (
            r,
            score_step(
                MonitorLimits {
                    window: window as nat,
                    threshold: threshold as nat,
                    stabilization: stabilization as nat,
                },
                old(t)@,
                rank,
            ).1,
        ) {
            (Some(a), Some(b)) => a == b,
            (None, None) => true,
            _ => false,
        },
{
    let ghost before = t.history@;
    t.history.push(rank);
    keep_latest(&mut t.history, window);
    let ghost kept = t.history@;
    proof {
        assert(sorting::views(before) =~= before);
        assert(sorting::views(before.push(rank)) =~= before.push(rank));
        assert(sorting::views(kept) =~= kept);
        lemma_run_len(kept);
    }
    if t.suppressed {
        let run = trailing_monotonic_run_len(t.history.as_slice());
        if run < stabilization {
            return None;
        }
        keep_latest(&mut t.history, run);
        t.suppressed = false;
    }
    proof {
        assert(sorting::views(t.history@) =~= t.history@);
    }
    if t.history.len() < 3 {
        return None;
    }
    let flips = count_flips(t.history.as_slice());
    if flips < threshold {
        return None;
    }
    t.suppressed = true;
    Some(flips)
}

/// The larger of a threshold and two.
pub open spec fn at_least_two(n: u32) -> nat {
    if n < 2 {
        2
    } else {
        n as nat
    }
}

impl Monitor {
    /// The limits of the monitor.
    pub closed spec fn limits(&self) -> MonitorLimits {
        MonitorLimits {
            window: self.history_window as nat,
            threshold: self.oscillation_threshold as nat,
            stabilization: self.stabilization_window as nat,
        }
    }

    /// What the monitor holds of a file.
    pub closed spec fn of(&self, file: Seq<char>) -> track::Seen<i64> {
        track::seen(self.tracks@, file)
    }

    /// A monitor that raises an alert at the given number of changes of direction.
    pub fn new(oscillation_threshold: u32) -> (r: Monitor)
        requires
            3 * at_least_two(oscillation_threshold) <= usize::MAX,
        ensures
            r.limits() == (MonitorLimits {
                window: 3 * at_least_two(oscillation_threshold),
                threshold: oscillation_threshold as nat,
                stabilization: at_least_two(oscillation_threshold),
            }),
            forall|file: Seq<char>| #[trigger] r.of(file) == track::unseen::<i64>(),
    {
        let settle: usize = if oscillation_threshold < 2 {
            2
        } else {
            oscillation_threshold as usize
        };
        Monitor {
            tracks: Vec::new(),
            oscillation_threshold,
            stabilization_window: settle,
            history_window: settle * 3,
        }
    }

    /// Records a score of a file, and raises an alert if its scores change direction too
    /// often.
    pub fn record_score(&mut self, file_path: &str, score: Score) -> (r: Option<SwarmError>)
        requires
            old(self).of(file_path@).history.len() < u32::MAX,
        ensures
            final(self).limits() == old(self).limits(),
            final(self).of(file_path@) == score_step(
                old(self).limits(),
                old(self).of(file_path@),
                score.rank,
            ).0,
            match score_step(old(self).limits(), old(self).of(file_path@), score.rank).1 {
                Some(n) => r matches Some(SwarmError::OscillationDetected { file, count })
                    && file@ == file_path@ && count == n,
                None => r is None,
            },
            forall|file: Seq<char>|
                file != file_path@ ==> #[trigger] final(self).of(file) == old(self).of(file),
    {
        let window = self.history_window;
        let threshold = self.oscillation_threshold;
        let stabilization = self.stabilization_window;
        let k = open_track(&mut self.tracks, file_path);
        let ghost opened = self.tracks@;
        proof {
            track::lemma_seen_at(opened, file_path@, k as int);
            assert(track::seen(old(self).tracks@, file_path@).history.len() < u32::MAX);
        }
        let flips = record_in(&mut self.tracks[k], score.rank, window, threshold, stabilization);
        proof {
            assert(self.tracks@ =~= opened.update(k as int, self.tracks@[k as int]));
            assert forall|f: Seq<char>| #[trigger]
                track::seen(self.tracks@, f) == (if f == file_path@ {
                    self.tracks@[k as int]@
                } else {
                    track::seen(opened, f)
                }) by {
                track::lemma_seen_update(opened, file_path@, k as int, self.tracks@[k as int], f);
            }
        }
        match flips {
            Some(count) => Some(SwarmError::OscillationDetected { file: own(file_path), count }),
            None => None,
        }
    }

    /// Whether alerts for a file are suppressed.
    pub fn is_suppressed(&self, file_path: &str) -> (r: bool)
        ensures
            r == self.of(file_path@).suppressed,
    {
        match find_track(self.tracks.as_slice(), file_path) {
            Some(k) => self.tracks[k].suppressed,
            None => false,
        }
    }

    /// The files that several working agents are on, each with the ids of these agents.
    /// Files come in the order of their first agent.
    pub fn detect_conflicts(agents: &[Agent]) -> (r: Vec<(String, Vec<String>)>)
        ensures
            conflict_views(r@) == crowded(agents@, agents@.len() as int),
    {
        let mut out: Vec<(String, Vec<String>)> = Vec::new();
        let mut i: usize = 0;
        proof {
            assert(conflict_views(out@) =~= Seq::<(Seq<char>, Seq<Seq<char>>)>::empty());
        }
        while i < agents.len()
            invariant
                i <= agents@.len(),
                conflict_views(out@) == crowded(agents@, i as int),
            decreases agents@.len() - i,
        {
            if agents[i].is_assignable() && !is_known(agents, agents[i].target_file.as_str(), i) {
                let ids = ids_on(agents, agents[i].target_file.as_str());
                proof {
                    assert(ids@.len() == chars::texts(ids@).len());
                }
                if ids.len() > 1 {
                    let ghost before = out@;
                    let ghost pair = (agents@[i as int].target_file@, chars::texts(ids@));
                    out.push((own(agents[i].target_file.as_str()), ids));
                    proof {
                        assert(conflict_views(out@) =~= conflict_views(before).push(pair));
                    }
                }
            }
            i = i + 1;
        }
        out
    }
}

/// What a list of conflicts stands for.
pub open spec fn conflict_views(v: Seq<(String, Vec<String>)>) -> Seq<(Seq<char>, Seq<Seq<char>>)> {
    Seq::new(v.len(), |i: int| (v[i].0@, chars::texts(v[i].1@)))
}

/// The ids of the working agents on a file.
pub open spec fn agents_on(agents: Seq<Agent>, file: Seq<char>) -> Seq<Seq<char>>
    decreases agents.len(),
{
    if agents.len() == 0 {
        Seq::empty()
    } else {
        let front = agents_on(agents.drop_last(), file);
        let a = agents.last();
        if a.assignable() && a.target_file@ == file {
            front.push(a.id@)
        } else {
            front
        }
    }
}

/// Whether one of the first `n` agents works on the file.
pub open spec fn known(agents: Seq<Agent>, file: Seq<char>, n: int) -> bool {
    exists|j: int|
        0 <= j < n && (#[trigger] agents[j]).assignable() && agents[j].target_file@ == file
}

/// The files of the first `n` agents that several working agents are on.
pub open spec fn crowded(agents: Seq<Agent>, n: int) -> Seq<(Seq<char>, Seq<Seq<char>>)>
    decreases n,
{
    if n <= 0 {
        Seq::empty()
    } else {
        let front = crowded(agents, n - 1);
        let a = agents[n - 1];
        let ids = agents_on(agents, a.target_file@);
        if a.assignable() && !known(agents, a.target_file@, n - 1) && ids.len() > 1 {
            front.push((a.target_file@, ids))
        } else {
            front
        }
    }
}

fn is_known(agents: &[Agent], file: &str, n: usize) -> (r: bool)
    requires
        n <= agents@.len(),
    ensures
        r == known(agents@, file@, n as int),
{
    let mut j: usize = 0;
    while j < n
        invariant
            j <= n <= agents@.len(),
            forall|k: int|
                0 <= k < j ==> !((#[trigger] agents@[k]).assignable() && agents@[k].target_file@
                    == file@),
        decreases n - j,
    {
        if agents[j].is_assignable() && same(agents[j].target_file.as_str(), file) {
            return true;
        }
        j = j + 1;
    }
    false
}

fn ids_on(agents: &[Agent], file: &str) -> (r: Vec<String>)
    ensures
        chars::texts(r@) == agents_on(agents@, file@),
{
    let mut out: Vec<String> = Vec::new();
    let mut i: usize = 0;
    proof {
        assert(agents@.take(0) =~= Seq::<Agent>::empty());
    }
    while i < agents.len()
        invariant
            i <= agents@.len(),
            chars::texts(out@) == agents_on(agents@.take(i as int), file@),
        decreases agents@.len() - i,
    {
        proof {
            assert(agents@.take(i + 1).drop_last() =~= agents@.take(i as int));
        }
        if agents[i].is_assignable() && same(agents[i].target_file.as_str(), file) {
            out.push(own(agents[i].id.as_str()));
        }
        i = i + 1;
    }
    proof {
        assert(agents@.take(agents@.len() as int) =~= agents@);
    }
    out
}

/// No more readings are kept than the window allows.
pub proof fn law_readings_are_bounded(c: MonitorLimits, t: track::Seen<i64>, rank: i64)
    ensures
        score_step(c, t, rank).0.history.len() <= c.window,
{
    lemma_run_len(track::latest(t.history.push(rank), c.window));
}

proof fn lemma_rises_flat(s: Seq<i64>)
    requires
        rises(s) || falls(s),
    ensures
        score_flips(s) == 0,
    decreases s.len(),
{
    if s.len() >= 3 {
        let front = s.drop_last();
        let n = s.len();
        assert(rises(s) ==> !is_lower(s[n - 1], s[n - 2]) && !is_lower(s[n - 2], s[n - 3]));
        assert(falls(s) ==> !is_lower(s[n - 2], s[n - 1]) && !is_lower(s[n - 3], s[n - 2]));
        assert forall|i: int| 0 < i < front.len() && rises(s) implies !is_lower(
            #[trigger] front[i],
            front[i - 1],
        ) by {
            assert(!is_lower(s[i], s[i - 1]));
        }
        assert forall|i: int| 0 < i < front.len() && falls(s) implies !is_lower(
            front[i - 1],
            #[trigger] front[i],
        ) by {
            assert(!is_lower(s[i - 1], s[i]));
        }
        lemma_rises_flat(front);
    }
}

/// A file whose readings only rise or only fall raises no alert.
pub proof fn law_monotonic_scores_raise_no_alert(
    c: MonitorLimits,
    t: track::Seen<i64>,
    rank: i64,
)
    requires
        rises(t.history.push(rank)) || falls(t.history.push(rank)),
        c.threshold > 0,
    ensures
        score_step(c, t, rank).1 is None,
{
    let all = t.history.push(rank);
    let kept = track::latest(all, c.window);
    lemma_latest_keeps(all, c.window);
    lemma_run_len(kept);
    lemma_latest_keeps(kept, monotonic_run(kept));
    lemma_rises_flat(kept);
    lemma_rises_flat(track::latest(kept, monotonic_run(kept)));
}

proof fn lemma_latest_keeps(s: Seq<i64>, n: nat)
    ensures
        rises(s) ==> rises(track::latest(s, n)),
        falls(s) ==> falls(track::latest(s, n)),
{
    let t = track::latest(s, n);
    if s.len() > n {
        assert forall|i: int| 0 < i < t.len() && rises(s) implies !is_lower(
            #[trigger] t[i],
            t[i - 1],
        ) by {
            assert(!is_lower(s[s.len() - n + i], s[s.len() - n + i - 1]));
        }
        assert forall|i: int| 0 < i < t.len() && falls(s) implies !is_lower(
            t[i - 1],
            #[trigger] t[i],
        ) by {
            assert(!is_lower(s[s.len() - n + i - 1], s[s.len() - n + i]));
        }
    }
}

/// Whether the readings from `lo` to `hi` never go against a direction.
pub open spec fn keeps_to(s: Seq<i64>, lo: int, hi: int, d: int) -> bool {
    forall|j: int|
        lo < j <= hi ==> #[trigger] direction(s[j - 1], s[j]) == 0 || direction(s[j - 1], s[j])
            == d
}

proof fn lemma_run_keeps(s: Seq<i64>, i: int, dir: int)
    requires
        0 <= i < s.len(),
        -1 <= dir <= 1,
    ensures
        dir != 0 ==> keeps_to(s, i - run_before(s, i, dir), i, dir),
        keeps_to(s, i - run_before(s, i, dir), i, 1) || keeps_to(
            s,
            i - run_before(s, i, dir),
            i,
            -1,
        ),
    decreases i,
{
    if i > 0 {
        let d = direction(s[i - 1], s[i]);
        lemma_run_keeps(s, i - 1, dir);
        lemma_run_keeps(s, i - 1, d);
    }
}

/// A suppressed file raises no alert: it either stays suppressed, or it has settled and the
/// readings that are kept only rise or only fall. (An alert threshold of zero is met by
/// settled files too.)
pub proof fn law_suppressed_scores_stay_silent(
    c: MonitorLimits,
    t: track::Seen<i64>,
    rank: i64,
)
    requires
        t.suppressed,
        c.threshold > 0,
    ensures
        score_step(c, t, rank).1 is None,
        !score_step(c, t, rank).0.suppressed ==> rises(score_step(c, t, rank).0.history) || falls(
            score_step(c, t, rank).0.history,
        ),
{
    let kept = track::latest(t.history.push(rank), c.window);
    lemma_run_len(kept);
    let n = monotonic_run(kept);
    let h = track::latest(kept, n);
    if kept.len() > 0 {
        let last = kept.len() - 1;
        let lo = last - run_before(kept, last, 0);
        lemma_run_keeps(kept, last, 0);
        assert(kept.len() - n == lo);
        assert(h.len() == n);
        assert forall|i: int| 0 < i < h.len() implies #[trigger] h[i] == kept[lo + i] && h[i - 1]
            == kept[lo + i - 1] by {}
        if keeps_to(kept, lo, last, 1) {
            assert forall|i: int| 0 < i < h.len() implies !is_lower(#[trigger] h[i], h[i - 1]) by {
                let j = lo + i;
                assert(direction(kept[j - 1], kept[j]) == 0 || direction(kept[j - 1], kept[j])
                    == 1);
            }
        } else {
            assert forall|i: int| 0 < i < h.len() implies !is_lower(h[i - 1], #[trigger] h[i]) by {
                let j = lo + i;
                assert(direction(kept[j - 1], kept[j]) == 0 || direction(kept[j - 1], kept[j])
                    == -1);
            }
        }
    }
    lemma_rises_flat(h);
}

/// How many agents a file can have.
#[derive(Debug, Clone, Copy)]
pub struct DensityController {
    pub max_density: i32,
}

/// A wanted density within the limits: at least one, but never above the maximum.
pub open spec fn bounded_density(max_density: int, wanted: int) -> int {
    let raised = if wanted < 1 {
        1
    } else {
        wanted
    };
    if raised > max_density {
        max_density
    } else {
        raised
    }
}

impl DensityController {
    /// A controller with the given maximum.
    pub fn new(max_density: i32) -> (r: DensityController)
        ensures
            r.max_density == max_density,
    {
        DensityController { max_density }
    }

    /// The density for a file whose score asks for the given number of agents.
    pub fn max_density_for_score(&self, wanted: i32) -> (r: i32)
        ensures
            r == bounded_density(self.max_density as int, wanted as int),
    {
        let raised: i32 = if wanted < 1 {
            1
        } else {
            wanted
        };
        if raised > self.max_density {
            self.max_density
        } else {
            raised
        }
    }

    /// Whether a file can have another agent.
    pub fn can_add_agent(&self, current_density: i32, wanted: i32) -> (r: bool)
        ensures
            r == (current_density < bounded_density(self.max_density as int, wanted as int)),
    {
        current_density < self.max_density_for_score(wanted)
    }
}

/// The density of a file grows with the number of agents that it asks for, from one up to the
/// maximum.
pub proof fn law_density_grows(max_density: int, fewer: int, more: int)
    requires
        max_density >= 1,
        fewer <= more,
    ensures
        1 <= bounded_density(max_density, fewer) <= bounded_density(max_density, more)
            <= max_density,
        bounded_density(max_density, 1) == 1,
        bounded_density(max_density, max_density) == max_density,
{
}

} // verus!
