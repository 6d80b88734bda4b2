//! Bounded histories kept per file.
use crate::sorting;
use crate::text::chars::{own, same};
use vstd::prelude::*;

verus! {

/// The history of one file.
#[derive(Debug)]
pub struct Track<T> {
    pub file: String,
    pub history: Vec<T>,
    /// Whether an alert was raised and the file has not settled since.
    pub suppressed: bool,
}

/// What is known of a file.
#[verifier::ext_equal]
pub struct Seen<A> {
    pub history: Seq<A>,
    pub suppressed: bool,
}

/// What is known of a file that was never recorded.
pub open spec fn unseen<A>() -> Seen<A> {
    Seen { history: Seq::empty(), suppressed: false }
}

impl<T: View> View for Track<T> {
    type V = Seen<T::V>;

    open spec fn view(&self) -> Seen<T::V> {
        Seen { history: sorting::views(self.history@), suppressed: self.suppressed }
    }
}

/// What the tracks hold of a file.
pub open spec fn seen<T: View>(tracks: Seq<Track<T>>, file: Seq<char>) -> Seen<T::V>
    decreases tracks.len(),
{
    if tracks.len() == 0 {
        unseen()
    } else if tracks.last().file@ == file {
        tracks.last()@
    } else {
        seen(tracks.drop_last(), file)
    }
}

/// Whether `k` is the last track of a file.
pub open spec fn is_track<T>(tracks: Seq<Track<T>>, file: Seq<char>, k: int) -> bool {
    &&& 0 <= k < tracks.len()
    &&& tracks[k].file@ == file
    &&& forall|j: int| k < j < tracks.len() ==> (#[trigger] tracks[j]).file@ != file
}

/// The last `n` values, or all if there are fewer.
pub open spec fn latest<A>(s: Seq<A>, n: nat) -> Seq<A> {
    if s.len() > n {
        s.subrange(s.len() - n, s.len() as int)
    } else {
        s
    }
}

pub proof fn lemma_seen_at<T: View>(tracks: Seq<Track<T>>, file: Seq<char>, k: int)
    requires
        is_track(tracks, file, k),
    ensures
        seen(tracks, file) == tracks[k]@,
    decreases tracks.len(),
{
    if k < tracks.len() - 1 {
        let front = tracks.drop_last();
        assert(tracks[tracks.len() - 1].file@ != file);
        assert forall|j: int| k < j < front.len() implies (#[trigger] front[j]).file@
            != file by {
            assert(front[j] == tracks[j]);
        }
        lemma_seen_at(front, file, k);
    }
}

proof fn lemma_seen_nowhere<T: View>(tracks: Seq<Track<T>>, file: Seq<char>)
    requires
        forall|j: int| 0 <= j < tracks.len() ==> (#[trigger] tracks[j]).file@ != file,
    ensures
        seen(tracks, file) == unseen::<T::V>(),
    decreases tracks.len(),
{
    if tracks.len() > 0 {
        let front = tracks.drop_last();
        assert(tracks[tracks.len() - 1].file@ != file);
        assert forall|j: int| 0 <= j < front.len() implies (#[trigger] front[j]).file@
            != file by {
            assert(front[j] == tracks[j]);
        }
        lemma_seen_nowhere(front, file);
    }
}

pub proof fn lemma_seen_update<T: View>(
    tracks: Seq<Track<T>>,
    file: Seq<char>,
    k: int,
    t: Track<T>,
    other: Seq<char>,
)
    requires
        is_track(tracks, file, k),
        t.file@ == file,
    ensures
        seen(tracks.update(k, t), other) == (if other == file {
            t@
        } else {
            seen(tracks, other)
        }),
    decreases tracks.len(),
{
    let now = tracks.update(k, t);
    if k == tracks.len() - 1 {
        assert(now.drop_last() =~= tracks.drop_last());
    } else {
        let front = tracks.drop_last();
        assert(tracks[tracks.len() - 1].file@ != file);
        assert forall|j: int| k < j < front.len() implies (#[trigger] front[j]).file@
            != file by {
            assert(front[j] == tracks[j]);
        }
        lemma_seen_update(front, file, k, t, other);
        assert(now.drop_last() =~= front.update(k, t));
    }
}

/// The last track of a file, if there is one.
pub fn find_track<T: View>(tracks: &[Track<T>], file: &str) -> (r: Option<usize>)
    ensures
        match r {
            Some(k) => is_track(tracks@, file@, k as int) && seen(tracks@, file@)
                == tracks@[k as int]@,
            None => seen(tracks@, file@) == unseen::<T::V>(),
        },
{
    let n: usize = tracks.len();
    let mut i: usize = n;
    while i > 0
        invariant
            i <= n,
            n == tracks@.len(),
            forall|j: int| i <= j < tracks@.len() ==> (#[trigger] tracks@[j]).file@ != file@,
        decreases i,
    {
        if same(tracks[i - 1].file.as_str(), file) {
            proof {
                lemma_seen_at(tracks@, file@, i - 1);
            }
            return Some(i - 1);
        }
        i = i - 1;
    }
    proof {
        lemma_seen_nowhere(tracks@, file@);
    }
    None
}

/// The track of a file; an empty one is added if there is none.
pub fn open_track<T: View>(tracks: &mut Vec<Track<T>>, file: &str) -> (r: usize)
    ensures
        is_track(final(tracks)@, file@, r as int),
        forall|f: Seq<char>| #[trigger] seen(final(tracks)@, f) == seen(old(tracks)@, f),
{
    match find_track(tracks.as_slice(), file) {
        Some(k) => k,
        None => {
            let ghost before = tracks@;
            let k: usize = tracks.len();
            tracks.push(Track { file: own(file), history: Vec::new(), suppressed: false });
            proof {
                assert(tracks@.drop_last() =~= before);
                assert(tracks@.last()@ =~= unseen::<T::V>());
            }
            k
        },
    }
}

/// Keeps the last `n` values.
pub fn keep_latest<T: View>(v: &mut Vec<T>, n: usize)
    ensures
        sorting::views(final(v)@) == latest(sorting::views(old(v)@), n as nat),
{
    let ghost all = v@;
    proof {
        assert(v@ =~= latest(all, v@.len()));
    }
    while v.len() > n
        invariant
            v@ == latest(all, v@.len()),
            v@.len() <= all.len(),
            all.len() > n ==> v@.len() >= n,
            all.len() <= n ==> v@ == all,
        decreases v@.len(),
    {
        let ghost before = v@;
        v.remove(0);
        proof {
            assert(v@ =~= latest(all, v@.len()));
        }
    }
    proof {
        assert(sorting::views(v@) =~= latest(sorting::views(all), n as nat));
    }
}

} // verus!
