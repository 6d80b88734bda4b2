//! Change counts per file.
use crate::text::chars::{own, same};
use vstd::prelude::*;

verus! {

/// How many commits of the history are looked at.
pub const MAX_COMMITS: u32 = 100;

/// How often and how much one file changed.
#[derive(Debug, Clone, PartialEq, Eq)]
pub struct FileChurn {
    pub file_path: String,
    pub commit_count: u32,
    pub lines_changed: u32,
}

/// What a [`FileChurn`] stands for.
#[verifier::ext_equal]
pub struct ChurnView {
    pub file_path: Seq<char>,
    pub commit_count: u32,
    pub lines_changed: u32,
}

impl View for FileChurn {
    type V = ChurnView;

    open spec fn view(&self) -> ChurnView {
        ChurnView {
            file_path: self.file_path@,
            commit_count: self.commit_count,
            lines_changed: self.lines_changed,
        }
    }
}

/// The churn by which files are ranked: commits and changed lines together.
pub open spec fn raw_churn(c: ChurnView) -> int {
    c.commit_count + c.lines_changed
}

/// What a sequence of churn entries stands for.
pub open spec fn churn_view(v: Seq<FileChurn>) -> Seq<ChurnView> {
    Seq::new(v.len(), |i: int| v[i]@)
}

/// The changes of each file, one entry per file.
pub struct ChurnLedger {
    entries: Vec<FileChurn>,
}

impl View for ChurnLedger {
    type V = Seq<ChurnView>;

    closed spec fn view(&self) -> Seq<ChurnView> {
        churn_view(self.entries@)
    }
}

/// Whether no file has two entries and every sum fits in 32 bits.
pub open spec fn is_ledger(s: Seq<ChurnView>) -> bool {
    &&& forall|i: int, j: int|
        0 <= i < j < s.len() ==> (#[trigger] s[i]).file_path != (#[trigger] s[j]).file_path
    &&& forall|i: int| 0 <= i < s.len() ==> raw_churn(#[trigger] s[i]) <= u32::MAX
}

/// The position of a file's entry at or after `i`.
pub open spec fn entry_from(s: Seq<ChurnView>, file: Seq<char>, i: int) -> Option<int>
    decreases s.len() - i,
{
    if i < 0 || i >= s.len() {
        None
    } else if s[i].file_path == file {
        Some(i)
    } else {
        entry_from(s, file, i + 1)
    }
}

/// The ledger after one more change of a file: a new entry at the end, or its entry with one
/// more commit and more lines.
pub open spec fn recorded(s: Seq<ChurnView>, file: Seq<char>, changed: u32) -> Seq<ChurnView> {
    match entry_from(s, file, 0) {
        Some(i) => s.update(
            i,
            ChurnView {
                file_path: file,
                commit_count: (s[i].commit_count + 1) as u32,
                lines_changed: (s[i].lines_changed + changed) as u32,
            },
        ),
        None => s.push(ChurnView { file_path: file, commit_count: 1, lines_changed: changed }),
    }
}

/// Whether one more change of a file still fits in 32 bits.
pub open spec fn has_room(s: Seq<ChurnView>, file: Seq<char>, changed: u32) -> bool {
    match entry_from(s, file, 0) {
        Some(i) => raw_churn(s[i]) + 1 + changed <= u32::MAX,
        None => 1 + changed <= u32::MAX,
    }
}

/// The largest churn of the first `n` entries, or one where there are none.
pub open spec fn top_churn(s: Seq<ChurnView>, n: int) -> int
    decreases n,
{
    if n <= 0 {
        1
    } else if n == 1 {
        raw_churn(s[0])
    } else if raw_churn(s[n - 1]) > top_churn(s, n - 1) {
        raw_churn(s[n - 1])
    } else {
        top_churn(s, n - 1)
    }
}

proof fn lemma_entry(s: Seq<ChurnView>, file: Seq<char>, i: int)
    requires
        0 <= i,
    ensures
        match entry_from(s, file, i) {
            Some(k) => i <= k < s.len() && s[k].file_path == file,
            None => forall|j: int| i <= j < s.len() ==> (#[trigger] s[j]).file_path != file,
        },
    decreases s.len() - i,
{
    if i < s.len() && s[i].file_path != file {
        lemma_entry(s, file, i + 1);
    }
}

/// Whether each entry has at least the churn of all that follow it.
pub open spec fn falling(s: Seq<ChurnView>) -> bool {
    forall|i: int, j: int|
        0 <= i < j < s.len() ==> raw_churn(#[trigger] s[i]) >= raw_churn(#[trigger] s[j])
}

impl ChurnLedger {
    /// An empty ledger.
    pub fn new() -> (r: ChurnLedger)
        ensures
            r@ == Seq::<ChurnView>::empty(),
            is_ledger(r@),
    {
        let r = ChurnLedger { entries: Vec::new() };
        proof {
            assert(r@ =~= Seq::<ChurnView>::empty());
        }
        r
    }

    fn position(&self, file: &str) -> (r: Option<usize>)
        ensures
            match r {
                Some(i) => i < self@.len() && entry_from(self@, file@, 0) == Some(i as int),
                None => entry_from(self@, file@, 0) is None,
            },
    {
        let ghost s = self@;
        let mut i: usize = 0;
        while i < self.entries.len()
            invariant
                s == churn_view(self.entries@),
                i <= self.entries@.len(),
                entry_from(s, file@, 0) == entry_from(s, file@, i as int),
            decreases self.entries@.len() - i,
        {
            proof {
                assert(s[i as int] == self.entries@[i as int]@);
            }
            if same(self.entries[i].file_path.as_str(), file) {
                return Some(i);
            }
            i = i + 1;
        }
        None
    }

    /// Whether one more change of a file still fits in 32 bits.
    pub fn fits(&self, file: &str, changed: u32) -> (r: bool)
        requires
            is_ledger(self@),
        ensures
            r == has_room(self@, file@, changed),
    {
        match self.position(file) {
            Some(i) => {
                proof {
                    assert(self@[i as int] == self.entries@[i as int]@);
                    assert(raw_churn(self@[i as int]) <= u32::MAX);
                }
                let sum: u64 = self.entries[i].commit_count as u64
                    + self.entries[i].lines_changed as u64 + 1 + changed as u64;
                sum <= u32::MAX as u64
            },
            None => changed < u32::MAX,
        }
    }

    /// Records one more change of a file.
    pub fn record(&mut self, file: &str, changed: u32)
        requires
            is_ledger(old(self)@),
            has_room(old(self)@, file@, changed),
        ensures
            final(self)@ == recorded(old(self)@, file@, changed),
            is_ledger(final(self)@),
    {
        let ghost s = self@;
        proof {
            lemma_entry(s, file@, 0);
        }
        match self.position(file) {
            Some(i) => {
                proof {
                    assert(s[i as int] == self.entries@[i as int]@);
                }
                let entry = FileChurn {
                    file_path: own(file),
                    commit_count: self.entries[i].commit_count + 1,
                    lines_changed: self.entries[i].lines_changed + changed,
                };
                self.entries.set(i, entry);
            },
            None => {
                self.entries.push(
                    FileChurn { file_path: own(file), commit_count: 1, lines_changed: changed },
                );
            },
        }
        proof {
            assert(self@ =~= recorded(s, file@, changed));
        }
    }

    /// The largest churn of any file, or one where there is none.
    pub fn max_raw(&self) -> (r: u32)
        requires
            is_ledger(self@),
        ensures
            r == top_churn(self@, self@.len() as int),
    {
        let ghost s = self@;
        let n: usize = self.entries.len();
        if n == 0 {
            return 1;
        }
        proof {
            assert(s[0] == self.entries@[0]@);
            assert(raw_churn(s[0]) <= u32::MAX);
        }
        let mut top: u32 = self.entries[0].commit_count + self.entries[0].lines_changed;
        let mut i: usize = 1;
        while i < n
            invariant
                s == churn_view(self.entries@),
                is_ledger(s),
                n == s.len(),
                1 <= i <= n,
                top == top_churn(s, i as int),
            decreases n - i,
        {
            proof {
                assert(s[i as int] == self.entries@[i as int]@);
                assert(raw_churn(s[i as int]) <= u32::MAX);
            }
            let raw: u32 = self.entries[i].commit_count + self.entries[i].lines_changed;
            if raw > top {
                top = raw;
            }
            i = i + 1;
        }
        top
    }

    /// The entries from the file that changed most to the one that changed least.
    pub fn ranked(&self) -> (r: Vec<FileChurn>)
        requires
            is_ledger(self@),
        ensures
            falling(churn_view(r@)),
            churn_view(r@).to_multiset() == self@.to_multiset(),
    {
        let ghost s = self@;
        let mut out: Vec<FileChurn> = Vec::new();
        let mut i: usize = 0;
        proof {
            assert(s.take(0) =~= Seq::<ChurnView>::empty());
            assert(churn_view(out@) =~= Seq::<ChurnView>::empty());
        }
        while i < self.entries.len()
            invariant
                s == churn_view(self.entries@),
                is_ledger(s),
                i <= self.entries@.len(),
                falling(churn_view(out@)),
                churn_view(out@).to_multiset() == s.take(i as int).to_multiset(),
                churn_view(out@).len() == i,
                forall|j: int|
                    0 <= j < out@.len() ==> raw_churn(#[trigger] churn_view(out@)[j]) <= u32::MAX,
            decreases self.entries@.len() - i,
        {
            let e = &self.entries[i];
            let ghost x = s[i as int];
            let ghost before = churn_view(out@);
            proof {
                assert(x == e@);
                assert(raw_churn(x) <= u32::MAX);
            }
            let raw: u32 = e.commit_count + e.lines_changed;
            let mut at: usize = 0;
            while at < out.len() && out[at].commit_count as u64 + out[at].lines_changed as u64
                >= raw as u64
                invariant
                    before == churn_view(out@),
                    at <= out@.len(),
                    raw == raw_churn(x),
                    forall|j: int| 0 <= j < at ==> raw_churn(#[trigger] before[j]) >= raw,
                decreases out@.len() - at,
            {
                proof {
                    assert(before[at as int] == out@[at as int]@);
                }
                at = at + 1;
            }
            proof {
                if at < out@.len() {
                    assert(before[at as int] == out@[at as int]@);
                }
            }
            out.insert(
                at,
                FileChurn {
                    file_path: own(e.file_path.as_str()),
                    commit_count: e.commit_count,
                    lines_changed: e.lines_changed,
                },
            );
            proof {
                let after = churn_view(out@);
                assert(after =~= before.insert(at as int, x));
                vstd::seq_lib::to_multiset_insert(before, at as int, x);
                assert(s.take(i + 1) =~= s.take(i as int).push(x));
                vstd::seq_lib::to_multiset_build(s.take(i as int), x);
                assert forall|p: int, q: int| 0 <= p < q < after.len() implies raw_churn(
                    #[trigger] after[p],
                ) >= raw_churn(#[trigger] after[q]) by {
                    if q < at {
                        assert(after[p] == before[p] && after[q] == before[q]);
                    } else if p < at && q == at {
                        assert(after[p] == before[p]);
                    } else if p < at {
                        assert(after[p] == before[p] && after[q] == before[q - 1]);
                    } else if p == at {
                        assert(after[q] == before[q - 1]);
                        assert(raw_churn(before[at as int]) >= raw_churn(before[q - 1]));
                    } else {
                        assert(after[p] == before[p - 1] && after[q] == before[q - 1]);
                    }
                }
                assert forall|j: int| 0 <= j < after.len() implies raw_churn(#[trigger] after[j])
                    <= u32::MAX by {
                    if j < at {
                        assert(after[j] == before[j]);
                    } else if j > at {
                        assert(after[j] == before[j - 1]);
                    }
                }
            }
            i = i + 1;
        }
        proof {
            assert(s.take(s.len() as int) =~= s);
        }
        out
    }
}

} // verus!
