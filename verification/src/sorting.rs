//! Stable sorting and sorted sets.
use crate::text::chars;
use crate::text::chars::own;
use crate::text::order;
use crate::text::order::text_before;
use vstd::prelude::*;

verus! {

broadcast use chars::lemma_texts_push, chars::lemma_texts_empty;

/// Values with a relation on what they stand for that is a strict order on the proper ones.
pub trait Ranked: View + Sized {
    /// Whether a value takes part in the order.
    spec fn proper(a: Self::V) -> bool;

    /// Whether `a` comes before `b`.
    spec fn less(a: Self::V, b: Self::V) -> bool;

    /// Tests whether this value comes before another.
    fn before(&self, other: &Self) -> (r: bool)
        ensures
            r == Self::less(self@, other@),
    ;

    /// What comes before a value comes before all that do not come before that value.
    proof fn around(a: Self::V, b: Self::V, c: Self::V)
        requires
            Self::proper(a),
            Self::proper(b),
            Self::proper(c),
            Self::less(a, b),
            !Self::less(c, b),
        ensures
            !Self::less(c, a),
    ;

    /// Nothing comes before itself.
    proof fn irreflexive(a: Self::V)
        ensures
            !Self::less(a, a),
    ;
}

/// What a sequence of values stands for.
pub open spec fn views<T: View>(v: Seq<T>) -> Seq<T::V> {
    Seq::new(v.len(), |i: int| v[i]@)
}

/// The first position at or after `i` that holds something that `x` comes before.
pub open spec fn slot<T: Ranked>(s: Seq<T::V>, x: T::V, i: int) -> int
    decreases s.len() - i,
{
    if 0 <= i < s.len() && !T::less(x, s[i]) {
        slot::<T>(s, x, i + 1)
    } else {
        i
    }
}

/// The values in their order; values that neither come before the other keep their places.
pub open spec fn sorted<T: Ranked>(s: Seq<T::V>) -> Seq<T::V>
    decreases s.len(),
{
    if s.len() == 0 {
        Seq::<T::V>::empty()
    } else {
        let front = sorted::<T>(s.drop_last());
        front.insert(slot::<T>(front, s.last(), 0), s.last())
    }
}

/// Whether nothing comes before what it follows.
pub open spec fn in_rank<T: Ranked>(s: Seq<T::V>) -> bool {
    forall|i: int, j: int| 0 <= i < j < s.len() ==> !T::less(#[trigger] s[j], #[trigger] s[i])
}

proof fn lemma_slot<T: Ranked>(s: Seq<T::V>, x: T::V, i: int)
    requires
        0 <= i <= s.len(),
    ensures
        i <= slot::<T>(s, x, i) <= s.len(),
        forall|j: int| i <= j < slot::<T>(s, x, i) ==> !T::less(x, #[trigger] s[j]),
        slot::<T>(s, x, i) < s.len() ==> T::less(x, s[slot::<T>(s, x, i)]),
    decreases s.len() - i,
{
    if i < s.len() && !T::less(x, s[i]) {
        lemma_slot::<T>(s, x, i + 1);
    }
}

/// Whether all values take part in the order.
pub open spec fn all_proper<T: Ranked>(s: Seq<T::V>) -> bool {
    forall|i: int| 0 <= i < s.len() ==> T::proper(#[trigger] s[i])
}

/// Sorting keeps every value as often as it was given.
pub proof fn law_sorting_keeps<T: Ranked>(s: Seq<T::V>)
    ensures
        sorted::<T>(s).to_multiset() == s.to_multiset(),
        sorted::<T>(s).len() == s.len(),
    decreases s.len(),
{
    if s.len() == 0 {
        assert(sorted::<T>(s) =~= s);
    } else {
        law_sorting_keeps::<T>(s.drop_last());
        let front = sorted::<T>(s.drop_last());
        let x = s.last();
        let at = slot::<T>(front, x, 0);
        lemma_slot::<T>(front, x, 0);
        vstd::seq_lib::to_multiset_insert(front, at, x);
        assert(s =~= s.drop_last().push(x));
        vstd::seq_lib::to_multiset_build(s.drop_last(), x);
    }
}

/// Sorting puts no value after one that it comes before, where all take part in the order.
pub proof fn law_sorted<T: Ranked>(s: Seq<T::V>)
    requires
        all_proper::<T>(s),
    ensures
        in_rank::<T>(sorted::<T>(s)),
        all_proper::<T>(sorted::<T>(s)),
        sorted::<T>(s).to_multiset() == s.to_multiset(),
        sorted::<T>(s).len() == s.len(),
    decreases s.len(),
{
    law_sorting_keeps::<T>(s);
    if s.len() > 0 {
        law_sorted::<T>(s.drop_last());
        let front = sorted::<T>(s.drop_last());
        let x = s.last();
        assert(T::proper(s[s.len() - 1]));
        let at = slot::<T>(front, x, 0);
        lemma_slot::<T>(front, x, 0);
        let all = front.insert(at, x);
        assert forall|i: int| 0 <= i < all.len() implies T::proper(#[trigger] all[i]) by {
            if i < at {
                assert(all[i] == front[i]);
            } else if i > at {
                assert(all[i] == front[i - 1]);
            }
        }
        assert forall|i: int, j: int| 0 <= i < j < all.len() implies !T::less(
            #[trigger] all[j],
            #[trigger] all[i],
        ) by {
            if j < at {
                assert(all[i] == front[i] && all[j] == front[j]);
            } else if i < at && j == at {
                assert(all[i] == front[i]);
            } else if i < at {
                assert(all[i] == front[i] && all[j] == front[j - 1]);
            } else if i == at {
                assert(all[j] == front[j - 1]);
                if j - 1 == at {
                    T::irreflexive(front[at]);
                }
                T::around(x, front[at], front[j - 1]);
            } else {
                assert(all[i] == front[i - 1] && all[j] == front[j - 1]);
            }
        }
    }
}

/// Puts a value into a sorted list, after all that it does not come before.
fn place<T: Ranked>(out: &mut Vec<T>, x: T)
    ensures
        views(final(out)@) == views(old(out)@).insert(slot::<T>(views(old(out)@), x@, 0), x@),
{
    let ghost s = views(out@);
    let ghost xv = x@;
    let mut at: usize = 0;
    while at < out.len() && !x.before(&out[at])
        invariant
            s == views(out@),
            xv == x@,
            at <= out@.len(),
            slot::<T>(s, xv, 0) == slot::<T>(s, xv, at as int),
        decreases out@.len() - at,
    {
        at = at + 1;
    }
    proof {
        if at < out@.len() {
            assert(s[at as int] == out@[at as int]@);
        }
        assert(slot::<T>(s, xv, at as int) == at);
    }
    out.insert(at, x);
    proof {
        assert(views(out@) =~= s.insert(at as int, xv));
    }
}

/// Sorts values; values that neither come before the other keep their places.
pub fn sort_stable<T: Ranked>(v: Vec<T>) -> (r: Vec<T>)
    ensures
        views(r@) == sorted::<T>(views(v@)),
{
    let ghost all = views(v@);
    let ghost given = v@;
    let mut rest = v;
    let mut reversed: Vec<T> = Vec::new();
    while rest.len() > 0
        invariant
            rest@.len() + reversed@.len() == given.len(),
            forall|i: int| 0 <= i < rest@.len() ==> rest@[i] == given[i],
            forall|i: int|
                0 <= i < reversed@.len() ==> reversed@[i] == given[given.len() - 1 - i],
        decreases rest@.len(),
    {
        match rest.pop() {
            Some(x) => {
                reversed.push(x);
            },
            None => {},
        }
    }
    let mut out: Vec<T> = Vec::new();
    proof {
        assert(views(out@) =~= Seq::<T::V>::empty());
        assert(all.take(0) =~= Seq::<T::V>::empty());
    }
    while reversed.len() > 0
        invariant
            all == views(given),
            out@.len() + reversed@.len() == given.len(),
            forall|i: int|
                0 <= i < reversed@.len() ==> reversed@[i] == given[given.len() - 1 - i],
            views(out@) == sorted::<T>(all.take(out@.len() as int)),
        decreases reversed@.len(),
    {
        let ghost k = out@.len() as int;
        match reversed.pop() {
            Some(x) => {
                proof {
                    assert(x == given[k]);
                    assert(all.take(k + 1).drop_last() =~= all.take(k));
                    assert(all.take(k + 1).last() == x@);
                    law_sorting_keeps::<T>(all.take(k));
                    lemma_slot::<T>(views(out@), x@, 0);
                }
                let ghost before = views(out@);
                place(&mut out, x);
                proof {
                    assert(views(out@).len() == before.len() + 1);
                    assert(views(out@).len() == out@.len());
                }
            },
            None => {},
        }
    }
    proof {
        assert(all.take(all.len() as int) =~= all);
    }
    out
}

impl Ranked for String {
    open spec fn proper(a: Seq<char>) -> bool {
        true
    }

    open spec fn less(a: Seq<char>, b: Seq<char>) -> bool {
        order::text_less(a, b)
    }

    fn before(&self, other: &String) -> (r: bool) {
        text_before(self.as_str(), other.as_str())
    }

    proof fn around(a: Seq<char>, b: Seq<char>, c: Seq<char>) {
        if order::text_less(c, a) {
            order::lemma_text_transitive(c, a, b);
        }
    }

    proof fn irreflexive(a: Seq<char>) {
        order::lemma_text_irreflexive(a);
    }
}

/// The texts in their order, repetitions included.
pub open spec fn sorted_texts(s: Seq<Seq<char>>) -> Seq<Seq<char>> {
    sorted::<String>(s)
}

/// Sorts texts.
pub fn sort_texts(v: Vec<String>) -> (r: Vec<String>)
    ensures
        chars::texts(r@) == sorted_texts(chars::texts(v@)),
{
    proof {
        assert(chars::texts(v@) =~= views(v@));
    }
    let r = sort_stable(v);
    proof {
        assert(chars::texts(r@) =~= views(r@));
    }
    r
}

/// The values without those that equal the one before them.
pub open spec fn without_repeats(s: Seq<Seq<char>>) -> Seq<Seq<char>>
    decreases s.len(),
{
    if s.len() <= 1 {
        s
    } else {
        let front = without_repeats(s.drop_last());
        if s[s.len() - 2] == s.last() {
            front
        } else {
            front.push(s.last())
        }
    }
}

/// The different texts in their order.
pub open spec fn distinct_texts(s: Seq<Seq<char>>) -> Seq<Seq<char>> {
    without_repeats(sorted_texts(s))
}

/// Drops each text that equals the one before it.
fn drop_repeats(v: &[String]) -> (r: Vec<String>)
    ensures
        chars::texts(r@) == without_repeats(chars::texts(v@)),
{
    let ghost all = chars::texts(v@);
    let mut out: Vec<String> = Vec::new();
    if v.len() == 0 {
        proof {
            assert(chars::texts(out@) =~= all);
        }
        return out;
    }
    out.push(own(v[0].as_str()));
    let mut i: usize = 1;
    proof {
        assert(chars::texts(out@) =~= all.take(1));
    }
    while i < v.len()
        invariant
            all == chars::texts(v@),
            1 <= i <= v@.len(),
            chars::texts(out@) == without_repeats(all.take(i as int)),
        decreases v@.len() - i,
    {
        proof {
            let t = all.take(i + 1);
            assert(t.drop_last() =~= all.take(i as int));
            assert(t.last() == v@[i as int]@);
            assert(t[t.len() - 2] == v@[i - 1]@);
        }
        if !chars::same(v[i - 1].as_str(), v[i].as_str()) {
            out.push(own(v[i].as_str()));
        }
        i = i + 1;
    }
    proof {
        assert(all.take(all.len() as int) =~= all);
    }
    out
}

/// Sorts texts and drops repetitions.
pub fn sort_distinct(v: Vec<String>) -> (r: Vec<String>)
    ensures
        chars::texts(r@) == distinct_texts(chars::texts(v@)),
{
    let ordered = sort_texts(v);
    drop_repeats(ordered.as_slice())
}

/// Whether each text comes before all that follow it.
pub open spec fn ascending_texts(s: Seq<Seq<char>>) -> bool {
    forall|i: int, j: int|
        0 <= i < j < s.len() ==> order::text_less(#[trigger] s[i], #[trigger] s[j])
}

proof fn lemma_repeats(s: Seq<Seq<char>>)
    requires
        in_rank::<String>(s),
    ensures
        ascending_texts(without_repeats(s)),
        s.len() > 0 ==> without_repeats(s).len() > 0 && without_repeats(s).last() == s.last(),
        forall|x: Seq<char>| #[trigger] without_repeats(s).contains(x) <==> s.contains(x),
    decreases s.len(),
{
    if s.len() > 1 {
        let front = s.drop_last();
        assert forall|i: int, j: int| 0 <= i < j < front.len() implies !<String as Ranked>::less(
            #[trigger] front[j],
            #[trigger] front[i],
        ) by {
            assert(front[i] == s[i] && front[j] == s[j]);
        }
        lemma_repeats(front);
        let w = without_repeats(front);
        let x = s.last();
        assert(front.last() == s[s.len() - 2]);
        assert forall|y: Seq<char>| #[trigger] s.contains(y) <==> (front.contains(y) || y
            == x) by {
            if s.contains(y) {
                let k = choose|k: int| 0 <= k < s.len() && s[k] == y;
                if k < front.len() {
                    assert(front[k] == y);
                }
            }
            if front.contains(y) {
                let k = choose|k: int| 0 <= k < front.len() && front[k] == y;
                assert(s[k] == y);
            }
            if y == x {
                assert(s[s.len() - 1] == y);
            }
        }
        if front.last() == x {
            assert(front[front.len() - 1] == x);
            assert(front.contains(x));
        } else {
            assert(!<String as Ranked>::less(s[s.len() - 1], s[s.len() - 2]));
            order::lemma_text_total(front.last(), x);
            assert(order::text_less(w.last(), x));
            let all = w.push(x);
            assert forall|i: int, j: int| 0 <= i < j < all.len() implies order::text_less(
                #[trigger] all[i],
                #[trigger] all[j],
            ) by {
                if j < w.len() {
                    assert(all[i] == w[i] && all[j] == w[j]);
                } else if i < w.len() - 1 {
                    assert(all[i] == w[i]);
                    assert(order::text_less(w[i], w[w.len() - 1]));
                    order::lemma_text_transitive(w[i], w.last(), x);
                } else {
                    assert(all[i] == w.last());
                }
            }
            assert forall|y: Seq<char>| #[trigger] all.contains(y) <==> s.contains(y) by {
                if all.contains(y) {
                    let k = choose|k: int| 0 <= k < all.len() && all[k] == y;
                    if k < w.len() {
                        assert(w[k] == y);
                        assert(w.contains(y));
                    }
                }
                if w.contains(y) {
                    let k = choose|k: int| 0 <= k < w.len() && w[k] == y;
                    assert(all[k] == y);
                }
                assert(all[w.len() as int] == x);
                assert(w.contains(y) <==> front.contains(y));
            }
        }
    }
}

/// The different texts are in ascending order, and they are the texts that were given.
pub proof fn law_distinct_texts(s: Seq<Seq<char>>)
    ensures
        ascending_texts(distinct_texts(s)),
        forall|x: Seq<char>| #[trigger] distinct_texts(s).contains(x) <==> s.contains(x),
{
    law_sorted::<String>(s);
    let t = sorted_texts(s);
    lemma_repeats(t);
    assert forall|x: Seq<char>| #[trigger] distinct_texts(s).contains(x) <==> s.contains(x) by {
        vstd::seq_lib::to_multiset_contains(s, x);
        vstd::seq_lib::to_multiset_contains(t, x);
    }
}

} // verus!
