//! Searching, prefixes and suffixes, trimming and replacing.
use crate::text::chars::{from_chars, from_range, is_space_char, to_chars};
use vstd::prelude::*;

verus! {

/// Whether `p` stands in `s` at position `i`.
pub open spec fn occurs_at(s: Seq<char>, p: Seq<char>, i: int) -> bool {
    0 <= i && i + p.len() <= s.len() && s.subrange(i, i + p.len()) == p
}

/// Whether `p` stands anywhere in `s`.
pub open spec fn has_text(s: Seq<char>, p: Seq<char>) -> bool {
    exists|i: int| occurs_at(s, p, i)
}

/// The first position at or after `from` where `p` stands in `s`.
pub open spec fn find_from(s: Seq<char>, p: Seq<char>, from: int) -> Option<int>
    decreases s.len() - from + 1,
{
    if from < 0 || from + p.len() > s.len() {
        None
    } else if occurs_at(s, p, from) {
        Some(from)
    } else {
        find_from(s, p, from + 1)
    }
}

/// The last position at or before `at` where `p` stands in `s`.
pub open spec fn find_last_to(s: Seq<char>, p: Seq<char>, at: int) -> Option<int>
    decreases at + 1,
{
    if at < 0 {
        None
    } else if occurs_at(s, p, at) {
        Some(at)
    } else {
        find_last_to(s, p, at - 1)
    }
}

/// Whether `s` begins with `p`.
pub open spec fn has_prefix(s: Seq<char>, p: Seq<char>) -> bool {
    p.len() <= s.len() && s.subrange(0, p.len() as int) == p
}

/// Whether `s` ends with `p`.
pub open spec fn has_suffix(s: Seq<char>, p: Seq<char>) -> bool {
    p.len() <= s.len() && s.subrange(s.len() - p.len(), s.len() as int) == p
}

/// The first position at or after `from` that holds `c`.
pub open spec fn index_from(s: Seq<char>, c: char, from: int) -> Option<int>
    decreases s.len() - from,
{
    if from < 0 || from >= s.len() {
        None
    } else if s[from] == c {
        Some(from)
    } else {
        index_from(s, c, from + 1)
    }
}

/// The last position before `before` that holds `c`.
pub open spec fn last_index_before(s: Seq<char>, c: char, before: int) -> Option<int>
    decreases before,
{
    if before <= 0 || before > s.len() {
        None
    } else if s[before - 1] == c {
        Some(before - 1)
    } else {
        last_index_before(s, c, before - 1)
    }
}

/// `s` without its leading white space.
pub open spec fn skip_space(s: Seq<char>) -> Seq<char>
    decreases s.len(),
{
    if s.len() > 0 && crate::text::chars::is_space(s[0]) {
        skip_space(s.subrange(1, s.len() as int))
    } else {
        s
    }
}

/// `s` without its trailing white space.
pub open spec fn drop_space(s: Seq<char>) -> Seq<char>
    decreases s.len(),
{
    if s.len() > 0 && crate::text::chars::is_space(s.last()) {
        drop_space(s.drop_last())
    } else {
        s
    }
}

/// `s` without white space at either end.
pub open spec fn trimmed(s: Seq<char>) -> Seq<char> {
    drop_space(skip_space(s))
}

/// `s` without the run of characters of `set` at its start.
pub open spec fn skip_any(s: Seq<char>, set: Seq<char>) -> Seq<char>
    decreases s.len(),
{
    if s.len() > 0 && set.contains(s[0]) {
        skip_any(s.subrange(1, s.len() as int), set)
    } else {
        s
    }
}

/// `s` without the run of characters of `set` at its end.
pub open spec fn drop_any(s: Seq<char>, set: Seq<char>) -> Seq<char>
    decreases s.len(),
{
    if s.len() > 0 && set.contains(s.last()) {
        drop_any(s.drop_last(), set)
    } else {
        s
    }
}

/// `s` without the characters of `set` at either end.
pub open spec fn trimmed_of(s: Seq<char>, set: Seq<char>) -> Seq<char> {
    drop_any(skip_any(s, set), set)
}

/// `s` from position `from` on, with each occurrence of `p` replaced by `by`, the
/// leftmost first and without overlap.
pub open spec fn replaced_from(s: Seq<char>, p: Seq<char>, by: Seq<char>, from: int) -> Seq<char>
    decreases s.len() - from,
{
    if from < 0 || from >= s.len() || p.len() == 0 {
        if 0 <= from <= s.len() {
            s.subrange(from, s.len() as int)
        } else {
            Seq::<char>::empty()
        }
    } else if occurs_at(s, p, from) {
        by + replaced_from(s, p, by, from + p.len())
    } else {
        seq![s[from]] + replaced_from(s, p, by, from + 1)
    }
}

/// What `find_from` gives is the first occurrence, and it gives one when there is one.
pub proof fn lemma_find_from(s: Seq<char>, p: Seq<char>, from: int)
    requires
        0 <= from,
    ensures
        match find_from(s, p, from) {
            Some(i) => from <= i && occurs_at(s, p, i) && forall|j: int|
                from <= j < i ==> !occurs_at(s, p, j),
            None => forall|j: int| from <= j ==> !occurs_at(s, p, j),
        },
    decreases s.len() - from + 1,
{
    if from + p.len() > s.len() {
    } else if occurs_at(s, p, from) {
    } else {
        lemma_find_from(s, p, from + 1);
    }
}

/// A text contains a piece exactly when a search from its start finds it.
pub proof fn lemma_has_text(s: Seq<char>, p: Seq<char>)
    ensures
        has_text(s, p) == (find_from(s, p, 0) is Some),
{
    lemma_find_from(s, p, 0);
}

/// What `index_from` gives is the first position of the character.
pub proof fn lemma_index_from(s: Seq<char>, c: char, from: int)
    requires
        0 <= from,
    ensures
        match index_from(s, c, from) {
            Some(i) => from <= i < s.len() && s[i] == c && forall|j: int|
                from <= j < i ==> s[j] != c,
            None => forall|j: int| from <= j < s.len() ==> s[j] != c,
        },
    decreases s.len() - from,
{
    if from >= s.len() {
    } else if s[from] == c {
    } else {
        lemma_index_from(s, c, from + 1);
    }
}

/// Whether `p` stands in `s` at position `i`.
pub fn occurs_at_chars(s: &[char], p: &[char], i: usize) -> (r: bool)
    ensures
        r == occurs_at(s@, p@, i as int),
{
    let n: usize = s.len();
    if i > n || p.len() > n - i {
        return false;
    }
    let mut j: usize = 0;
    while j < p.len()
        invariant
            j <= p@.len(),
            n == s@.len(),
            i + p@.len() <= n,
            forall|k: int| 0 <= k < j ==> s@[i + k] == p@[k],
        decreases p@.len() - j,
    {
        if s[i + j] != p[j] {
            proof {
                assert(s@.subrange(i as int, i + p@.len())[j as int] == s@[i + j]);
            }
            return false;
        }
        j = j + 1;
    }
    proof {
        assert(s@.subrange(i as int, i + p@.len()) =~= p@);
    }
    true
}

/// The first position at or after `from` where `p` stands in `s`.
pub fn find_chars(s: &[char], p: &[char], from: usize) -> (r: Option<usize>)
    ensures
        match r {
            Some(i) => find_from(s@, p@, from as int) == Some(i as int),
            None => find_from(s@, p@, from as int) is None,
        },
{
    if from > s.len() || p.len() > s.len() - from {
        return None;
    }
    let mut i: usize = from;
    while i <= s.len() - p.len()
        invariant
            from <= i <= s@.len() - p@.len() + 1,
            p@.len() <= s@.len(),
            find_from(s@, p@, from as int) == find_from(s@, p@, i as int),
        decreases s@.len() - i + 1,
    {
        if occurs_at_chars(s, p, i) {
            return Some(i);
        }
        if i == s.len() - p.len() {
            proof {
                assert(find_from(s@, p@, i + 1) is None);
            }
            return None;
        }
        i = i + 1;
    }
    None
}

/// The last position where `p` stands in `s`.
pub fn find_last_chars(s: &[char], p: &[char]) -> (r: Option<usize>)
    ensures
        match r {
            Some(i) => find_last_to(s@, p@, s@.len() - p@.len()) == Some(i as int) && occurs_at(
                s@,
                p@,
                i as int,
            ),
            None => find_last_to(s@, p@, s@.len() - p@.len()) is None,
        },
{
    if p.len() > s.len() {
        return None;
    }
    let mut i: usize = s.len() - p.len();
    loop
        invariant
            p@.len() <= s@.len(),
            i <= s@.len() - p@.len(),
            find_last_to(s@, p@, s@.len() - p@.len()) == find_last_to(s@, p@, i as int),
        decreases i,
    {
        if occurs_at_chars(s, p, i) {
            return Some(i);
        }
        if i == 0 {
            proof {
                assert(find_last_to(s@, p@, -1) is None);
            }
            return None;
        }
        i = i - 1;
    }
}

/// The first character position where `p` stands in `s`.
pub fn find_text(s: &str, p: &str) -> (r: Option<usize>)
    ensures
        match r {
            Some(i) => find_from(s@, p@, 0) == Some(i as int),
            None => find_from(s@, p@, 0) is None,
        },
{
    let x = to_chars(s);
    let y = to_chars(p);
    find_chars(x.as_slice(), y.as_slice(), 0)
}

/// Whether `p` stands anywhere in `s`.
pub fn contains(s: &str, p: &str) -> (r: bool)
    ensures
        r == has_text(s@, p@),
{
    proof {
        lemma_has_text(s@, p@);
    }
    find_text(s, p).is_some()
}

/// Whether the character stands anywhere in `s`.
pub fn contains_char(s: &str, c: char) -> (r: bool)
    ensures
        r == s@.contains(c),
{
    let x = to_chars(s);
    let mut i: usize = 0;
    while i < x.len()
        invariant
            x@ == s@,
            i <= x@.len(),
            forall|j: int| 0 <= j < i ==> x@[j] != c,
        decreases x@.len() - i,
    {
        if x[i] == c {
            proof {
                assert(s@[i as int] == c);
            }
            return true;
        }
        i = i + 1;
    }
    false
}

/// Whether `s` begins with `p`.
pub fn starts_with(s: &str, p: &str) -> (r: bool)
    ensures
        r == has_prefix(s@, p@),
{
    let x = to_chars(s);
    let y = to_chars(p);
    occurs_at_chars(x.as_slice(), y.as_slice(), 0)
}

/// Whether `s` ends with `p`.
pub fn ends_with(s: &str, p: &str) -> (r: bool)
    ensures
        r == has_suffix(s@, p@),
{
    let x = to_chars(s);
    let y = to_chars(p);
    if y.len() > x.len() {
        return false;
    }
    let at: usize = x.len() - y.len();
    occurs_at_chars(x.as_slice(), y.as_slice(), at)
}

/// Whether `s` begins with the character `c`.
pub open spec fn begins(s: Seq<char>, c: char) -> bool {
    s.len() > 0 && s[0] == c
}

/// Whether `s` begins with the character `c`.
pub fn starts_with_char(s: &str, c: char) -> (r: bool)
    ensures
        r == begins(s@, c),
{
    let x = to_chars(s);
    x.len() > 0 && x[0] == c
}

/// `s` without the repetitions of `p` at its start.
pub open spec fn without_prefixes(s: Seq<char>, p: Seq<char>) -> Seq<char>
    decreases s.len(),
{
    if p.len() > 0 && has_prefix(s, p) {
        without_prefixes(s.subrange(p.len() as int, s.len() as int), p)
    } else {
        s
    }
}

/// `s` without the repetitions of `p` at its end.
pub open spec fn without_suffixes(s: Seq<char>, p: Seq<char>) -> Seq<char>
    decreases s.len(),
{
    if p.len() > 0 && has_suffix(s, p) {
        without_suffixes(s.subrange(0, s.len() - p.len()), p)
    } else {
        s
    }
}

/// Removes the repetitions of `p` at the start.
pub fn trim_start_matches(s: &str, p: &str) -> (r: String)
    ensures
        r@ == without_prefixes(s@, p@),
{
    let x = to_chars(s);
    let y = to_chars(p);
    let n: usize = x.len();
    let mut i: usize = 0;
    proof {
        assert(s@.subrange(0, s@.len() as int) =~= s@);
    }
    while y.len() > 0 && occurs_at_chars(x.as_slice(), y.as_slice(), i)
        invariant
            x@ == s@,
            y@ == p@,
            n == s@.len(),
            i <= n,
            without_prefixes(s@, p@) == without_prefixes(s@.subrange(i as int, n as int), p@),
        decreases n - i,
    {
        proof {
            let t = s@.subrange(i as int, n as int);
            assert(t.subrange(0, p@.len() as int) =~= s@.subrange(i as int, i + p@.len()));
            assert(t.subrange(p@.len() as int, t.len() as int) =~= s@.subrange(
                i + p@.len(),
                n as int,
            ));
        }
        i = i + y.len();
    }
    proof {
        let t = s@.subrange(i as int, n as int);
        if p@.len() <= t.len() {
            assert(t.subrange(0, p@.len() as int) =~= s@.subrange(i as int, i + p@.len()));
        }
        assert(without_prefixes(t, p@) == t);
    }
    from_range(x.as_slice(), i, n)
}

/// Removes the repetitions of `p` at the end.
pub fn trim_end_matches(s: &str, p: &str) -> (r: String)
    ensures
        r@ == without_suffixes(s@, p@),
{
    let x = to_chars(s);
    let y = to_chars(p);
    let mut end: usize = x.len();
    proof {
        assert(s@.subrange(0, s@.len() as int) =~= s@);
    }
    while y.len() > 0 && end >= y.len() && occurs_at_chars(x.as_slice(), y.as_slice(), end - y.len())
        invariant
            x@ == s@,
            y@ == p@,
            end <= s@.len(),
            without_suffixes(s@, p@) == without_suffixes(s@.subrange(0, end as int), p@),
        decreases end,
    {
        proof {
            let t = s@.subrange(0, end as int);
            assert(t.subrange(t.len() - p@.len(), t.len() as int) =~= s@.subrange(
                end - p@.len(),
                end as int,
            ));
            assert(t.subrange(0, t.len() - p@.len()) =~= s@.subrange(0, end - p@.len()));
        }
        end = end - y.len();
    }
    proof {
        let t = s@.subrange(0, end as int);
        if p@.len() <= t.len() {
            assert(t.subrange(t.len() - p@.len(), t.len() as int) =~= s@.subrange(
                end - p@.len(),
                end as int,
            ));
        }
        assert(without_suffixes(t, p@) == t);
    }
    from_range(x.as_slice(), 0, end)
}

/// What follows the prefix `p` in `s`.
pub open spec fn after_prefix(s: Seq<char>, p: Seq<char>) -> Option<Seq<char>> {
    if has_prefix(s, p) {
        Some(s.subrange(p.len() as int, s.len() as int))
    } else {
        None
    }
}

/// What follows the prefix `p`, if `s` begins with it.
pub fn strip_prefix(s: &str, p: &str) -> (r: Option<String>)
    ensures
        crate::text::chars::opt_text(r) == after_prefix(s@, p@),
{
    let x = to_chars(s);
    let y = to_chars(p);
    if occurs_at_chars(x.as_slice(), y.as_slice(), 0) {
        Some(from_range(x.as_slice(), y.len(), x.len()))
    } else {
        None
    }
}

/// The first position at or after `from` that holds `c`.
pub fn index_chars(s: &[char], c: char, from: usize) -> (r: Option<usize>)
    ensures
        match r {
            Some(i) => index_from(s@, c, from as int) == Some(i as int) && i < s@.len(),
            None => index_from(s@, c, from as int) is None,
        },
{
    let mut i: usize = from;
    while i < s.len()
        invariant
            from <= i,
            index_from(s@, c, from as int) == index_from(s@, c, i as int),
        decreases s@.len() - i,
    {
        if s[i] == c {
            return Some(i);
        }
        i = i + 1;
    }
    None
}

/// The last position that holds `c`.
pub fn last_index_chars(s: &[char], c: char) -> (r: Option<usize>)
    ensures
        match r {
            Some(i) => last_index_before(s@, c, s@.len() as int) == Some(i as int) && i < s@.len(),
            None => last_index_before(s@, c, s@.len() as int) is None,
        },
{
    let mut i: usize = s.len();
    while i > 0
        invariant
            i <= s@.len(),
            last_index_before(s@, c, s@.len() as int) == last_index_before(s@, c, i as int),
        decreases i,
    {
        if s[i - 1] == c {
            return Some(i - 1);
        }
        i = i - 1;
    }
    None
}

/// Removes white space at the start.
pub fn trim_start(s: &str) -> (r: String)
    ensures
        r@ == skip_space(s@),
{
    let x = to_chars(s);
    let mut i: usize = 0;
    proof {
        assert(s@.subrange(0, s@.len() as int) =~= s@);
    }
    while i < x.len() && is_space_char(x[i])
        invariant
            x@ == s@,
            i <= x@.len(),
            skip_space(s@) == skip_space(s@.subrange(i as int, s@.len() as int)),
        decreases x@.len() - i,
    {
        proof {
            let t = s@.subrange(i as int, s@.len() as int);
            assert(t.subrange(1, t.len() as int) =~= s@.subrange(i + 1, s@.len() as int));
        }
        i = i + 1;
    }
    proof {
        let t = s@.subrange(i as int, s@.len() as int);
        assert(skip_space(t) == t);
    }
    from_range(x.as_slice(), i, x.len())
}

/// Removes white space at the end.
pub fn trim_end(s: &str) -> (r: String)
    ensures
        r@ == drop_space(s@),
{
    let x = to_chars(s);
    let mut i: usize = x.len();
    proof {
        assert(s@.subrange(0, s@.len() as int) =~= s@);
    }
    while i > 0 && is_space_char(x[i - 1])
        invariant
            x@ == s@,
            i <= x@.len(),
            drop_space(s@) == drop_space(s@.subrange(0, i as int)),
        decreases i,
    {
        proof {
            let t = s@.subrange(0, i as int);
            assert(t.drop_last() =~= s@.subrange(0, i - 1));
        }
        i = i - 1;
    }
    proof {
        let t = s@.subrange(0, i as int);
        assert(drop_space(t) == t);
    }
    from_range(x.as_slice(), 0, i)
}

/// Removes white space at both ends.
pub fn trim(s: &str) -> (r: String)
    ensures
        r@ == trimmed(s@),
{
    let head = trim_start(s);
    trim_end(head.as_str())
}

/// Whether the character is one of `set`.
fn is_one_of(c: char, set: &[char]) -> (r: bool)
    ensures
        r == set@.contains(c),
{
    let mut i: usize = 0;
    while i < set.len()
        invariant
            i <= set@.len(),
            forall|j: int| 0 <= j < i ==> set@[j] != c,
        decreases set@.len() - i,
    {
        if set[i] == c {
            return true;
        }
        i = i + 1;
    }
    false
}

/// Removes the characters of `set` at the start.
pub fn trim_start_of(s: &str, set: &str) -> (r: String)
    ensures
        r@ == skip_any(s@, set@),
{
    let x = to_chars(s);
    let y = to_chars(set);
    let mut i: usize = 0;
    proof {
        assert(s@.subrange(0, s@.len() as int) =~= s@);
    }
    while i < x.len() && is_one_of(x[i], y.as_slice())
        invariant
            x@ == s@,
            y@ == set@,
            i <= x@.len(),
            skip_any(s@, set@) == skip_any(s@.subrange(i as int, s@.len() as int), set@),
        decreases x@.len() - i,
    {
        proof {
            let t = s@.subrange(i as int, s@.len() as int);
            assert(t.subrange(1, t.len() as int) =~= s@.subrange(i + 1, s@.len() as int));
        }
        i = i + 1;
    }
    proof {
        let t = s@.subrange(i as int, s@.len() as int);
        assert(skip_any(t, set@) == t);
    }
    from_range(x.as_slice(), i, x.len())
}

/// Removes the characters of `set` at the end.
pub fn trim_end_of(s: &str, set: &str) -> (r: String)
    ensures
        r@ == drop_any(s@, set@),
{
    let x = to_chars(s);
    let y = to_chars(set);
    let mut i: usize = x.len();
    proof {
        assert(s@.subrange(0, s@.len() as int) =~= s@);
    }
    while i > 0 && is_one_of(x[i - 1], y.as_slice())
        invariant
            x@ == s@,
            y@ == set@,
            i <= x@.len(),
            drop_any(s@, set@) == drop_any(s@.subrange(0, i as int), set@),
        decreases i,
    {
        proof {
            let t = s@.subrange(0, i as int);
            assert(t.drop_last() =~= s@.subrange(0, i - 1));
        }
        i = i - 1;
    }
    proof {
        let t = s@.subrange(0, i as int);
        assert(drop_any(t, set@) == t);
    }
    from_range(x.as_slice(), 0, i)
}

/// Removes the characters of `set` at both ends.
pub fn trim_of(s: &str, set: &str) -> (r: String)
    ensures
        r@ == trimmed_of(s@, set@),
{
    let head = trim_start_of(s, set);
    trim_end_of(head.as_str(), set)
}

/// The text with each occurrence of `p` replaced by `by`; an empty `p` replaces nothing.
pub fn replace_all(s: &str, p: &str, by: &str) -> (r: String)
    ensures
        r@ == replaced_from(s@, p@, by@, 0),
{
    let x = to_chars(s);
    let y = to_chars(p);
    let z = to_chars(by);
    let mut out: Vec<char> = Vec::new();
    if y.len() == 0 {
        proof {
            assert(s@.subrange(0, s@.len() as int) =~= s@);
        }
        return from_chars(x.as_slice());
    }
    let mut i: usize = 0;
    while i < x.len()
        invariant
            x@ == s@,
            y@ == p@,
            z@ == by@,
            y@.len() > 0,
            i <= x@.len(),
            replaced_from(s@, p@, by@, 0) == out@ + replaced_from(s@, p@, by@, i as int),
        decreases x@.len() - i,
    {
        if occurs_at_chars(x.as_slice(), y.as_slice(), i) {
            let ghost before = out@;
            push_all(&mut out, z.as_slice());
            proof {
                assert(before + (by@ + replaced_from(s@, p@, by@, i + p@.len())) =~= out@
                    + replaced_from(s@, p@, by@, i + p@.len()));
            }
            i = i + y.len();
        } else {
            let ghost before = out@;
            out.push(x[i]);
            proof {
                assert(before + (seq![s@[i as int]] + replaced_from(s@, p@, by@, i + 1)) =~= out@
                    + replaced_from(s@, p@, by@, i + 1));
            }
            i = i + 1;
        }
    }
    proof {
        assert(replaced_from(s@, p@, by@, i as int) =~= Seq::<char>::empty());
        assert(out@ + Seq::<char>::empty() =~= out@);
    }
    from_chars(out.as_slice())
}

/// Appends all characters of `tail`.
pub fn push_all(out: &mut Vec<char>, tail: &[char])
    ensures
        final(out)@ == old(out)@ + tail@,
{
    let ghost start = out@;
    let mut i: usize = 0;
    while i < tail.len()
        invariant
            i <= tail@.len(),
            out@ == start + tail@.take(i as int),
        decreases tail@.len() - i,
    {
        proof {
            assert(start + tail@.take(i + 1) =~= (start + tail@.take(i as int)).push(
                tail@[i as int],
            ));
        }
        out.push(tail[i]);
        i = i + 1;
    }
    proof {
        assert(tail@.take(tail@.len() as int) =~= tail@);
    }
}

} // verus!
