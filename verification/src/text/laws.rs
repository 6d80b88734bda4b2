//! What holds of trimming, cutting, joining, ordering and numbers as texts.
use crate::sorting;
use crate::sorting::Ranked;
use crate::text::chars;
use crate::text::find;
use crate::text::number;
use crate::text::order;
use crate::text::pad;
use crate::text::split;
use vstd::prelude::*;

verus! {

/// Whether a text holds white space only.
pub open spec fn blank(s: Seq<char>) -> bool {
    forall|i: int| 0 <= i < s.len() ==> chars::is_space(#[trigger] s[i])
}

proof fn lemma_skip_run(a: Seq<char>, s: Seq<char>)
    requires
        blank(a),
        s.len() > 0 ==> !chars::is_space(s[0]),
    ensures
        find::skip_space(a + s) == s,
    decreases a.len(),
{
    if a.len() > 0 {
        let x = a.subrange(1, a.len() as int);
        assert((a + s)[0] == a[0]);
        assert forall|i: int| 0 <= i < x.len() implies chars::is_space(#[trigger] x[i]) by {
            assert(x[i] == a[i + 1]);
        }
        assert((a + s).subrange(1, (a + s).len() as int) =~= x + s);
        lemma_skip_run(x, s);
    } else {
        assert(a + s =~= s);
    }
}

proof fn lemma_drop_run(s: Seq<char>, b: Seq<char>)
    requires
        blank(b),
        s.len() > 0 ==> !chars::is_space(s.last()),
    ensures
        find::drop_space(s + b) == s,
    decreases b.len(),
{
    if b.len() > 0 {
        assert((s + b).last() == b.last());
        assert((s + b).drop_last() =~= s + b.drop_last());
        assert(chars::is_space(b[b.len() - 1]));
        lemma_drop_run(s, b.drop_last());
    } else {
        assert(s + b =~= s);
    }
}

/// Trimming takes away the white space around a text and nothing of the text itself.
pub proof fn law_trimming_removes_what_is_around(a: Seq<char>, s: Seq<char>, b: Seq<char>)
    requires
        blank(a),
        blank(b),
        s.len() > 0 ==> !chars::is_space(s.first()) && !chars::is_space(s.last()),
    ensures
        find::trimmed(a + s + b) == s,
{
    if s.len() > 0 {
        assert(a + s + b =~= a + (s + b));
        lemma_skip_run(a, s + b);
        lemma_drop_run(s, b);
    } else {
        let e = Seq::<char>::empty();
        assert(a + s + b =~= (a + b) + e);
        lemma_skip_run(a + b, e);
        assert(e + e =~= e);
        lemma_drop_run(e, e);
        assert(s =~= e);
    }
}

proof fn lemma_skip_front(s: Seq<char>) -> (a: Seq<char>)
    ensures
        blank(a),
        a + find::skip_space(s) == s,
        find::skip_space(s).len() > 0 ==> !chars::is_space(find::skip_space(s)[0]),
    decreases s.len(),
{
    if s.len() > 0 && chars::is_space(s[0]) {
        let t = s.subrange(1, s.len() as int);
        let x = lemma_skip_front(t);
        let a = seq![s[0]] + x;
        assert(a + find::skip_space(s) =~= seq![s[0]] + (x + find::skip_space(t)));
        assert(seq![s[0]] + t =~= s);
        a
    } else {
        assert(Seq::<char>::empty() + s =~= s);
        Seq::empty()
    }
}

proof fn lemma_drop_back(s: Seq<char>) -> (b: Seq<char>)
    ensures
        blank(b),
        find::drop_space(s) + b == s,
        find::drop_space(s).len() > 0 ==> !chars::is_space(find::drop_space(s).last()),
    decreases s.len(),
{
    if s.len() > 0 && chars::is_space(s.last()) {
        let x = lemma_drop_back(s.drop_last());
        let b = x.push(s.last());
        assert(find::drop_space(s) + b =~= (find::drop_space(s.drop_last()) + x).push(s.last()));
        assert(s.drop_last().push(s.last()) =~= s);
        b
    } else {
        assert(s + Seq::<char>::empty() =~= s);
        Seq::empty()
    }
}

/// A text trims to nothing exactly if it holds white space only; trimming twice is trimming
/// once, and what is left neither begins nor ends with white space.
pub proof fn law_blank_texts_trim_to_nothing(s: Seq<char>)
    ensures
        find::trimmed(s).len() == 0 <==> blank(s),
        find::trimmed(find::trimmed(s)) == find::trimmed(s),
        find::trimmed(s).len() > 0 ==> !chars::is_space(find::trimmed(s).first())
            && !chars::is_space(find::trimmed(s).last()),
{
    let e = Seq::<char>::empty();
    let a = lemma_skip_front(s);
    let m = find::skip_space(s);
    let b = lemma_drop_back(m);
    let t = find::trimmed(s);
    assert(t + b =~= m);
    if t.len() > 0 {
        assert(t[0] == m[0]);
        assert(s[a.len() as int] == m[0]);
    } else {
        assert(s =~= a + b);
    }
    law_trimming_removes_what_is_around(e, t, e);
    assert(e + t + e =~= t);
}

/// The first place of a character that does not stand in front of it.
pub proof fn lemma_first_index(a: Seq<char>, c: char, b: Seq<char>, from: int)
    requires
        !a.contains(c),
        0 <= from <= a.len(),
    ensures
        find::index_from(a + seq![c] + b, c, from) == Some(a.len() as int),
{
    let s = a + seq![c] + b;
    find::lemma_index_from(s, c, from);
    assert(s[a.len() as int] == c);
    match find::index_from(s, c, from) {
        Some(i) => {
            if i < a.len() {
                assert(a[i] == c);
            }
        },
        None => {},
    }
}

/// A text is cut at the first place that holds the given character, and not at all exactly if
/// no place holds it.
pub proof fn law_cut_at_first(a: Seq<char>, c: char, b: Seq<char>)
    requires
        !a.contains(c),
    ensures
        split::cut_at(a + seq![c] + b, c) == Some((a, b)),
        split::cut_at(a, c) is None,
{
    let s = a + seq![c] + b;
    lemma_first_index(a, c, b, 0);
    assert(s.subrange(0, a.len() as int) =~= a);
    assert(s.subrange(a.len() as int + 1, s.len() as int) =~= b);
    find::lemma_index_from(a, c, 0);
}

/// The last place of a character that does not stand behind it.
pub proof fn lemma_last_index(a: Seq<char>, c: char, b: Seq<char>, n: nat)
    requires
        !b.contains(c),
        n <= b.len(),
    ensures
        find::last_index_before(a + seq![c] + b, c, (a.len() + 1 + n) as int) == Some(a.len() as int),
    decreases n,
{
    let s = a + seq![c] + b;
    if n > 0 {
        assert(s[(a.len() + n) as int] == b[n - 1]);
        lemma_last_index(a, c, b, (n - 1) as nat);
    } else {
        assert(s[a.len() as int] == c);
    }
}

proof fn lemma_no_last_index(s: Seq<char>, c: char, n: nat)
    requires
        !s.contains(c),
        n <= s.len(),
    ensures
        find::last_index_before(s, c, n as int) is None,
    decreases n,
{
    if n > 0 {
        assert(s[n - 1] != c);
        lemma_no_last_index(s, c, (n - 1) as nat);
    }
}

/// A text is cut from behind at the last place that holds the given character, and not at all
/// exactly if no place holds it.
pub proof fn law_cut_at_last(a: Seq<char>, c: char, b: Seq<char>)
    requires
        !b.contains(c),
    ensures
        split::cut_at_last(a + seq![c] + b, c) == Some((a, b)),
        split::cut_at_last(b, c) is None,
{
    let s = a + seq![c] + b;
    lemma_last_index(a, c, b, b.len());
    assert(s.subrange(0, a.len() as int) =~= a);
    assert(s.subrange(a.len() as int + 1, s.len() as int) =~= b);
    lemma_no_last_index(b, c, b.len());
}

/// Cutting a text at another gives the parts around the first place where that text stands,
/// and nothing exactly if it stands nowhere.
pub proof fn law_cut_at_first_text(s: Seq<char>, p: Seq<char>)
    ensures
        match split::cut_at_text(s, p) {
            Some(cut) => cut.0 + p + cut.1 == s && forall|j: int|
                find::occurs_at(s, p, j) ==> cut.0.len() <= j,
            None => !find::has_text(s, p),
        },
{
    find::lemma_find_from(s, p, 0);
    match find::find_from(s, p, 0) {
        Some(i) => {
            assert(s.subrange(0, i) + p + s.subrange(i + p.len(), s.len() as int) =~= s);
        },
        None => {},
    }
}

proof fn lemma_find_last(s: Seq<char>, p: Seq<char>, at: int)
    ensures
        match find::find_last_to(s, p, at) {
            Some(i) => 0 <= i <= at && find::occurs_at(s, p, i) && forall|j: int|
                i < j <= at ==> !find::occurs_at(s, p, j),
            None => forall|j: int| j <= at ==> !find::occurs_at(s, p, j),
        },
    decreases at + 1,
{
    if at >= 0 && !find::occurs_at(s, p, at) {
        lemma_find_last(s, p, at - 1);
    }
}

/// Cutting a text from behind gives the parts around the last place where the other text
/// stands, and nothing exactly if it stands nowhere.
pub proof fn law_cut_at_last_text(s: Seq<char>, p: Seq<char>)
    ensures
        match split::cut_at_last_text(s, p) {
            Some(cut) => cut.0 + p + cut.1 == s && forall|j: int|
                find::occurs_at(s, p, j) ==> j <= cut.0.len(),
            None => !find::has_text(s, p),
        },
{
    lemma_find_last(s, p, s.len() - p.len());
    match find::find_last_to(s, p, s.len() - p.len()) {
        Some(i) => {
            assert(s.subrange(0, i) + p + s.subrange(i + p.len(), s.len() as int) =~= s);
        },
        None => {},
    }
}

/// Joining the parts of two lists joins what each list joins to.
pub proof fn law_join_of_joins(a: Seq<Seq<char>>, b: Seq<Seq<char>>, sep: Seq<char>)
    requires
        a.len() > 0,
        b.len() > 0,
    ensures
        split::joined(a + b, sep) == split::joined(a, sep) + sep + split::joined(b, sep),
    decreases b.len(),
{
    assert((a + b).drop_last() =~= a + b.drop_last());
    assert((a + b).last() == b.last());
    if b.len() == 1 {
        assert(a + b.drop_last() =~= a);
    } else {
        law_join_of_joins(a, b.drop_last(), sep);
        let j = split::joined(a, sep);
        let k = split::joined(b.drop_last(), sep);
        assert((j + sep + k) + sep + b.last() =~= j + sep + (k + sep + b.last()));
    }
}

/// The text that stands at the first place where two texts differ decides their order, and a
/// text comes before everything that it begins.
pub proof fn law_first_difference_orders(
    p: Seq<char>,
    c: char,
    x: Seq<char>,
    d: char,
    y: Seq<char>,
)
    ensures
        c != d ==> order::text_less(p + seq![c] + x, p + seq![d] + y) == (c < d),
        order::text_less(p, p + seq![c] + x),
        !order::text_less(p + seq![c] + x, p),
    decreases p.len(),
{
    let a = p + seq![c] + x;
    let b = p + seq![d] + y;
    if p.len() > 0 {
        let q = p.subrange(1, p.len() as int);
        law_first_difference_orders(q, c, x, d, y);
        assert(a.subrange(1, a.len() as int) =~= q + seq![c] + x);
        assert(b.subrange(1, b.len() as int) =~= q + seq![d] + y);
        assert(a[0] == p[0] && b[0] == p[0]);
    } else {
        assert(a[0] == c && b[0] == d);
    }
}

/// A whole number reads back as itself, below zero too.
pub proof fn law_integers_read_back(n: int)
    requires
        i64::MIN <= n <= i64::MAX,
    ensures
        number::parsed_integer(number::decimal_int(n)) == Some(n),
{
    if n < 0 {
        let d = number::decimal((-n) as nat);
        let s = number::decimal_int(n);
        number::law_decimal_reads_back((-n) as nat, (-n) as nat);
        number::lemma_decimal((-n) as nat);
        assert(s[0] == '-');
        assert(s.subrange(1, s.len() as int) =~= d);
    } else {
        number::law_decimal_reads_back(n as nat, i64::MAX as nat);
        number::lemma_decimal(n as nat);
    }
}

/// A padded text is as long as asked for, or as long as it was, and holds the text at its
/// start or at its end; all else in it is spaces.
pub proof fn law_padding_adds_spaces_only(s: Seq<char>, width: nat)
    ensures
        pad::padded_right(s, width).len() == (if s.len() < width {
            width
        } else {
            s.len()
        }),
        pad::padded_left(s, width).len() == pad::padded_right(s, width).len(),
        forall|i: int|
            0 <= i < pad::padded_right(s, width).len() ==> #[trigger] pad::padded_right(s, width)[i]
                == (if i < s.len() {
                s[i]
            } else {
                ' '
            }),
        forall|i: int|
            1 <= i <= pad::padded_left(s, width).len() ==> #[trigger] pad::padded_left(s, width)[
            pad::padded_left(s, width).len() - i] == (if i <= s.len() {
                s[s.len() - i]
            } else {
                ' '
            }),
{
}

proof fn lemma_in_rank_front<T: Ranked>(s: Seq<T::V>)
    requires
        s.len() > 0,
        sorting::in_rank::<T>(s),
    ensures
        sorting::in_rank::<T>(s.drop_last()),
{
    let f = s.drop_last();
    assert forall|i: int, j: int| 0 <= i < j < f.len() implies !T::less(
        #[trigger] f[j],
        #[trigger] f[i],
    ) by {
        assert(f[j] == s[j] && f[i] == s[i]);
    }
}

proof fn lemma_slot_at_end<T: Ranked>(front: Seq<T::V>, x: T::V, from: int)
    requires
        0 <= from <= front.len(),
        forall|i: int| 0 <= i < front.len() ==> !T::less(x, #[trigger] front[i]),
    ensures
        sorting::slot::<T>(front, x, from) == front.len(),
    decreases front.len() - from,
{
    if from < front.len() {
        assert(!T::less(x, front[from]));
        lemma_slot_at_end::<T>(front, x, from + 1);
    }
}

/// What is in order already stays as it is: sorting moves nothing past its equals.
pub proof fn law_sorting_is_stable<T: Ranked>(s: Seq<T::V>)
    requires
        sorting::in_rank::<T>(s),
    ensures
        sorting::sorted::<T>(s) == s,
    decreases s.len(),
{
    if s.len() > 0 {
        let front = s.drop_last();
        lemma_in_rank_front::<T>(s);
        law_sorting_is_stable::<T>(front);
        assert forall|i: int| 0 <= i < front.len() implies !T::less(
            s.last(),
            #[trigger] front[i],
        ) by {
            assert(!T::less(s[s.len() - 1], s[i]));
        }
        lemma_slot_at_end::<T>(front, s.last(), 0);
        assert(front.insert(front.len() as int, s.last()) =~= s);
    } else {
        assert(sorting::sorted::<T>(s) =~= s);
    }
}

/// Whether a text is one word: it is not empty and holds no white space.
pub open spec fn is_word(w: Seq<char>) -> bool {
    w.len() > 0 && forall|i: int| 0 <= i < w.len() ==> !chars::is_space(#[trigger] w[i])
}

/// Where a word ends does not depend on what stands in front.
pub proof fn lemma_word_end_shift(a: Seq<char>, s: Seq<char>, i: int)
    requires
        0 <= i <= s.len(),
    ensures
        split::word_end(a + s, a.len() + i) == a.len() + split::word_end(s, i),
    decreases s.len() - i,
{
    if i < s.len() {
        assert((a + s)[a.len() + i] == s[i]);
        lemma_word_end_shift(a, s, i + 1);
    }
}

/// A word ends within the text.
pub proof fn lemma_word_end_bound(s: Seq<char>, i: int)
    requires
        0 <= i <= s.len(),
    ensures
        i <= split::word_end(s, i) <= s.len(),
    decreases s.len() - i,
{
    if i < s.len() {
        lemma_word_end_bound(s, i + 1);
    }
}

proof fn lemma_words_shift(a: Seq<char>, s: Seq<char>, i: int)
    requires
        0 <= i <= s.len(),
    ensures
        split::words_from(a + s, a.len() + i) == split::words_from(s, i),
    decreases s.len() - i,
{
    if i < s.len() {
        assert((a + s)[a.len() + i] == s[i]);
        if chars::is_space(s[i]) {
            lemma_words_shift(a, s, i + 1);
        } else {
            let end = split::word_end(s, i);
            lemma_word_end_shift(a, s, i);
            lemma_word_end_bound(s, i);
            lemma_word_end_bound(s, i + 1);
            lemma_words_shift(a, s, end);
            assert((a + s).subrange(a.len() + i, a.len() + end) =~= s.subrange(i, end));
        }
    }
}

/// A word ends at the first white space.
pub proof fn lemma_word_end_run(s: Seq<char>, from: int, to: int)
    requires
        0 <= from <= to <= s.len(),
        forall|i: int| from <= i < to ==> !chars::is_space(#[trigger] s[i]),
        to < s.len() ==> chars::is_space(s[to]),
    ensures
        split::word_end(s, from) == to,
    decreases to - from,
{
    if from < to {
        assert(!chars::is_space(s[from]));
        lemma_word_end_run(s, from + 1, to);
    }
}

/// A word in front of white space is the first word of a text, and the others are the words of
/// what follows.
pub proof fn law_words_come_one_by_one(w: Seq<char>, c: char, s: Seq<char>)
    requires
        is_word(w),
        chars::is_space(c),
    ensures
        split::words_of(w + seq![c] + s) == seq![w] + split::words_of(s),
        split::words_of(seq![c] + s) == split::words_of(s),
        split::words_of(w) == seq![w],
        split::words_of(Seq::empty()) == Seq::<Seq<char>>::empty(),
{
    let t = w + seq![c] + s;
    let n = w.len() as int;
    assert forall|i: int| 0 <= i < n implies !chars::is_space(#[trigger] t[i]) by {
        assert(t[i] == w[i]);
    }
    assert(t[n] == c);
    lemma_word_end_run(t, 0, n);
    assert(!chars::is_space(t[0]));
    assert(t.subrange(0, n) =~= w);
    assert((w + seq![c]) + s =~= t);
    lemma_words_shift(w + seq![c], s, 0);
    assert(split::words_from(t, n) == split::words_from(t, n + 1));
    lemma_words_shift(seq![c], s, 0);
    assert((seq![c] + s)[0] == c);
    assert(split::words_from(seq![c] + s, 0) == split::words_from(seq![c] + s, 1));
    lemma_word_end_run(w, 0, n);
    assert(!chars::is_space(w[0]));
    assert(w.subrange(0, n) =~= w);
    assert(split::words_from(w, n) =~= Seq::<Seq<char>>::empty());
    assert(split::words_of(w) =~= seq![w]);
}

/// The first place of a character does not depend on what stands in front of the search.
pub proof fn lemma_index_shift(a: Seq<char>, s: Seq<char>, c: char, i: int)
    requires
        0 <= i <= s.len(),
    ensures
        find::index_from(a + s, c, a.len() + i) == (match find::index_from(s, c, i) {
            Some(k) => Some(a.len() + k),
            None => None,
        }),
    decreases s.len() - i,
{
    if i < s.len() {
        assert((a + s)[a.len() + i] == s[i]);
        lemma_index_shift(a, s, c, i + 1);
    }
}

proof fn lemma_lines_shift(a: Seq<char>, s: Seq<char>, i: int)
    requires
        0 <= i <= s.len(),
    ensures
        split::lines_from(a + s, a.len() + i) == split::lines_from(s, i),
    decreases s.len() - i,
{
    if i < s.len() {
        lemma_index_shift(a, s, '\n', i);
        find::lemma_index_from(s, '\n', i);
        match find::index_from(s, '\n', i) {
            Some(k) => {
                lemma_lines_shift(a, s, k + 1);
                assert((a + s).subrange(a.len() + i, a.len() + k) =~= s.subrange(i, k));
            },
            None => {
                assert((a + s).subrange(a.len() + i, (a + s).len() as int) =~= s.subrange(
                    i,
                    s.len() as int,
                ));
            },
        }
    }
}

/// What stands in front of the first line feed is the first line of a text, without a carriage
/// return at its end, and the others are the lines of what follows; a line without a line feed
/// is the whole text, and an empty text has no lines.
pub proof fn law_lines_come_one_by_one(l: Seq<char>, s: Seq<char>)
    requires
        !l.contains('\n'),
    ensures
        split::lines_of(l + seq!['\n'] + s) == seq![split::without_cr(l)] + split::lines_of(s),
        l.len() > 0 ==> split::lines_of(l) == seq![l],
        split::lines_of(Seq::empty()) == Seq::<Seq<char>>::empty(),
        !l.contains('\r') ==> split::without_cr(l) == l && split::without_cr(l.push('\r')) == l,
{
    let t = l + seq!['\n'] + s;
    let n = l.len() as int;
    lemma_first_index(l, '\n', s, 0);
    assert(t.subrange(0, n) =~= l);
    assert((l + seq!['\n']) + s =~= t);
    lemma_lines_shift(l + seq!['\n'], s, 0);
    find::lemma_index_from(l, '\n', 0);
    assert(l.subrange(0, n) =~= l);
    assert(l.push('\r').drop_last() =~= l);
    if l.len() > 0 && l.last() == '\r' {
        assert(l[n - 1] == '\r');
        assert(l.contains('\r'));
    }
}

/// Lines that are joined by line feeds are the lines of what they are joined to, if the last one
/// is not empty; a line feed behind them changes nothing.
pub proof fn law_lines_undo_join(ls: Seq<Seq<char>>)
    requires
        ls.len() > 0,
        forall|i: int|
            0 <= i < ls.len() ==> !(#[trigger] ls[i]).contains('\n') && !ls[i].contains('\r'),
        ls.last().len() > 0,
    ensures
        split::lines_of(split::joined(ls, seq!['\n'])) == ls,
        split::lines_of(split::joined(ls, seq!['\n']) + seq!['\n']) == ls,
    decreases ls.len(),
{
    let first = ls[0];
    let e = Seq::<char>::empty();
    assert(!first.contains('\n') && !first.contains('\r'));
    law_lines_come_one_by_one(first, e);
    if ls.len() == 1 {
        assert(ls =~= seq![first]);
        assert(first + seq!['\n'] + e =~= first + seq!['\n']);
        assert(seq![first] + Seq::<Seq<char>>::empty() =~= ls);
    } else {
        let rest = ls.subrange(1, ls.len() as int);
        assert forall|i: int| 0 <= i < rest.len() implies !(#[trigger] rest[i]).contains('\n')
            && !rest[i].contains('\r') by {
            assert(rest[i] == ls[i + 1]);
        }
        assert(rest.last() == ls.last());
        law_lines_undo_join(rest);
        law_join_of_joins(seq![first], rest, seq!['\n']);
        assert(seq![first] + rest =~= ls);
        let j = split::joined(rest, seq!['\n']);
        assert(split::joined(seq![first], seq!['\n']) == first);
        law_lines_come_one_by_one(first, j);
        law_lines_come_one_by_one(first, j + seq!['\n']);
        assert(first + seq!['\n'] + j + seq!['\n'] =~= first + seq!['\n'] + (j + seq!['\n']));
    }
}

proof fn lemma_hex_length(n: nat, width: nat)
    ensures
        number::hex(n, width).len() == width,
    decreases width,
{
    if width > 0 {
        lemma_hex_length(n / 16, (width - 1) as nat);
    }
}

/// How many numbers fit in the given number of hexadecimal digits.
pub open spec fn sixteen_to(width: nat) -> nat
    decreases width,
{
    if width == 0 {
        1
    } else {
        16 * sixteen_to((width - 1) as nat)
    }
}

/// A number takes as many hexadecimal digits as asked for, and different numbers that fit in them
/// have different digits.
pub proof fn law_hexadecimal_tells_numbers_apart(n: nat, m: nat, width: nat)
    requires
        n < sixteen_to(width),
        m < sixteen_to(width),
    ensures
        number::hex(n, width).len() == width,
        number::hex(n, width) == number::hex(m, width) ==> n == m,
    decreases width,
{
    lemma_hex_length(n, width);
    if width > 0 {
        law_hexadecimal_tells_numbers_apart(n / 16, m / 16, (width - 1) as nat);
        let a = number::hex(n / 16, (width - 1) as nat);
        let b = number::hex(m / 16, (width - 1) as nat);
        if number::hex(n, width) == number::hex(m, width) {
            let x = a.push(number::hex_char(n % 16));
            let y = b.push(number::hex_char(m % 16));
            assert(x.drop_last() =~= a);
            assert(y.drop_last() =~= b);
            assert(x.last() == y.last());
            assert(n % 16 == m % 16);
        }
    }
}

} // verus!
