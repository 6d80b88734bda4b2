//! Splitting text into lines, words and pieces, and joining pieces.
use crate::text::chars::{from_range, is_space_char, own, to_chars};
use crate::text::find::{find_chars, find_last_chars, index_chars, last_index_chars, trim};
use vstd::prelude::*;
use vstd::string::*;

verus! {

broadcast use crate::text::chars::lemma_texts_push, crate::text::chars::lemma_texts_empty;

/// The character sequences of an optional pair of strings.
pub open spec fn opt_pair(o: Option<(String, String)>) -> Option<(Seq<char>, Seq<char>)> {
    match o {
        Some(p) => Some((p.0@, p.1@)),
        None => None,
    }
}

/// What stands before and after the first `c`.
pub open spec fn cut_at(s: Seq<char>, c: char) -> Option<(Seq<char>, Seq<char>)> {
    match crate::text::find::index_from(s, c, 0) {
        Some(i) => Some((s.subrange(0, i), s.subrange(i + 1, s.len() as int))),
        None => None,
    }
}

/// What stands before and after the last `c`.
pub open spec fn cut_at_last(s: Seq<char>, c: char) -> Option<(Seq<char>, Seq<char>)> {
    match crate::text::find::last_index_before(s, c, s.len() as int) {
        Some(i) => Some((s.subrange(0, i), s.subrange(i + 1, s.len() as int))),
        None => None,
    }
}

/// What stands before and after the first occurrence of `p`.
pub open spec fn cut_at_text(s: Seq<char>, p: Seq<char>) -> Option<(Seq<char>, Seq<char>)> {
    match crate::text::find::find_from(s, p, 0) {
        Some(i) => Some((s.subrange(0, i), s.subrange(i + p.len(), s.len() as int))),
        None => None,
    }
}

/// Splits at the first `c`.
pub fn split_once(s: &str, c: char) -> (r: Option<(String, String)>)
    ensures
        opt_pair(r) == cut_at(s@, c),
{
    let x = to_chars(s);
    let n: usize = x.len();
    match index_chars(x.as_slice(), c, 0) {
        Some(i) => Some((from_range(x.as_slice(), 0, i), from_range(x.as_slice(), i + 1, n))),
        None => None,
    }
}

/// Splits at the last `c`.
pub fn rsplit_once(s: &str, c: char) -> (r: Option<(String, String)>)
    ensures
        opt_pair(r) == cut_at_last(s@, c),
{
    let x = to_chars(s);
    let n: usize = x.len();
    match last_index_chars(x.as_slice(), c) {
        Some(i) => Some((from_range(x.as_slice(), 0, i), from_range(x.as_slice(), i + 1, n))),
        None => None,
    }
}

/// Splits at the first occurrence of `p`.
pub fn split_once_text(s: &str, p: &str) -> (r: Option<(String, String)>)
    ensures
        opt_pair(r) == cut_at_text(s@, p@),
{
    let x = to_chars(s);
    let y = to_chars(p);
    let n: usize = x.len();
    match find_chars(x.as_slice(), y.as_slice(), 0) {
        Some(i) => {
            proof {
                crate::text::find::lemma_find_from(s@, p@, 0);
            }
            Some((from_range(x.as_slice(), 0, i), from_range(x.as_slice(), i + y.len(), n)))
        },
        None => None,
    }
}

/// What stands before and after the last occurrence of `p`.
pub open spec fn cut_at_last_text(s: Seq<char>, p: Seq<char>) -> Option<(Seq<char>, Seq<char>)> {
    match crate::text::find::find_last_to(s, p, s.len() - p.len()) {
        Some(i) => Some((s.subrange(0, i), s.subrange(i + p.len(), s.len() as int))),
        None => None,
    }
}

/// Splits at the last occurrence of `p`.
pub fn rsplit_once_text(s: &str, p: &str) -> (r: Option<(String, String)>)
    ensures
        opt_pair(r) == cut_at_last_text(s@, p@),
{
    let x = to_chars(s);
    let y = to_chars(p);
    let n: usize = x.len();
    match find_last_chars(x.as_slice(), y.as_slice()) {
        Some(i) => {
            Some((from_range(x.as_slice(), 0, i), from_range(x.as_slice(), i + y.len(), n)))
        },
        None => None,
    }
}

/// The pieces of `s` from position `from` on, between the separators `c`. There is always
/// one more piece than there are separators.
pub open spec fn pieces_from(s: Seq<char>, c: char, from: int) -> Seq<Seq<char>>
    decreases s.len() - from,
{
    if from < 0 || from > s.len() {
        Seq::<Seq<char>>::empty()
    } else {
        match crate::text::find::index_from(s, c, from) {
            Some(i) => if from <= i < s.len() {
                seq![s.subrange(from, i)] + pieces_from(s, c, i + 1)
            } else {
                Seq::<Seq<char>>::empty()
            },
            None => seq![s.subrange(from, s.len() as int)],
        }
    }
}

/// The pieces of `s` between the separators `c`.
pub open spec fn pieces(s: Seq<char>, c: char) -> Seq<Seq<char>> {
    pieces_from(s, c, 0)
}

/// Splits at every `c`.
pub fn split_char(s: &str, c: char) -> (r: Vec<String>)
    ensures
        crate::text::chars::texts(r@) == pieces(s@, c),
{
    let x = to_chars(s);
    let n: usize = x.len();
    let mut out: Vec<String> = Vec::new();
    let mut from: usize = 0;
    proof {
        assert(Seq::<Seq<char>>::empty() + pieces(s@, c) =~= pieces(s@, c));
    }
    loop
        invariant
            x@ == s@,
            n == x@.len(),
            from <= n,
            crate::text::chars::texts(out@) + pieces_from(s@, c, from as int) == pieces(s@, c),
        decreases x@.len() - from,
    {
        let ghost before = out@;
        match index_chars(x.as_slice(), c, from) {
            Some(i) => {
                proof {
                    crate::text::find::lemma_index_from(s@, c, from as int);
                }
                let piece = from_range(x.as_slice(), from, i);
                out.push(piece);
                proof {
                    assert(crate::text::chars::texts(before) + (seq![s@.subrange(
                        from as int,
                        i as int,
                    )] + pieces_from(s@, c, i + 1)) =~= crate::text::chars::texts(out@)
                        + pieces_from(s@, c, i + 1));
                }
                from = i + 1;
            },
            None => {
                let piece = from_range(x.as_slice(), from, x.len());
                out.push(piece);
                proof {
                    assert(crate::text::chars::texts(before) + seq![s@.subrange(
                        from as int,
                        s@.len() as int,
                    )] =~= crate::text::chars::texts(out@));
                }
                return out;
            },
        }
    }
}

/// A line without the carriage return that precedes its newline.
pub open spec fn without_cr(s: Seq<char>) -> Seq<char> {
    if s.len() > 0 && s.last() == '\r' {
        s.drop_last()
    } else {
        s
    }
}

/// The lines of `s` from position `from` on: what a newline ends, without the newline and
/// a carriage return right before it, and what follows the last newline, if anything does.
pub open spec fn lines_from(s: Seq<char>, from: int) -> Seq<Seq<char>>
    decreases s.len() - from,
{
    if from < 0 || from >= s.len() {
        Seq::<Seq<char>>::empty()
    } else {
        match crate::text::find::index_from(s, '\n', from) {
            Some(i) => if from <= i < s.len() {
                seq![without_cr(s.subrange(from, i))] + lines_from(s, i + 1)
            } else {
                Seq::<Seq<char>>::empty()
            },
            None => seq![s.subrange(from, s.len() as int)],
        }
    }
}

/// The lines of `s`.
pub open spec fn lines_of(s: Seq<char>) -> Seq<Seq<char>> {
    lines_from(s, 0)
}

/// Splits a text into its lines.
pub fn lines(s: &str) -> (r: Vec<String>)
    ensures
        crate::text::chars::texts(r@) == lines_of(s@),
{
    let x = to_chars(s);
    let mut out: Vec<String> = Vec::new();
    let mut from: usize = 0;
    proof {
        assert(Seq::<Seq<char>>::empty() + lines_of(s@) =~= lines_of(s@));
    }
    while from < x.len()
        invariant
            x@ == s@,
            from <= x@.len(),
            crate::text::chars::texts(out@) + lines_from(s@, from as int) == lines_of(s@),
        decreases x@.len() - from,
    {
        let ghost before = out@;
        match index_chars(x.as_slice(), '\n', from) {
            Some(i) => {
                proof {
                    crate::text::find::lemma_index_from(s@, '\n', from as int);
                }
                let end: usize = if i > from && x[i - 1] == '\r' {
                    i - 1
                } else {
                    i
                };
                let piece = from_range(x.as_slice(), from, end);
                out.push(piece);
                proof {
                    assert(piece@ =~= without_cr(s@.subrange(from as int, i as int)));
                    assert(crate::text::chars::texts(before) + (seq![without_cr(
                        s@.subrange(from as int, i as int),
                    )] + lines_from(s@, i + 1)) =~= crate::text::chars::texts(out@) + lines_from(
                        s@,
                        i + 1,
                    ));
                }
                from = i + 1;
            },
            None => {
                let piece = from_range(x.as_slice(), from, x.len());
                out.push(piece);
                proof {
                    assert(crate::text::chars::texts(before) + seq![s@.subrange(
                        from as int,
                        s@.len() as int,
                    )] =~= crate::text::chars::texts(out@));
                }
                return out;
            },
        }
    }
    proof {
        assert(crate::text::chars::texts(out@) + Seq::<Seq<char>>::empty()
            =~= crate::text::chars::texts(out@));
    }
    out
}

/// The first position at or after `from` that holds white space, or the end.
pub open spec fn word_end(s: Seq<char>, from: int) -> int
    decreases s.len() - from,
{
    if from < 0 || from >= s.len() {
        s.len() as int
    } else if crate::text::chars::is_space(s[from]) {
        from
    } else {
        word_end(s, from + 1)
    }
}

/// The words of `s` from position `from` on: the longest runs without white space.
pub open spec fn words_from(s: Seq<char>, from: int) -> Seq<Seq<char>>
    decreases s.len() - from,
{
    if from < 0 || from >= s.len() {
        Seq::<Seq<char>>::empty()
    } else if crate::text::chars::is_space(s[from]) {
        words_from(s, from + 1)
    } else {
        let end = word_end(s, from);
        if from < end <= s.len() {
            seq![s.subrange(from, end)] + words_from(s, end)
        } else {
            Seq::<Seq<char>>::empty()
        }
    }
}

/// The words of `s`.
pub open spec fn words_of(s: Seq<char>) -> Seq<Seq<char>> {
    words_from(s, 0)
}

/// The first position at or after `from` that holds white space, or the end.
pub fn word_end_chars(x: &[char], from: usize) -> (r: usize)
    requires
        from < x@.len(),
    ensures
        r == word_end(x@, from as int),
        from <= r <= x@.len(),
        !crate::text::chars::is_space(x@[from as int]) ==> from < r,
{
    let mut i: usize = from;
    while i < x.len()
        invariant
            from <= i <= x@.len(),
            word_end(x@, from as int) == word_end(x@, i as int),
            forall|j: int| from <= j < i ==> !crate::text::chars::is_space(#[trigger] x@[j]),
        decreases x@.len() - i,
    {
        if is_space_char(x[i]) {
            return i;
        }
        i = i + 1;
    }
    i
}

/// Splits a text at runs of white space.
pub fn split_whitespace(s: &str) -> (r: Vec<String>)
    ensures
        crate::text::chars::texts(r@) == words_of(s@),
{
    let x = to_chars(s);
    let mut out: Vec<String> = Vec::new();
    let mut from: usize = 0;
    proof {
        assert(Seq::<Seq<char>>::empty() + words_of(s@) =~= words_of(s@));
    }
    while from < x.len()
        invariant
            x@ == s@,
            from <= x@.len(),
            crate::text::chars::texts(out@) + words_from(s@, from as int) == words_of(s@),
        decreases x@.len() - from,
    {
        if is_space_char(x[from]) {
            from = from + 1;
        } else {
            let ghost before = out@;
            let end = word_end_chars(x.as_slice(), from);
            let piece = from_range(x.as_slice(), from, end);
            out.push(piece);
            proof {
                assert(crate::text::chars::texts(before) + (seq![s@.subrange(
                    from as int,
                    end as int,
                )] + words_from(s@, end as int)) =~= crate::text::chars::texts(out@) + words_from(
                    s@,
                    end as int,
                ));
            }
            from = end;
        }
    }
    proof {
        assert(crate::text::chars::texts(out@) + Seq::<Seq<char>>::empty()
            =~= crate::text::chars::texts(out@));
    }
    out
}

/// The pieces with `sep` between each two.
pub open spec fn joined(parts: Seq<Seq<char>>, sep: Seq<char>) -> Seq<char>
    decreases parts.len(),
{
    if parts.len() == 0 {
        Seq::<char>::empty()
    } else if parts.len() == 1 {
        parts[0]
    } else {
        joined(parts.drop_last(), sep) + sep + parts.last()
    }
}

/// Joins pieces with a separator between each two.
pub fn join(parts: &[String], sep: &str) -> (r: String)
    ensures
        r@ == joined(crate::text::chars::texts(parts@), sep@),
{
    let ghost all = crate::text::chars::texts(parts@);
    if parts.len() == 0 {
        return String::new();
    }
    let mut out = own(parts[0].as_str());
    let mut i: usize = 1;
    proof {
        assert(all.take(1) =~= seq![parts@[0]@]);
    }
    while i < parts.len()
        invariant
            1 <= i <= parts@.len(),
            all == crate::text::chars::texts(parts@),
            out@ == joined(all.take(i as int), sep@),
        decreases parts@.len() - i,
    {
        proof {
            assert(all.take(i + 1).drop_last() =~= all.take(i as int));
        }
        out.append(sep);
        out.append(parts[i].as_str());
        i = i + 1;
    }
    proof {
        assert(all.take(parts@.len() as int) =~= all);
    }
    out
}

/// The first word of a text.
pub fn first_word(s: &str) -> (r: Option<String>)
    ensures
        crate::text::chars::opt_text(r) == (if words_of(s@).len() > 0 {
            Some(words_of(s@)[0])
        } else {
            None
        }),
{
    let ws = split_whitespace(s);
    if ws.len() == 0 {
        None
    } else {
        proof {
            assert(crate::text::chars::texts(ws@)[0] == ws@[0]@);
        }
        Some(own(ws[0].as_str()))
    }
}

/// The last word of a text.
pub fn last_word(s: &str) -> (r: Option<String>)
    ensures
        crate::text::chars::opt_text(r) == (if words_of(s@).len() > 0 {
            Some(words_of(s@).last())
        } else {
            None
        }),
{
    let ws = split_whitespace(s);
    if ws.len() == 0 {
        None
    } else {
        proof {
            assert(crate::text::chars::texts(ws@).last() == ws@.last()@);
        }
        Some(own(ws[ws.len() - 1].as_str()))
    }
}

/// The first line that is not blank, trimmed.
pub open spec fn first_filled_line(ls: Seq<Seq<char>>) -> Option<Seq<char>>
    decreases ls.len(),
{
    if ls.len() == 0 {
        None
    } else if crate::text::find::trimmed(ls[0]).len() > 0 {
        Some(crate::text::find::trimmed(ls[0]))
    } else {
        first_filled_line(ls.subrange(1, ls.len() as int))
    }
}

/// The first line of a text that is not blank, trimmed.
pub fn first_nonempty_line(s: &str) -> (r: Option<String>)
    ensures
        crate::text::chars::opt_text(r) == first_filled_line(lines_of(s@)),
{
    let ls = lines(s);
    let ghost all = lines_of(s@);
    let mut i: usize = 0;
    proof {
        assert(all.subrange(0, all.len() as int) =~= all);
    }
    while i < ls.len()
        invariant
            all == crate::text::chars::texts(ls@),
            all == lines_of(s@),
            i <= ls@.len(),
            first_filled_line(all) == first_filled_line(all.subrange(i as int, all.len() as int)),
        decreases ls@.len() - i,
    {
        let t = trim(ls[i].as_str());
        proof {
            assert(all.subrange(i as int, all.len() as int)[0] == ls@[i as int]@);
        }
        if !t.as_str().is_empty() {
            return Some(t);
        }
        proof {
            let rest = all.subrange(i as int, all.len() as int);
            assert(rest.subrange(1, rest.len() as int) =~= all.subrange(i + 1, all.len() as int));
        }
        i = i + 1;
    }
    None
}

proof fn lemma_pieces_shift(s: Seq<char>, c: char, from: int)
    requires
        0 <= from <= s.len(),
    ensures
        pieces_from(s, c, from) == pieces(s.subrange(from, s.len() as int), c),
    decreases s.len() - from,
{
    let t = s.subrange(from, s.len() as int);
    crate::text::find::lemma_index_from(s, c, from);
    crate::text::find::lemma_index_from(t, c, 0);
    match crate::text::find::index_from(s, c, from) {
        Some(i) => {
            assert(t[i - from] == c);
            match crate::text::find::index_from(t, c, 0) {
                Some(k) => {
                    assert(s[from + k] == c);
                    assert(k == i - from);
                    lemma_pieces_shift(s, c, i + 1);
                    lemma_pieces_shift(t, c, k + 1);
                    assert(t.subrange(k + 1, t.len() as int) =~= s.subrange(i + 1, s.len() as int));
                    assert(t.subrange(0, k) =~= s.subrange(from, i));
                },
                None => {},
            }
        },
        None => {
            match crate::text::find::index_from(t, c, 0) {
                Some(k) => {
                    assert(s[from + k] == c);
                },
                None => {
                    assert(t.subrange(0, t.len() as int) =~= t);
                },
            }
        },
    }
}

proof fn lemma_pieces_of_head(a: Seq<char>, c: char, rest: Seq<char>)
    requires
        !a.contains(c),
    ensures
        pieces(a + seq![c] + rest, c) == seq![a] + pieces(rest, c),
{
    let s = a + seq![c] + rest;
    crate::text::find::lemma_index_from(s, c, 0);
    assert(s[a.len() as int] == c);
    match crate::text::find::index_from(s, c, 0) {
        Some(i) => {
            if i < a.len() {
                assert(a[i] == c);
            }
            assert(i == a.len());
            assert(s.subrange(0, i) =~= a);
            lemma_pieces_shift(s, c, i + 1);
            assert(s.subrange(i + 1, s.len() as int) =~= rest);
        },
        None => {},
    }
}

proof fn lemma_joined_head(parts: Seq<Seq<char>>, sep: Seq<char>)
    requires
        parts.len() >= 2,
    ensures
        joined(parts, sep) == parts[0] + sep + joined(parts.subrange(1, parts.len() as int), sep),
    decreases parts.len(),
{
    let tail = parts.subrange(1, parts.len() as int);
    if parts.len() == 2 {
        assert(parts.drop_last()[0] == parts[0]);
        assert(tail[0] == parts[1]);
        assert(joined(parts.drop_last(), sep) == parts[0]);
        assert(joined(tail, sep) == parts[1]);
    } else {
        let front = parts.drop_last();
        lemma_joined_head(front, sep);
        assert(front.subrange(1, front.len() as int) =~= tail.drop_last());
        assert(tail.last() == parts.last());
        assert(front[0] == parts[0]);
        assert(joined(tail, sep) == joined(tail.drop_last(), sep) + sep + parts.last());
        assert(parts[0] + sep + joined(tail.drop_last(), sep) + sep + parts.last() =~= parts[0]
            + sep + (joined(tail.drop_last(), sep) + sep + parts.last()));
    }
}

/// Splitting what was joined gives back the pieces, if none of them holds the separator.
pub proof fn law_split_undoes_join(parts: Seq<Seq<char>>, c: char)
    requires
        parts.len() > 0,
        forall|i: int| 0 <= i < parts.len() ==> !(#[trigger] parts[i]).contains(c),
    ensures
        pieces(joined(parts, seq![c]), c) == parts,
    decreases parts.len(),
{
    if parts.len() == 1 {
        let s = parts[0];
        crate::text::find::lemma_index_from(s, c, 0);
        match crate::text::find::index_from(s, c, 0) {
            Some(i) => {
                assert(s.contains(s[i]));
            },
            None => {},
        }
        assert(s.subrange(0, s.len() as int) =~= s);
        assert(pieces(s, c) =~= parts);
    } else {
        let tail = parts.subrange(1, parts.len() as int);
        assert forall|i: int| 0 <= i < tail.len() implies !(#[trigger] tail[i]).contains(c) by {
            assert(tail[i] == parts[i + 1]);
        }
        law_split_undoes_join(tail, c);
        lemma_joined_head(parts, seq![c]);
        lemma_pieces_of_head(parts[0], c, joined(tail, seq![c]));
        assert(seq![parts[0]] + tail =~= parts);
    }
}

/// No piece of a split text holds the separator.
pub proof fn law_pieces_hold_no_separator(s: Seq<char>, c: char)
    ensures
        forall|i: int| 0 <= i < pieces(s, c).len() ==> !(#[trigger] pieces(s, c)[i]).contains(c),
{
    lemma_pieces_clean(s, c, 0);
}

proof fn lemma_pieces_clean(s: Seq<char>, c: char, from: int)
    requires
        0 <= from <= s.len(),
    ensures
        forall|i: int|
            0 <= i < pieces_from(s, c, from).len() ==> !(#[trigger] pieces_from(
                s,
                c,
                from,
            )[i]).contains(c),
    decreases s.len() - from,
{
    crate::text::find::lemma_index_from(s, c, from);
    match crate::text::find::index_from(s, c, from) {
        Some(k) => {
            lemma_pieces_clean(s, c, k + 1);
            let head = s.subrange(from, k);
            let tail = pieces_from(s, c, k + 1);
            assert(!head.contains(c)) by {
                if head.contains(c) {
                    let j = choose|j: int| 0 <= j < head.len() && head[j] == c;
                    assert(s[from + j] == c);
                }
            }
            assert(pieces_from(s, c, from) == seq![head] + tail);
            assert forall|i: int| 0 <= i < (seq![head] + tail).len() implies !(#[trigger] (seq![
                head,
            ] + tail)[i]).contains(c) by {
                if i > 0 {
                    assert((seq![head] + tail)[i] == tail[i - 1]);
                }
            }
        },
        None => {
            let head = s.subrange(from, s.len() as int);
            assert(!head.contains(c)) by {
                if head.contains(c) {
                    let j = choose|j: int| 0 <= j < head.len() && head[j] == c;
                    assert(s[from + j] == c);
                }
            }
        },
    }
}

} // verus!
