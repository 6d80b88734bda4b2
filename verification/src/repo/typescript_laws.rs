//! Laws of masking TypeScript, of its tokens and of its symbols.
use crate::repo::symbols::{SymbolKind, SymbolView};
use crate::repo::typescript_symbols;
use crate::repo::typescript_symbols::Stop;
use crate::repo::typescript_tokens;
use crate::repo::typescript_tokens::{
    LineToken, Region, TokenView, BACKSLASH, BACKTICK, DOUBLE_QUOTE, EQUALS, GREATER, NEWLINE,
    SINGLE_QUOTE, SLASH, SPACE, STAR,
};
use vstd::prelude::*;

verus! {

/// Whether bytes hold nothing that can begin a comment or a quoted text.
pub open spec fn is_bare(b: Seq<u8>) -> bool {
    forall|i: int|
        0 <= i < b.len() ==> {
            let c = #[trigger] b[i];
            c != SLASH && c != SINGLE_QUOTE && c != DOUBLE_QUOTE && c != BACKTICK
        }
}

/// As many spaces as asked for.
pub open spec fn spaces(n: nat) -> Seq<u8> {
    Seq::new(n, |i: int| SPACE)
}

proof fn lemma_bare_region(a: Seq<u8>, b: Seq<u8>, i: int)
    requires
        is_bare(a),
        0 <= i <= a.len(),
    ensures
        typescript_tokens::region_at(a + b, i) == Region::Code,
    decreases i,
{
    if i > 0 {
        lemma_bare_region(a, b, i - 1);
        assert((a + b)[i - 1] == a[i - 1]);
        assert(a[i - 1] != SLASH);
    }
}

proof fn lemma_region_shift(a: Seq<u8>, b: Seq<u8>, i: int)
    requires
        0 <= i <= b.len(),
        typescript_tokens::region_at(a + b, a.len() as int) == Region::Code,
    ensures
        typescript_tokens::region_at(a + b, a.len() + i) == typescript_tokens::region_at(b, i),
    decreases i,
{
    if i > 0 {
        lemma_region_shift(a, b, i - 1);
        assert((a + b)[a.len() + i - 1] == b[i - 1]);
        if i < b.len() {
            assert((a + b)[a.len() + i] == b[i]);
        }
    }
}

proof fn lemma_masked_shift(a: Seq<u8>, b: Seq<u8>)
    requires
        typescript_tokens::region_at(a + b, a.len() as int) == Region::Code,
    ensures
        typescript_tokens::masked(a + b).skip(a.len() as int) == typescript_tokens::masked(b),
{
    let x = typescript_tokens::masked(a + b).skip(a.len() as int);
    assert forall|i: int| 0 <= i < b.len() implies #[trigger] x[i] == typescript_tokens::masked(
        b,
    )[i] by {
        lemma_region_shift(a, b, i);
        lemma_region_shift(a, b, i + 1);
        assert((a + b)[a.len() + i] == b[i]);
    }
    assert(x =~= typescript_tokens::masked(b));
}

/// Code that holds no comment and no quoted text stays as it is, in front of anything.
pub proof fn law_bare_code_stays(a: Seq<u8>, b: Seq<u8>)
    requires
        is_bare(a),
    ensures
        typescript_tokens::masked(a + b) == a + typescript_tokens::masked(b),
        typescript_tokens::masked(a) == a,
{
    let all = typescript_tokens::masked(a + b);
    lemma_bare_region(a, b, a.len() as int);
    lemma_masked_shift(a, b);
    assert forall|i: int| 0 <= i < a.len() implies #[trigger] all[i] == a[i] by {
        lemma_bare_region(a, b, i);
        lemma_bare_region(a, b, i + 1);
        assert((a + b)[i] == a[i]);
    }
    assert(all =~= all.take(a.len() as int) + all.skip(a.len() as int));
    assert(all.take(a.len() as int) =~= a);
    let e = Seq::<u8>::empty();
    let own = typescript_tokens::masked(a);
    assert forall|i: int| 0 <= i < a.len() implies #[trigger] own[i] == a[i] by {
        lemma_bare_region(a, e, i);
        lemma_bare_region(a, e, i + 1);
        assert(a + e =~= a);
    }
    assert(own =~= a);
}

proof fn lemma_line_comment(s: Seq<u8>, n: int, i: int)
    requires
        2 <= n < s.len(),
        s[0] == SLASH,
        s[1] == SLASH,
        s[n] == NEWLINE,
        forall|j: int| 2 <= j < n ==> #[trigger] s[j] != NEWLINE,
        2 <= i <= n,
    ensures
        typescript_tokens::region_at(s, i) == Region::LineComment,
        typescript_tokens::region_at(s, 1) == Region::LineOpen,
    decreases i,
{
    assert(typescript_tokens::region_at(s, 0) == Region::Code);
    assert(typescript_tokens::pair_at(s, 0, SLASH, SLASH));
    assert(typescript_tokens::region_at(s, 1) == Region::LineOpen);
    if i == 2 {
        assert(typescript_tokens::region_at(s, 2) == Region::LineComment);
    } else {
        lemma_line_comment(s, n, i - 1);
        assert(s[i - 1] != NEWLINE);
    }
}

/// A comment from two slashes to the end of its line turns into spaces, and nothing behind it
/// changes.
pub proof fn law_line_comments_are_blanked(text: Seq<u8>, b: Seq<u8>)
    requires
        forall|j: int| 0 <= j < text.len() ==> #[trigger] text[j] != NEWLINE,
    ensures
        typescript_tokens::masked(seq![SLASH, SLASH] + text + seq![NEWLINE] + b) == spaces(
            text.len() + 2,
        ) + seq![NEWLINE] + typescript_tokens::masked(b),
{
    let a = seq![SLASH, SLASH] + text + seq![NEWLINE];
    let s = a + b;
    let n = text.len() as int + 2;
    assert forall|j: int| 2 <= j < n implies #[trigger] s[j] != NEWLINE by {
        assert(s[j] == text[j - 2]);
    }
    assert(s[0] == SLASH && s[1] == SLASH && s[n] == NEWLINE);
    lemma_line_comment(s, n, n);
    assert(typescript_tokens::region_at(s, n + 1) == Region::Code);
    lemma_masked_shift(a, b);
    let all = typescript_tokens::masked(s);
    assert forall|i: int| 0 <= i < n implies #[trigger] all[i] == SPACE by {
        if i >= 2 {
            lemma_line_comment(s, n, i);
            assert(s[i] != NEWLINE);
        }
    }
    assert(all =~= all.take(n + 1) + all.skip(n + 1));
    assert(all.take(n + 1) =~= spaces(text.len() + 2) + seq![NEWLINE]);
}

proof fn lemma_quoted(s: Seq<u8>, q: u8, n: int, i: int)
    requires
        q == SINGLE_QUOTE || q == DOUBLE_QUOTE || q == BACKTICK,
        1 <= n < s.len(),
        s[0] == q,
        s[n] == q,
        forall|j: int|
            1 <= j < n ==> #[trigger] s[j] != q && s[j] != BACKSLASH && s[j] != NEWLINE,
        1 <= i <= n,
    ensures
        typescript_tokens::region_at(s, i) == (Region::Quoted { quote: q, escaped: false }),
    decreases i,
{
    assert(typescript_tokens::region_at(s, 0) == Region::Code);
    if i == 1 {
        assert(!typescript_tokens::pair_at(s, 0, SLASH, SLASH));
        assert(!typescript_tokens::pair_at(s, 0, SLASH, STAR));
    } else {
        lemma_quoted(s, q, n, i - 1);
        assert(s[i - 1] != q && s[i - 1] != BACKSLASH && s[i - 1] != NEWLINE);
    }
}

/// A text in quotes turns into spaces together with its quotes, and nothing behind it changes.
pub proof fn law_quoted_texts_are_blanked(q: u8, text: Seq<u8>, b: Seq<u8>)
    requires
        q == SINGLE_QUOTE || q == DOUBLE_QUOTE || q == BACKTICK,
        forall|j: int|
            0 <= j < text.len() ==> #[trigger] text[j] != q && text[j] != BACKSLASH && text[j]
                != NEWLINE,
    ensures
        typescript_tokens::masked(seq![q] + text + seq![q] + b) == spaces(text.len() + 2)
            + typescript_tokens::masked(b),
{
    let a = seq![q] + text + seq![q];
    let s = a + b;
    let n = text.len() as int + 1;
    assert forall|j: int| 1 <= j < n implies #[trigger] s[j] != q && s[j] != BACKSLASH && s[j]
        != NEWLINE by {
        assert(s[j] == text[j - 1]);
    }
    assert(s[0] == q && s[n] == q);
    lemma_quoted(s, q, n, n);
    assert(typescript_tokens::region_at(s, n + 1) == Region::Code);
    lemma_masked_shift(a, b);
    let all = typescript_tokens::masked(s);
    assert forall|i: int| 0 <= i < n + 1 implies #[trigger] all[i] == SPACE by {
        if i >= 1 {
            lemma_quoted(s, q, n, i);
        } else {
            lemma_quoted(s, q, n, 1);
        }
        if 1 <= i < n {
            assert(s[i] != NEWLINE);
        }
    }
    assert(all =~= all.take(n + 1) + all.skip(n + 1));
    assert(all.take(n + 1) =~= spaces(text.len() + 2));
}

proof fn lemma_block_comment(s: Seq<u8>, n: int, i: int)
    requires
        2 <= n,
        n + 1 < s.len(),
        s[0] == SLASH,
        s[1] == STAR,
        s[n] == STAR,
        s[n + 1] == SLASH,
        forall|j: int| 2 <= j < n ==> !(#[trigger] s[j] == STAR && s[j + 1] == SLASH),
        2 <= i <= n,
    ensures
        typescript_tokens::region_at(s, i) == Region::BlockComment,
        typescript_tokens::region_at(s, 1) == Region::BlockOpen,
    decreases i,
{
    assert(typescript_tokens::region_at(s, 0) == Region::Code);
    assert(!typescript_tokens::pair_at(s, 0, SLASH, SLASH));
    assert(typescript_tokens::pair_at(s, 0, SLASH, STAR));
    assert(typescript_tokens::region_at(s, 1) == Region::BlockOpen);
    if i == 2 {
        assert(typescript_tokens::region_at(s, 2) == Region::BlockComment);
    } else {
        lemma_block_comment(s, n, i - 1);
        assert(!(s[i - 1] == STAR && s[i] == SLASH));
    }
}

/// A comment between a slash with a star and a star with a slash turns into spaces, but for the
/// ends of its lines, and nothing behind it changes.
pub proof fn law_block_comments_are_blanked(text: Seq<u8>, b: Seq<u8>)
    requires
        forall|j: int| 0 <= j < text.len() ==> #[trigger] text[j] != STAR,
    ensures
        ({
            let s = seq![SLASH, STAR] + text + seq![STAR, SLASH] + b;
            let n = text.len() as int + 4;
            &&& typescript_tokens::masked(s).skip(n) == typescript_tokens::masked(b)
            &&& forall|i: int|
                0 <= i < n ==> #[trigger] typescript_tokens::masked(s)[i] == (if s[i] == NEWLINE {
                    NEWLINE
                } else {
                    SPACE
                })
        }),
{
    let a = seq![SLASH, STAR] + text + seq![STAR, SLASH];
    let s = a + b;
    let n = text.len() as int + 2;
    assert forall|j: int| 2 <= j < n implies !(#[trigger] s[j] == STAR && s[j + 1] == SLASH) by {
        assert(s[j] == text[j - 2]);
    }
    assert(s[0] == SLASH && s[1] == STAR && s[n] == STAR && s[n + 1] == SLASH);
    lemma_block_comment(s, n, n);
    assert(typescript_tokens::region_at(s, n + 1) == Region::BlockClose);
    assert(typescript_tokens::region_at(s, n + 2) == Region::Code);
    lemma_masked_shift(a, b);
    let all = typescript_tokens::masked(s);
    assert forall|i: int| 0 <= i < n + 2 implies #[trigger] all[i] == (if s[i] == NEWLINE {
        NEWLINE
    } else {
        SPACE
    }) by {
        if 2 <= i < n {
            lemma_block_comment(s, n, i);
        }
    }
}

proof fn lemma_name_end_shift(a: Seq<u8>, b: Seq<u8>, i: int)
    requires
        0 <= i <= b.len(),
    ensures
        typescript_tokens::name_end(a + b, a.len() + i) == a.len() + typescript_tokens::name_end(
            b,
            i,
        ),
    decreases b.len() - i,
{
    if i < b.len() {
        assert((a + b)[a.len() + i] == b[i]);
        lemma_name_end_shift(a, b, i + 1);
    }
}

proof fn lemma_name_end_bound(b: Seq<u8>, i: int)
    requires
        0 <= i <= b.len(),
    ensures
        i <= typescript_tokens::name_end(b, i) <= b.len(),
    decreases b.len() - i,
{
    if i < b.len() && typescript_tokens::continues_name(b[i]) {
        lemma_name_end_bound(b, i + 1);
    }
}

proof fn lemma_name_end_front(a: Seq<u8>, b: Seq<u8>, i: int)
    requires
        0 <= i <= a.len(),
    ensures
        typescript_tokens::name_end(a + seq![NEWLINE] + b, i) == typescript_tokens::name_end(a, i),
    decreases a.len() - i,
{
    let s = a + seq![NEWLINE] + b;
    if i < a.len() {
        assert(s[i] == a[i]);
        lemma_name_end_front(a, b, i + 1);
    } else {
        assert(s[i] == NEWLINE);
    }
}

proof fn lemma_tokens_shift(a: Seq<u8>, b: Seq<u8>, i: int, line: nat)
    requires
        0 <= i,
    ensures
        typescript_tokens::tokens_from(a + b, a.len() + i, line) == typescript_tokens::tokens_from(
            b,
            i,
            line,
        ),
    decreases typescript_tokens::room(b.len(), i),
{
    if i < b.len() {
        let s = a + b;
        let n = a.len() as int;
        assert(s[n + i] == b[i]);
        if i + 1 < b.len() {
            assert(s[n + i + 1] == b[i + 1]);
        }
        lemma_tokens_shift(a, b, i + 1, line);
        lemma_tokens_shift(a, b, i + 1, line + 1);
        lemma_tokens_shift(a, b, i + 2, line);
        lemma_name_end_shift(a, b, i + 1);
        lemma_name_end_bound(b, i + 1);
        let end = typescript_tokens::name_end(b, i + 1);
        lemma_tokens_shift(a, b, end, line);
        assert(s.subrange(n + i, n + end) =~= b.subrange(i, end));
    }
}

/// How many lines end from a place on.
pub open spec fn lines_after(b: Seq<u8>, i: int) -> nat
    decreases b.len() - i,
{
    if 0 <= i < b.len() {
        lines_after(b, i + 1) + (if b[i] == NEWLINE {
            1nat
        } else {
            0
        })
    } else {
        0
    }
}

proof fn lemma_no_lines_in_name(b: Seq<u8>, i: int)
    requires
        0 <= i <= b.len(),
    ensures
        lines_after(b, typescript_tokens::name_end(b, i)) == lines_after(b, i),
    decreases b.len() - i,
{
    if i < b.len() && typescript_tokens::continues_name(b[i]) {
        lemma_no_lines_in_name(b, i + 1);
    }
}

proof fn lemma_tokens_of_lines(a: Seq<u8>, b: Seq<u8>, i: int, line: nat)
    requires
        0 <= i <= a.len(),
    ensures
        typescript_tokens::tokens_from(a + seq![NEWLINE] + b, i, line)
            == typescript_tokens::tokens_from(a, i, line) + typescript_tokens::tokens_from(
            b,
            0,
            line + lines_after(a, i) + 1,
        ),
    decreases a.len() - i,
{
    let s = a + seq![NEWLINE] + b;
    let n = a.len() as int;
    if i == n {
        assert(s[n] == NEWLINE);
        assert((a + seq![NEWLINE]) + b =~= s);
        lemma_tokens_shift(a + seq![NEWLINE], b, 0, line + 1);
        let rest = typescript_tokens::tokens_from(b, 0, line + 1);
        assert(typescript_tokens::tokens_from(a, i, line) + rest =~= rest);
    } else {
        assert(s[i] == a[i]);
        assert(s[i + 1] == (if i + 1 < n {
            a[i + 1]
        } else {
            NEWLINE
        }));
        let rest = typescript_tokens::tokens_from(b, 0, line + lines_after(a, i) + 1);
        if a[i] == NEWLINE {
            lemma_tokens_of_lines(a, b, i + 1, line + 1);
        } else if typescript_tokens::pair_at(a, i, EQUALS, GREATER) {
            lemma_tokens_of_lines(a, b, i + 2, line);
            assert(lines_after(a, i) == lines_after(a, i + 1));
            assert(lines_after(a, i + 1) == lines_after(a, i + 2));
            let one = seq![LineToken { kind: TokenView::Arrow, line }];
            let own = typescript_tokens::tokens_from(a, i + 2, line);
            assert(one + (own + rest) =~= (one + own) + rest);
        } else if typescript_tokens::begins_name(a[i]) {
            let end = typescript_tokens::name_end(a, i + 1);
            lemma_name_end_front(a, b, i + 1);
            lemma_name_end_bound(a, i + 1);
            lemma_no_lines_in_name(a, i + 1);
            assert(!typescript_tokens::pair_at(s, i, EQUALS, GREATER));
            lemma_tokens_of_lines(a, b, end, line);
            assert(s.subrange(i, end) =~= a.subrange(i, end));
            let one = seq![
                LineToken {
                    kind: TokenView::Identifier(
                        typescript_tokens::ascii_text(a.subrange(i, end)),
                    ),
                    line,
                },
            ];
            let own = typescript_tokens::tokens_from(a, end, line);
            assert(one + (own + rest) =~= (one + own) + rest);
        } else {
            lemma_tokens_of_lines(a, b, i + 1, line);
            assert(!typescript_tokens::pair_at(s, i, EQUALS, GREATER));
            let one = seq![LineToken { kind: TokenView::Punct(a[i] as char), line }];
            let own = typescript_tokens::tokens_from(a, i + 1, line);
            assert(one + (own + rest) =~= (one + own) + rest);
        }
    }
}

/// The tokens of a source are those of its lines, each with the number of its line.
pub proof fn law_tokens_of_lines(a: Seq<u8>, b: Seq<u8>, line: nat)
    ensures
        typescript_tokens::tokens_from(a + seq![NEWLINE] + b, 0, line)
            == typescript_tokens::tokens_from(a, 0, line) + typescript_tokens::tokens_from(
            b,
            0,
            line + lines_after(a, 0) + 1,
        ),
{
    lemma_tokens_of_lines(a, b, 0, line);
}

proof fn lemma_name_run(b: Seq<u8>, i: int, n: int)
    requires
        0 <= i <= n <= b.len(),
        forall|j: int| i <= j < n ==> typescript_tokens::continues_name(#[trigger] b[j]),
        n < b.len() ==> !typescript_tokens::continues_name(b[n]),
    ensures
        typescript_tokens::name_end(b, i) == n,
    decreases n - i,
{
    if i < n {
        assert(typescript_tokens::continues_name(b[i]));
        lemma_name_run(b, i + 1, n);
    }
}

/// A name in front of anything that cannot belong to it is one token, and the others are those
/// of what follows; white space gives no token.
pub proof fn law_names_are_tokens(name: Seq<u8>, b: Seq<u8>, line: nat)
    requires
        name.len() > 0,
        typescript_tokens::begins_name(name[0]),
        forall|j: int|
            0 <= j < name.len() ==> typescript_tokens::continues_name(#[trigger] name[j]),
        b.len() > 0 ==> !typescript_tokens::continues_name(b[0]),
    ensures
        typescript_tokens::tokens_from(name + b, 0, line) == seq![
            LineToken {
                kind: TokenView::Identifier(typescript_tokens::ascii_text(name)),
                line,
            },
        ] + typescript_tokens::tokens_from(b, 0, line),
        typescript_tokens::tokens_from(seq![SPACE] + b, 0, line) == typescript_tokens::tokens_from(
            b,
            0,
            line,
        ),
{
    let s = name + b;
    let n = name.len() as int;
    assert(s[0] == name[0]);
    assert forall|j: int| 1 <= j < n implies typescript_tokens::continues_name(#[trigger] s[j]) by {
        assert(s[j] == name[j]);
    }
    if b.len() > 0 {
        assert(s[n] == b[0]);
    }
    lemma_name_run(s, 1, n);
    assert(s.subrange(0, n) =~= name);
    lemma_tokens_shift(name, b, 0, line);
    let t = seq![SPACE] + b;
    assert(t[0] == SPACE);
    lemma_tokens_shift(seq![SPACE], b, 0, line);
}

/// How many of the tokens between two places are the given mark.
pub open spec fn marks(t: Seq<LineToken>, from: int, to: int, c: char) -> nat
    decreases to - from,
{
    if from >= to || from < 0 || from >= t.len() {
        0
    } else {
        marks(t, from + 1, to, c) + (if t[from].kind == TokenView::Punct(c) {
            1nat
        } else {
            0
        })
    }
}

proof fn lemma_closing_balances(
    t: Seq<LineToken>,
    i: int,
    depth: nat,
    open: char,
    close: char,
    j: int,
)
    requires
        open != close,
        0 <= i,
    ensures
        typescript_symbols::closing_from(t, i, depth, open, close) matches Some(e) ==> {
            &&& depth >= 1 ==> depth + marks(t, i, e + 1, open) == marks(t, i, e + 1, close)
            &&& depth >= 1 && i <= j <= e ==> depth + marks(t, i, j, open) > marks(t, i, j, close)
        },
    decreases t.len() - i,
{
    if i < t.len() && depth >= 1 {
        if t[i].kind == TokenView::Punct(open) {
            lemma_closing_balances(t, i + 1, depth + 1, open, close, j);
            typescript_symbols::lemma_closing(t, i + 1, depth + 1, open, close);
        } else if t[i].kind == TokenView::Punct(close) {
            if depth > 1 {
                lemma_closing_balances(t, i + 1, (depth - 1) as nat, open, close, j);
                typescript_symbols::lemma_closing(t, i + 1, (depth - 1) as nat, open, close);
            } else {
                assert(marks(t, i + 1, i + 1, close) == 0);
                assert(marks(t, i + 1, i + 1, open) == 0);
            }
        } else {
            lemma_closing_balances(t, i + 1, depth, open, close, j);
            typescript_symbols::lemma_closing(t, i + 1, depth, open, close);
        }
    }
}

/// The mark that closes another is the first one up to which as many marks close as open.
pub proof fn law_closing_marks_balance(
    t: Seq<LineToken>,
    start: int,
    open: char,
    close: char,
    j: int,
)
    requires
        open != close,
        typescript_symbols::closing(t, start, open, close) is Some,
    ensures
        ({
            let e = typescript_symbols::closing(t, start, open, close).unwrap();
            &&& start < e < t.len()
            &&& t[e].kind == TokenView::Punct(close)
            &&& marks(t, start, e + 1, open) == marks(t, start, e + 1, close)
            &&& start < j <= e ==> marks(t, start, j, open) > marks(t, start, j, close)
        }),
{
    lemma_closing_balances(t, start + 1, 1, open, close, j);
    typescript_symbols::lemma_closing(t, start + 1, 1, open, close);
    assert(t[start].kind == TokenView::Punct(open));
    assert(typescript_symbols::closing_from(t, start, 0, open, close)
        == typescript_symbols::closing_from(t, start + 1, 1, open, close));
}

/// Whether a token opens or closes nothing.
pub open spec fn is_flat(k: TokenView) -> bool {
    match k {
        TokenView::Punct(c) => c != '(' && c != ')' && c != '[' && c != ']' && c != '{' && c != '}'
            && c != '<' && c != '>',
        _ => true,
    }
}

/// Where nothing is opened on the way, a search stops at the first token that it looks for.
pub proof fn law_searches_stop_at_the_first(
    t: Seq<LineToken>,
    i: int,
    k: int,
    end: int,
    stop: Stop,
)
    requires
        0 <= i <= k < t.len(),
        k <= end,
        typescript_symbols::stops(t[k].kind, stop),
        forall|j: int|
            i <= j < k ==> is_flat((#[trigger] t[j]).kind) && !typescript_symbols::stops(
                t[j].kind,
                stop,
            ),
    ensures
        typescript_symbols::stop_from(t, i, end, typescript_symbols::level(), stop) == Some(k),
    decreases k - i,
{
    if i < k {
        assert(is_flat(t[i].kind));
        law_searches_stop_at_the_first(t, i + 1, k, end, stop);
    }
}

/// Whether a symbol is what a declaration at a place declares.
pub open spec fn declares(
    s: SymbolView,
    path: Seq<char>,
    t: Seq<LineToken>,
    at: int,
    kind: SymbolKind,
) -> bool {
    &&& s.kind == kind
    &&& s.file_path == path
    &&& s.line_start == t[at].line
    &&& typescript_symbols::name_at(t, at + 1) matches Some(name) ==> s.name == name
}

/// A function, a class, an interface or an enumeration has a symbol of its own, behind any
/// modifiers, and the symbols of what follows its body come after it: none is lost.
pub proof fn law_declarations_have_symbols(path: Seq<char>, t: Seq<LineToken>, i: int, at: int)
    requires
        0 <= i < t.len(),
        at == typescript_symbols::after_words(t, i, typescript_symbols::declaration_modifiers()),
        0 <= at < t.len(),
        !typescript_symbols::punct_at(t, i, '{'),
        t[at].line <= u32::MAX,
    ensures
        ({
            let all = typescript_symbols::symbols_from(path, t, i);
            let word = typescript_symbols::name_at(t, at);
            let rest = typescript_symbols::symbols_from(
                path,
                t,
                typescript_symbols::further(typescript_symbols::after_body(t, at), i + 1),
            );
            &&& word == Some("function"@) ==> {
                &&& all.len() > 0
                &&& declares(all[0], path, t, at, SymbolKind::Function)
                &&& all.skip(1) == rest
            }
            &&& word == Some("class"@) ==> {
                &&& all.len() > 0
                &&& declares(all[0], path, t, at, SymbolKind::Struct)
                &&& all.skip(1) == rest
            }
            &&& word == Some("interface"@) ==> {
                &&& all.len() > 0
                &&& declares(all[0], path, t, at, SymbolKind::Trait)
                &&& all.skip(1) == rest
            }
            &&& word == Some("enum"@) ==> {
                &&& all.len() > 0
                &&& declares(all[0], path, t, at, SymbolKind::Enum)
                &&& all.skip(1) == rest
            }
        }),
{
    reveal_strlit("function");
    reveal_strlit("class");
    reveal_strlit("interface");
    reveal_strlit("enum");
    assert("function"@.len() == 8 && "class"@.len() == 5 && "interface"@.len() == 9);
    assert("enum"@.len() == 4);
    let all = typescript_symbols::symbols_from(path, t, i);
    let word = typescript_symbols::name_at(t, at);
    if word == Some("function"@) || word == Some("class"@) || word == Some("interface"@) || word
        == Some("enum"@) {
        let rest = typescript_symbols::symbols_from(
            path,
            t,
            typescript_symbols::further(typescript_symbols::after_body(t, at), i + 1),
        );
        assert(all.skip(1) =~= rest);
    }
}

/// What stands in a block has no symbols of its own: reading goes on behind the block.
pub proof fn law_blocks_hide_what_they_hold(path: Seq<char>, t: Seq<LineToken>, i: int)
    requires
        typescript_symbols::punct_at(t, i, '{'),
    ensures
        match typescript_symbols::closing(t, i, '{', '}') {
            Some(e) => typescript_symbols::symbols_from(path, t, i)
                == typescript_symbols::symbols_from(path, t, e + 1),
            None => typescript_symbols::symbols_from(path, t, i).len() == 0,
        },
{
}

/// What a variable is set to makes it a function if it is a function or has an arrow, and a
/// structure if it is a class; any other variable has no symbol.
pub proof fn law_initializers(t: Seq<LineToken>, init: int, end: int)
    requires
        0 <= init <= end,
        init < t.len(),
    ensures
        ({
            let at = typescript_symbols::after_words(
                t,
                init,
                typescript_symbols::initializer_modifiers(),
            );
            let word = typescript_symbols::name_at(t, at);
            let arrow = typescript_symbols::stop_from(
                t,
                init,
                end,
                typescript_symbols::level(),
                Stop::Arrow,
            ) is Some;
            let made = typescript_symbols::initializer(t, init, end);
            &&& made is Some <==> word == Some("function"@) || word == Some("class"@) || arrow
            &&& made matches Some((kind, line)) ==> (kind == SymbolKind::Struct <==> word == Some(
                "class"@,
            )) && (kind == SymbolKind::Function <==> word != Some("class"@))
        }),
{
    reveal_strlit("function");
    reveal_strlit("class");
    assert("function"@.len() == 8 && "class"@.len() == 5);
}

/// Every variable of a declaration is looked at: behind one that is set to something the others
/// follow.
pub proof fn law_every_variable_is_read(path: Seq<char>, t: Seq<LineToken>, i: int, end: int)
    requires
        0 <= i <= end,
        i < t.len(),
        typescript_symbols::name_at(t, i) is Some,
        typescript_symbols::punct_at(t, i + 1, '='),
    ensures
        ({
            let stop = typescript_symbols::declarator_end(t, i + 2, end);
            typescript_symbols::declarators(path, t, i, end)
                == typescript_symbols::declarator_symbol(path, t, i, i + 2, end)
                + typescript_symbols::declarators(path, t, stop + 1, end)
        }),
{
    assert(typescript_symbols::to_name(t, i, end) == i);
    assert(typescript_symbols::after_marks(t, i + 1) == i + 1);
    assert(typescript_symbols::after_binding(t, i, end) == i + 1);
}

/// A variable that is set to a function, a class or an arrow has a symbol with its name and
/// place.
pub proof fn law_made_variables_have_symbols(
    path: Seq<char>,
    t: Seq<LineToken>,
    at: int,
    init: int,
    end: int,
)
    requires
        0 <= at < t.len(),
        t[at].line <= u32::MAX,
        typescript_symbols::name_at(t, at) is Some,
    ensures
        ({
            let found = typescript_symbols::declarator_symbol(path, t, at, init, end);
            let made = typescript_symbols::initializer(
                t,
                init,
                typescript_symbols::declarator_end(t, init, end),
            );
            &&& made is Some <==> found.len() == 1
            &&& made is None <==> found.len() == 0
            &&& made is Some ==> {
                &&& Some(found[0].name) == typescript_symbols::name_at(t, at)
                &&& found[0].kind == made.unwrap().0
                &&& found[0].line_start == t[at].line
                &&& found[0].file_path == path
            }
        }),
{
}

/// A generator function is named behind its star, any other function behind its keyword, and one
/// without a name is the default.
pub proof fn law_functions_are_named(path: Seq<char>, t: Seq<LineToken>, at: int)
    requires
        0 <= at < t.len(),
    ensures
        ({
            let s = typescript_symbols::function_symbol(path, t, at);
            let starred = typescript_symbols::punct_at(t, at + 1, '*');
            let name = typescript_symbols::name_at(
                t,
                if starred {
                    at + 2
                } else {
                    at + 1
                },
            );
            &&& name is Some ==> Some(s.name) == name
            &&& name is None ==> s.name == "default"@
        }),
{
}

/// A declaration ends on the line of the brace that closes its body, or of the semicolon where
/// it has none, and reading goes on behind that.
pub proof fn law_declarations_end_with_their_bodies(t: Seq<LineToken>, start: int, k: int)
    requires
        typescript_symbols::stop_from(
            t,
            start,
            t.len() as int,
            typescript_symbols::level(),
            Stop::Body,
        ) == Some(k),
    ensures
        typescript_symbols::punct_at(t, k, '{') ==> match typescript_symbols::closing(
            t,
            k,
            '{',
            '}',
        ) {
            Some(e) => typescript_symbols::body_end_line(t, start) == Some(t[e].line as u32)
                && typescript_symbols::after_body(t, start) == e + 1,
            None => typescript_symbols::body_end_line(t, start) is None
                && typescript_symbols::after_body(t, start) == t.len(),
        },
        !typescript_symbols::punct_at(t, k, '{') ==> typescript_symbols::body_end_line(t, start)
            == Some(t[k].line as u32) && typescript_symbols::after_body(t, start) == k + 1,
{
}

proof fn lemma_escaped(s: Seq<u8>, q: u8, e: int, n: int, i: int)
    requires
        q == SINGLE_QUOTE || q == DOUBLE_QUOTE || q == BACKTICK,
        1 <= e,
        e + 2 <= n < s.len(),
        s[0] == q,
        s[n] == q,
        s[e] == BACKSLASH,
        s[e + 1] != NEWLINE,
        forall|j: int|
            1 <= j < n && j != e && j != e + 1 ==> #[trigger] s[j] != q && s[j] != BACKSLASH && s[j]
                != NEWLINE,
        1 <= i <= n,
    ensures
        typescript_tokens::region_at(s, i) == (Region::Quoted { quote: q, escaped: i == e + 1 }),
    decreases i,
{
    assert(typescript_tokens::region_at(s, 0) == Region::Code);
    if i == 1 {
        assert(!typescript_tokens::pair_at(s, 0, SLASH, SLASH));
        assert(!typescript_tokens::pair_at(s, 0, SLASH, STAR));
    } else {
        lemma_escaped(s, q, e, n, i - 1);
        if i - 1 != e && i - 1 != e + 1 {
            assert(s[i - 1] != q && s[i - 1] != BACKSLASH && s[i - 1] != NEWLINE);
        }
    }
}

/// A character behind a backslash never ends a quoted text, be it the quote itself or another
/// backslash: the text goes on to the quote that does.
pub proof fn law_escaped_quotes_do_not_end_texts(
    q: u8,
    a: Seq<u8>,
    c: u8,
    b: Seq<u8>,
    rest: Seq<u8>,
)
    requires
        q == SINGLE_QUOTE || q == DOUBLE_QUOTE || q == BACKTICK,
        c != NEWLINE,
        forall|j: int|
            0 <= j < a.len() ==> #[trigger] a[j] != q && a[j] != BACKSLASH && a[j] != NEWLINE,
        forall|j: int|
            0 <= j < b.len() ==> #[trigger] b[j] != q && b[j] != BACKSLASH && b[j] != NEWLINE,
    ensures
        typescript_tokens::masked(seq![q] + a + seq![BACKSLASH, c] + b + seq![q] + rest) == spaces(
            a.len() + b.len() + 4,
        ) + typescript_tokens::masked(rest),
{
    let t = seq![q] + a + seq![BACKSLASH, c] + b + seq![q];
    let s = t + rest;
    let e = a.len() as int + 1;
    let n = a.len() as int + b.len() + 3;
    assert(s[0] == q && s[n] == q && s[e] == BACKSLASH && s[e + 1] == c);
    assert forall|j: int| 1 <= j < n && j != e && j != e + 1 implies #[trigger] s[j] != q && s[j]
        != BACKSLASH && s[j] != NEWLINE by {
        if j < e {
            assert(s[j] == a[j - 1]);
        } else {
            assert(s[j] == b[j - e - 2]);
        }
    }
    lemma_escaped(s, q, e, n, n);
    assert(typescript_tokens::region_at(s, n + 1) == Region::Code);
    lemma_masked_shift(t, rest);
    let all = typescript_tokens::masked(s);
    assert forall|i: int| 0 <= i < n + 1 implies #[trigger] all[i] == SPACE by {
        if i >= 1 {
            lemma_escaped(s, q, e, n, i);
        } else {
            lemma_escaped(s, q, e, n, 1);
        }
        if 1 <= i < n && i != e && i != e + 1 {
            assert(s[i] != NEWLINE);
        }
    }
    assert(all =~= all.take(n + 1) + all.skip(n + 1));
    assert(all.take(n + 1) =~= spaces(a.len() + b.len() + 4));
}

/// A variable that is set to nothing ends at the first comma or semicolon, and the next one is
/// read behind it.
pub proof fn law_unset_variables_are_passed(t: Seq<LineToken>, i: int, k: int, end: int)
    requires
        0 <= i <= k <= end,
        k < t.len(),
        typescript_symbols::punct_at(t, k, ',') || typescript_symbols::punct_at(t, k, ';'),
        forall|j: int|
            i <= j < k ==> !(#[trigger] typescript_symbols::punct_at(t, j, ','))
                && !typescript_symbols::punct_at(t, j, ';'),
    ensures
        typescript_symbols::after_declarator(t, i, end) == k + 1,
    decreases k - i,
{
    if i < k {
        assert(!typescript_symbols::punct_at(t, i, ','));
        law_unset_variables_are_passed(t, i + 1, k, end);
    }
}

/// A variable without a value is passed over, and the variables behind it are read.
pub proof fn law_variables_behind_unset_ones_are_read(
    path: Seq<char>,
    t: Seq<LineToken>,
    i: int,
    end: int,
)
    requires
        0 <= i,
        i + 2 <= end,
        i + 2 < t.len(),
        typescript_symbols::name_at(t, i) is Some,
        typescript_symbols::punct_at(t, i + 1, ','),
    ensures
        typescript_symbols::declarators(path, t, i, end) == typescript_symbols::declarators(
            path,
            t,
            i + 2,
            end,
        ),
{
    assert(typescript_symbols::to_name(t, i, end) == i);
    assert(typescript_symbols::after_marks(t, i + 1) == i + 1);
    assert(typescript_symbols::after_binding(t, i, end) == i + 1);
    assert(typescript_symbols::after_declarator(t, i + 1, end) == i + 2);
}

/// A function with an arrow ends with the brace that closes its body, or where its declaration
/// ends if it has none.
pub proof fn law_arrows_end_with_their_bodies(t: Seq<LineToken>, at: int, end: int)
    requires
        0 <= at <= end,
        end < t.len(),
    ensures
        typescript_symbols::punct_at(t, at, '{') ==> match typescript_symbols::closing(
            t,
            at,
            '{',
            '}',
        ) {
            Some(e) => typescript_symbols::arrow_end_line(t, at, end) == Some(t[e].line as u32),
            None => typescript_symbols::arrow_end_line(t, at, end) is None,
        },
        !typescript_symbols::punct_at(t, at, '{') ==> typescript_symbols::arrow_end_line(
            t,
            at,
            end,
        ) == Some(t[end].line as u32),
{
}

/// Modifiers in front of a declaration are passed over, as many as there are.
pub proof fn law_modifiers_are_passed(
    t: Seq<LineToken>,
    i: int,
    k: int,
    words: Seq<Seq<char>>,
)
    requires
        0 <= i <= k <= t.len(),
        forall|j: int| i <= j < k ==> #[trigger] is_one_of(t, j, words),
        !is_one_of(t, k, words),
    ensures
        typescript_symbols::after_words(t, i, words) == k,
    decreases k - i,
{
    if i < k {
        assert(is_one_of(t, i, words));
        law_modifiers_are_passed(t, i + 1, k, words);
    }
}

/// Whether a token is one of the given words.
pub open spec fn is_one_of(t: Seq<LineToken>, i: int, words: Seq<Seq<char>>) -> bool {
    typescript_symbols::name_at(t, i) matches Some(w) && words.contains(w)
}

} // verus!
