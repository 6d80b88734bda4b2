//! Masking and tokenizing TypeScript source.
//!
//! Comments and string literals are blanked first, so that the tokenizer sees code only.
//! Both work on the bytes of the source; bytes outside ASCII never begin a token.
use vstd::prelude::*;
use vstd::string::*;

verus! {

pub const NEWLINE: u8 = 10;

pub const SPACE: u8 = 32;

pub const DOUBLE_QUOTE: u8 = 34;

pub const SINGLE_QUOTE: u8 = 39;

pub const STAR: u8 = 42;

pub const SLASH: u8 = 47;

pub const EQUALS: u8 = 61;

pub const GREATER: u8 = 62;

pub const BACKSLASH: u8 = 92;

pub const BACKTICK: u8 = 96;

/// What the bytes at a position of the source belong to.
#[derive(Clone, Copy, PartialEq, Eq, Structural)]
pub enum Region {
    Code,
    /// The second byte of `//`.
    LineOpen,
    LineComment,
    /// The second byte of `/*`.
    BlockOpen,
    BlockComment,
    /// The second byte of `*/`.
    BlockClose,
    /// Inside a literal that ends at the next `quote` that is not escaped.
    Quoted { quote: u8, escaped: bool },
}

/// Whether the bytes `first` and `second` stand at position `i`.
pub open spec fn pair_at(b: Seq<u8>, i: int, first: u8, second: u8) -> bool {
    0 <= i && i + 1 < b.len() && b[i] == first && b[i + 1] == second
}

/// The region after the byte at position `i`, which belongs to region `r`.
pub open spec fn region_after(b: Seq<u8>, i: int, r: Region) -> Region {
    match r {
        Region::Code => if pair_at(b, i, SLASH, SLASH) {
            Region::LineOpen
        } else if pair_at(b, i, SLASH, STAR) {
            Region::BlockOpen
        } else if b[i] == SINGLE_QUOTE || b[i] == DOUBLE_QUOTE || b[i] == BACKTICK {
            Region::Quoted { quote: b[i], escaped: false }
        } else {
            Region::Code
        },
        Region::LineOpen => Region::LineComment,
        Region::LineComment => if b[i] == NEWLINE {
            Region::Code
        } else {
            Region::LineComment
        },
        Region::BlockOpen => Region::BlockComment,
        Region::BlockComment => if pair_at(b, i, STAR, SLASH) {
            Region::BlockClose
        } else {
            Region::BlockComment
        },
        Region::BlockClose => Region::Code,
        Region::Quoted { quote, escaped } => if b[i] == NEWLINE {
            Region::Quoted { quote, escaped: false }
        } else if !escaped && b[i] == quote {
            Region::Code
        } else {
            Region::Quoted { quote, escaped: !escaped && b[i] == BACKSLASH }
        },
    }
}

/// The region that the byte at position `i` belongs to.
pub open spec fn region_at(b: Seq<u8>, i: int) -> Region
    decreases i,
{
    if i <= 0 {
        Region::Code
    } else {
        region_after(b, i - 1, region_at(b, i - 1))
    }
}

/// The byte at position `i` after masking: newlines stay, and so does code; anything else
/// becomes a space.
pub open spec fn masked_byte(b: Seq<u8>, i: int) -> u8 {
    if b[i] == NEWLINE {
        NEWLINE
    } else if region_at(b, i) == Region::Code && region_at(b, i + 1) == Region::Code {
        b[i]
    } else {
        SPACE
    }
}

/// The source with comments and literals blanked.
pub open spec fn masked(b: Seq<u8>) -> Seq<u8> {
    Seq::new(b.len(), |i: int| masked_byte(b, i))
}

fn next_region(b: &[u8], i: usize, r: Region) -> (n: Region)
    requires
        i < b@.len(),
    ensures
        n == region_after(b@, i as int, r),
{
    let more = i < b.len() - 1;
    match r {
        Region::Code => {
            if more && b[i] == SLASH && b[i + 1] == SLASH {
                Region::LineOpen
            } else if more && b[i] == SLASH && b[i + 1] == STAR {
                Region::BlockOpen
            } else if b[i] == SINGLE_QUOTE || b[i] == DOUBLE_QUOTE || b[i] == BACKTICK {
                Region::Quoted { quote: b[i], escaped: false }
            } else {
                Region::Code
            }
        },
        Region::LineOpen => Region::LineComment,
        Region::LineComment => {
            if b[i] == NEWLINE {
                Region::Code
            } else {
                Region::LineComment
            }
        },
        Region::BlockOpen => Region::BlockComment,
        Region::BlockComment => {
            if more && b[i] == STAR && b[i + 1] == SLASH {
                Region::BlockClose
            } else {
                Region::BlockComment
            }
        },
        Region::BlockClose => Region::Code,
        Region::Quoted { quote, escaped } => {
            if b[i] == NEWLINE {
                Region::Quoted { quote, escaped: false }
            } else if !escaped && b[i] == quote {
                Region::Code
            } else {
                Region::Quoted { quote, escaped: !escaped && b[i] == BACKSLASH }
            }
        },
    }
}

/// Blanks the comments and literals of TypeScript source.
pub fn mask_typescript_non_code(b: &[u8]) -> (r: Vec<u8>)
    ensures
        r@ == masked(b@),
{
    let mut out: Vec<u8> = Vec::new();
    let mut region = Region::Code;
    let mut i: usize = 0;
    while i < b.len()
        invariant
            i <= b@.len(),
            region == region_at(b@, i as int),
            out@ == masked(b@).take(i as int),
        decreases b@.len() - i,
    {
        let after = next_region(b, i, region);
        proof {
            assert(after == region_at(b@, i + 1));
            assert(masked(b@).take(i + 1) =~= masked(b@).take(i as int).push(
                masked_byte(b@, i as int),
            ));
        }
        if b[i] == NEWLINE {
            out.push(NEWLINE);
        } else if region == Region::Code && after == Region::Code {
            out.push(b[i]);
        } else {
            out.push(SPACE);
        }
        region = after;
        i = i + 1;
    }
    proof {
        assert(masked(b@).take(b@.len() as int) =~= masked(b@));
    }
    out
}

/// Masking keeps the length and every newline.
pub proof fn law_masking_keeps_lines(b: Seq<u8>)
    ensures
        masked(b).len() == b.len(),
        forall|i: int| 0 <= i < b.len() ==> (#[trigger] masked(b)[i] == NEWLINE <==> b[i] == NEWLINE),
{
}

/// Masked source has nothing left to mask.
pub proof fn law_masking_is_idempotent(b: Seq<u8>)
    ensures
        masked(masked(b)) == masked(b),
{
    let m = masked(b);
    assert forall|i: int| 0 <= i <= m.len() implies #[trigger] region_at(m, i)
        == Region::Code by {
        lemma_masked_is_code(b, i);
    }
    assert forall|i: int| 0 <= i < m.len() implies masked(m)[i] == m[i] by {
        assert(region_at(m, i) == Region::Code);
        assert(region_at(m, i + 1) == Region::Code);
    }
    assert(masked(m) =~= m);
}

proof fn lemma_masked_is_code(b: Seq<u8>, i: int)
    requires
        0 <= i <= b.len(),
    ensures
        region_at(masked(b), i) == Region::Code,
    decreases i,
{
    let m = masked(b);
    if i > 0 {
        lemma_masked_is_code(b, i - 1);
        let k = i - 1;
        assert(m[k] == masked_byte(b, k));
        assert(region_at(b, k + 1) == region_after(b, k, region_at(b, k)));
        if k + 1 < m.len() {
            assert(m[k + 1] == masked_byte(b, k + 1));
        }
    }
}

/// What a token is.
#[verifier::ext_equal]
pub enum TokenView {
    Identifier(Seq<char>),
    Punct(char),
    Arrow,
}

/// A token with its line, counted from one.
#[verifier::ext_equal]
pub struct LineToken {
    pub kind: TokenView,
    pub line: nat,
}

/// What a token of TypeScript source is.
pub enum TsTokenKind {
    Identifier(String),
    Punct(char),
    Arrow,
}

/// A token of TypeScript source with its line, counted from one.
pub struct TsToken {
    pub kind: TsTokenKind,
    pub line: u32,
}

impl View for TsTokenKind {
    type V = TokenView;

    open spec fn view(&self) -> TokenView {
        match self {
            TsTokenKind::Identifier(name) => TokenView::Identifier(name@),
            TsTokenKind::Punct(c) => TokenView::Punct(*c),
            TsTokenKind::Arrow => TokenView::Arrow,
        }
    }
}

impl View for TsToken {
    type V = LineToken;

    open spec fn view(&self) -> LineToken {
        LineToken { kind: self.kind@, line: self.line as nat }
    }
}

/// What a sequence of tokens stands for.
pub open spec fn tokens_view(v: Seq<TsToken>) -> Seq<LineToken> {
    Seq::new(v.len(), |i: int| v[i]@)
}

/// Whether a byte can begin an identifier.
pub open spec fn begins_name(c: u8) -> bool {
    c == 95 || c == 36 || 65 <= c <= 90 || 97 <= c <= 122
}

/// Whether a byte can continue an identifier.
pub open spec fn continues_name(c: u8) -> bool {
    begins_name(c) || 48 <= c <= 57
}

/// Whether a byte is a token of its own: one of `{}()[];,:=<>?!*.`.
pub open spec fn is_punct_byte(c: u8) -> bool {
    c == 123 || c == 125 || c == 40 || c == 41 || c == 91 || c == 93 || c == 59 || c == 44 || c
        == 58 || c == 61 || c == 60 || c == 62 || c == 63 || c == 33 || c == 42 || c == 46
}

/// The end of the identifier that continues at `i`.
pub open spec fn name_end(b: Seq<u8>, i: int) -> int
    decreases b.len() - i,
{
    if 0 <= i < b.len() && continues_name(b[i]) {
        name_end(b, i + 1)
    } else {
        i
    }
}

/// The text of ASCII bytes.
pub open spec fn ascii_text(b: Seq<u8>) -> Seq<char> {
    Seq::new(b.len(), |i: int| b[i] as char)
}

/// Room left from position `i` on.
pub open spec fn room(len: nat, i: int) -> nat {
    if i < len {
        (len - i) as nat
    } else {
        0
    }
}

/// The tokens of (masked) source from position `i` on, which stands on the given line.
pub open spec fn tokens_from(b: Seq<u8>, i: int, line: nat) -> Seq<LineToken>
    decreases room(b.len(), i),
{
    if i < 0 || i >= b.len() {
        Seq::<LineToken>::empty()
    } else if b[i] == NEWLINE {
        tokens_from(b, i + 1, line + 1)
    } else if pair_at(b, i, EQUALS, GREATER) {
        seq![LineToken { kind: TokenView::Arrow, line }] + tokens_from(b, i + 2, line)
    } else if begins_name(b[i]) {
        let end = name_end(b, i + 1);
        if end > i {
            seq![
                LineToken {
                    kind: TokenView::Identifier(ascii_text(b.subrange(i, end))),
                    line,
                },
            ] + tokens_from(b, end, line)
        } else {
            Seq::<LineToken>::empty()
        }
    } else if is_punct_byte(b[i]) {
        seq![LineToken { kind: TokenView::Punct(b[i] as char), line }] + tokens_from(
            b,
            i + 1,
            line,
        )
    } else {
        tokens_from(b, i + 1, line)
    }
}

/// The number of newlines in the first `n` bytes.
pub open spec fn newlines(b: Seq<u8>, n: int) -> nat
    decreases n,
{
    if n <= 0 || n > b.len() {
        0
    } else {
        newlines(b, n - 1) + (if b[n - 1] == NEWLINE {
            1nat
        } else {
            0nat
        })
    }
}

proof fn lemma_newlines_grow(b: Seq<u8>, n: int, m: int)
    requires
        0 <= n <= m <= b.len(),
    ensures
        newlines(b, n) <= newlines(b, m),
    decreases m - n,
{
    if n < m {
        lemma_newlines_grow(b, n, m - 1);
    }
}

fn is_typescript_identifier_start(c: u8) -> (r: bool)
    ensures
        r == begins_name(c),
{
    c == 95 || c == 36 || (65 <= c && c <= 90) || (97 <= c && c <= 122)
}

fn is_typescript_identifier_continue(c: u8) -> (r: bool)
    ensures
        r == continues_name(c),
{
    is_typescript_identifier_start(c) || (48 <= c && c <= 57)
}

fn is_punct(c: u8) -> (r: bool)
    ensures
        r == is_punct_byte(c),
{
    c == 123 || c == 125 || c == 40 || c == 41 || c == 91 || c == 93 || c == 59 || c == 44 || c
        == 58 || c == 61 || c == 60 || c == 62 || c == 63 || c == 33 || c == 42 || c == 46
}

fn ascii_name(b: &[u8], from: usize, to: usize) -> (r: String)
    requires
        from <= to <= b@.len(),
    ensures
        r@ == ascii_text(b@.subrange(from as int, to as int)),
{
    let mut out: String = String::new();
    let mut i: usize = from;
    while i < to
        invariant
            from <= i <= to <= b@.len(),
            out@ == ascii_text(b@.subrange(from as int, i as int)),
        decreases to - i,
    {
        proof {
            assert(ascii_text(b@.subrange(from as int, i + 1)) =~= ascii_text(
                b@.subrange(from as int, i as int),
            ).push(b@[i as int] as char));
        }
        out.push(b[i] as char);
        i = i + 1;
    }
    out
}

fn find_name_end(b: &[u8], from: usize) -> (r: usize)
    requires
        from <= b@.len(),
    ensures
        r == name_end(b@, from as int),
        from <= r <= b@.len(),
        forall|k: int| from <= k < r ==> b@[k] != NEWLINE,
{
    let mut i: usize = from;
    while i < b.len() && is_typescript_identifier_continue(b[i])
        invariant
            from <= i <= b@.len(),
            name_end(b@, from as int) == name_end(b@, i as int),
            forall|k: int| from <= k < i ==> b@[k] != NEWLINE,
        decreases b@.len() - i,
    {
        i = i + 1;
    }
    i
}

proof fn lemma_no_newlines(b: Seq<u8>, n: int, m: int)
    requires
        0 <= n <= m <= b.len(),
        forall|k: int| n <= k < m ==> b[k] != NEWLINE,
    ensures
        newlines(b, n) == newlines(b, m),
    decreases m - n,
{
    if n < m {
        lemma_no_newlines(b, n, m - 1);
    }
}

proof fn lemma_tokens_push(v: Seq<TsToken>, t: TsToken)
    ensures
        tokens_view(v.push(t)) == tokens_view(v).push(t@),
{
    assert(tokens_view(v.push(t)) =~= tokens_view(v).push(t@));
}

/// Splits (masked) TypeScript source into tokens.
pub fn tokenize_typescript(b: &[u8]) -> (r: Vec<TsToken>)
    requires
        newlines(b@, b@.len() as int) < u32::MAX,
    ensures
        tokens_view(r@) == tokens_from(b@, 0, 1),
{
    let mut tokens: Vec<TsToken> = Vec::new();
    let n: usize = b.len();
    let mut i: usize = 0;
    let mut line: u32 = 1;
    proof {
        assert(tokens_view(tokens@) =~= Seq::<LineToken>::empty());
        assert(Seq::<LineToken>::empty() + tokens_from(b@, 0, 1) =~= tokens_from(b@, 0, 1));
    }
    while i < n
        invariant
            n == b@.len(),
            i <= n,
            newlines(b@, n as int) < u32::MAX,
            line == 1 + newlines(b@, i as int),
            tokens_view(tokens@) + tokens_from(b@, i as int, line as nat) == tokens_from(b@, 0, 1),
        decreases n - i,
    {
        let ghost head = tokens@;
        let ghost at = i as int;
        let ghost rest = tokens_from(b@, at, line as nat);
        let c = b[i];
        proof {
            lemma_newlines_grow(b@, i + 1, n as int);
        }
        if c == NEWLINE {
            line = line + 1;
            i = i + 1;
        } else if c == EQUALS && i < n - 1 && b[i + 1] == GREATER {
            let token = TsToken { kind: TsTokenKind::Arrow, line };
            tokens.push(token);
            proof {
                lemma_no_newlines(b@, at, at + 2);
                lemma_tokens_push(head, token);
                let tail = tokens_from(b@, at + 2, line as nat);
                assert(tokens_view(head) + (seq![token@] + tail) =~= tokens_view(head).push(
                    token@,
                ) + tail);
            }
            i = i + 2;
        } else if is_typescript_identifier_start(c) {
            let end = find_name_end(b, i + 1);
            let name = ascii_name(b, i, end);
            let token = TsToken { kind: TsTokenKind::Identifier(name), line };
            tokens.push(token);
            proof {
                lemma_no_newlines(b@, at, end as int);
                lemma_tokens_push(head, token);
                let tail = tokens_from(b@, end as int, line as nat);
                assert(tokens_view(head) + (seq![token@] + tail) =~= tokens_view(head).push(
                    token@,
                ) + tail);
            }
            i = end;
        } else if is_punct(c) {
            let token = TsToken { kind: TsTokenKind::Punct(c as char), line };
            tokens.push(token);
            proof {
                lemma_tokens_push(head, token);
                let tail = tokens_from(b@, at + 1, line as nat);
                assert(tokens_view(head) + (seq![token@] + tail) =~= tokens_view(head).push(
                    token@,
                ) + tail);
            }
            i = i + 1;
        } else {
            i = i + 1;
        }
    }
    proof {
        assert(tokens_view(tokens@) + Seq::<LineToken>::empty() =~= tokens_view(tokens@));
    }
    tokens
}

} // verus!
