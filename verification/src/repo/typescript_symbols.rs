//! Top-level symbols of TypeScript source.
//!
//! Functions, classes, interfaces and enums at the top level are symbols, and so are
//! variables that are initialized with a function, a class or an arrow function.
use crate::repo::symbols;
use crate::repo::symbols::{
    new_symbol_with_lines, sort_symbols, Symbol, SymbolKind, SymbolView,
};
use crate::repo::typescript_tokens;
use crate::repo::typescript_tokens::{
    mask_typescript_non_code, tokenize_typescript, LineToken, TokenView, TsToken, TsTokenKind,
};
use crate::text::chars::own;
use vstd::prelude::*;
use vstd::string::*;

verus! {

broadcast use symbols::lemma_symbols_push;

/// Whether the token at `i` is the punctuation `c`.
pub open spec fn punct_at(t: Seq<LineToken>, i: int, c: char) -> bool {
    0 <= i < t.len() && t[i].kind == TokenView::Punct(c)
}

/// The identifier at `i`.
pub open spec fn name_at(t: Seq<LineToken>, i: int) -> Option<Seq<char>> {
    if 0 <= i < t.len() {
        match t[i].kind {
            TokenView::Identifier(name) => Some(name),
            _ => None,
        }
    } else {
        None
    }
}

/// How many brackets of each kind are open.
#[verifier::ext_equal]
pub struct Depth {
    pub paren: nat,
    pub bracket: nat,
    pub brace: nat,
    pub angle: nat,
}

/// No open bracket.
pub open spec fn level() -> Depth {
    Depth { paren: 0, bracket: 0, brace: 0, angle: 0 }
}

/// One less, but not below zero.
pub open spec fn one_less(n: nat) -> nat {
    if n > 0 {
        (n - 1) as nat
    } else {
        0
    }
}

/// The open brackets after a token.
pub open spec fn depth_after(d: Depth, kind: TokenView, braces: bool) -> Depth {
    match kind {
        TokenView::Punct(c) => if c == '(' {
            Depth { paren: d.paren + 1, ..d }
        } else if c == ')' {
            Depth { paren: one_less(d.paren), ..d }
        } else if c == '[' {
            Depth { bracket: d.bracket + 1, ..d }
        } else if c == ']' {
            Depth { bracket: one_less(d.bracket), ..d }
        } else if c == '{' && braces {
            Depth { brace: d.brace + 1, ..d }
        } else if c == '}' && braces {
            Depth { brace: one_less(d.brace), ..d }
        } else if c == '<' {
            Depth { angle: d.angle + 1, ..d }
        } else if c == '>' {
            Depth { angle: one_less(d.angle), ..d }
        } else {
            d
        },
        _ => d,
    }
}

/// What a scan over tokens looks for outside all brackets.
#[derive(Clone, Copy, PartialEq, Eq, Structural)]
pub enum Stop {
    /// The end of a type annotation: `=`, `,` or `;`.
    TypeEnd,
    /// The end of a statement: `;`.
    Statement,
    /// The end of a declarator: `,` or `;`.
    Declarator,
    /// An arrow.
    Arrow,
    /// The start of a body, `{`, or the end of a declaration without one, `;`.
    Body,
}

/// Whether a token is what a scan looks for.
pub open spec fn stops(kind: TokenView, stop: Stop) -> bool {
    match kind {
        TokenView::Punct(c) => match stop {
            Stop::TypeEnd => c == '=' || c == ',' || c == ';',
            Stop::Statement => c == ';',
            Stop::Declarator => c == ',' || c == ';',
            Stop::Arrow => false,
            Stop::Body => c == '{' || c == ';',
        },
        TokenView::Arrow => stop == Stop::Arrow,
        TokenView::Identifier(_) => false,
    }
}

/// The first position from `i` to `end` that holds what the scan looks for, outside the
/// brackets `d` and those that open on the way. A scan for a body does not count braces.
pub open spec fn stop_from(t: Seq<LineToken>, i: int, end: int, d: Depth, stop: Stop) -> Option<int>
    decreases t.len() - i,
{
    if i < 0 || i >= t.len() || i > end {
        None
    } else if d == level() && stops(t[i].kind, stop) {
        Some(i)
    } else {
        stop_from(t, i + 1, end, depth_after(d, t[i].kind, stop != Stop::Body), stop)
    }
}

/// The position at or after `i` where `depth` open brackets are closed.
pub open spec fn closing_from(t: Seq<LineToken>, i: int, depth: nat, open: char, close: char) ->
    Option<int>
    decreases t.len() - i,
{
    if i < 0 || i >= t.len() {
        None
    } else if t[i].kind == TokenView::Punct(open) {
        closing_from(t, i + 1, depth + 1, open, close)
    } else if t[i].kind == TokenView::Punct(close) {
        if depth <= 1 {
            Some(i)
        } else {
            closing_from(t, i + 1, (depth - 1) as nat, open, close)
        }
    } else {
        closing_from(t, i + 1, depth, open, close)
    }
}

/// The bracket that closes the one at `start`.
pub open spec fn closing(t: Seq<LineToken>, start: int, open: char, close: char) -> Option<int> {
    if punct_at(t, start, open) {
        closing_from(t, start, 0, open, close)
    } else {
        None
    }
}

/// The first position at or after `i` whose identifier is not one of `words`.
pub open spec fn after_words(t: Seq<LineToken>, i: int, words: Seq<Seq<char>>) -> int
    decreases t.len() - i,
{
    match name_at(t, i) {
        Some(name) => if words.contains(name) {
            after_words(t, i + 1, words)
        } else {
            i
        },
        None => i,
    }
}

/// The words that may stand before a declaration.
pub open spec fn declaration_modifiers() -> Seq<Seq<char>> {
    seq!["export"@, "default"@, "declare"@, "async"@, "abstract"@]
}

/// The word that may stand before an initializer.
pub open spec fn initializer_modifiers() -> Seq<Seq<char>> {
    seq!["async"@]
}

/// The line of the token at `i`.
pub open spec fn line_at(t: Seq<LineToken>, i: int) -> u32 {
    t[i].line as u32
}

/// The last line of the declaration that begins at `start`: that of the brace that closes
/// its body, of the semicolon that ends it, or of the last token. `None` where the body is
/// not closed.
pub open spec fn body_end_line(t: Seq<LineToken>, start: int) -> Option<u32> {
    match stop_from(t, start, t.len() as int, level(), Stop::Body) {
        Some(k) => if punct_at(t, k, '{') {
            match closing(t, k, '{', '}') {
                Some(e) => Some(line_at(t, e)),
                None => None,
            }
        } else {
            Some(line_at(t, k))
        },
        None => if t.len() > 0 {
            Some(line_at(t, t.len() - 1))
        } else {
            None
        },
    }
}

/// The position after the declaration that begins at `start`.
pub open spec fn after_body(t: Seq<LineToken>, start: int) -> int {
    match stop_from(t, start, t.len() as int, level(), Stop::Body) {
        Some(k) => if punct_at(t, k, '{') {
            match closing(t, k, '{', '}') {
                Some(e) => e + 1,
                None => t.len() as int,
            }
        } else {
            k + 1
        },
        None => t.len() as int,
    }
}

/// The value, or the given line where there is none.
pub open spec fn line_or(line: Option<u32>, otherwise: u32) -> u32 {
    match line {
        Some(n) => n,
        None => otherwise,
    }
}

/// The identifier at `i`, or `default` where there is none.
pub open spec fn name_or_default(t: Seq<LineToken>, i: int) -> Seq<char> {
    match name_at(t, i) {
        Some(name) => name,
        None => "default"@,
    }
}

/// The symbol that the word `function` at `at` declares.
pub open spec fn function_symbol(path: Seq<char>, t: Seq<LineToken>, at: int) -> SymbolView {
    symbols::spanning(
        path,
        name_or_default(
            t,
            if punct_at(t, at + 1, '*') {
                at + 2
            } else {
                at + 1
            },
        ),
        SymbolKind::Function,
        line_at(t, at),
        line_or(body_end_line(t, at), line_at(t, at)),
    )
}

/// The symbol that the class, interface or enum at `at` declares.
pub open spec fn body_symbol(path: Seq<char>, t: Seq<LineToken>, at: int, kind: SymbolKind) ->
    SymbolView {
    symbols::spanning(
        path,
        name_or_default(t, at + 1),
        kind,
        line_at(t, at),
        line_or(body_end_line(t, at), line_at(t, at)),
    )
}

/// The last line of the arrow function whose body begins at `at`, in a declarator that ends
/// at `end`.
pub open spec fn arrow_end_line(t: Seq<LineToken>, at: int, end: int) -> Option<u32> {
    if at > end || at >= t.len() {
        None
    } else if punct_at(t, at, '{') {
        match closing(t, at, '{', '}') {
            Some(e) => Some(line_at(t, e)),
            None => None,
        }
    } else if end < t.len() {
        Some(line_at(t, end))
    } else {
        Some(line_at(t, t.len() - 1))
    }
}

/// The kind and last line of the symbol that an initializer from `init` to `end` makes.
pub open spec fn initializer(t: Seq<LineToken>, init: int, end: int) -> Option<(SymbolKind, u32)> {
    if init > end || init >= t.len() {
        None
    } else {
        let at = after_words(t, init, initializer_modifiers());
        if name_at(t, at) == Some("function"@) {
            Some((SymbolKind::Function, line_or(body_end_line(t, at), line_at(t, at))))
        } else if name_at(t, at) == Some("class"@) {
            Some((SymbolKind::Struct, line_or(body_end_line(t, at), line_at(t, at))))
        } else {
            match stop_from(t, init, end, level(), Stop::Arrow) {
                Some(k) => Some(
                    (SymbolKind::Function, line_or(arrow_end_line(t, k + 1, end), line_at(t, k))),
                ),
                None => None,
            }
        }
    }
}

/// The first position at or after `i` that holds an identifier, `;` or `,`, where blocks in
/// braces or square brackets are passed over whole.
pub open spec fn to_name(t: Seq<LineToken>, i: int, end: int) -> int
    decreases typescript_tokens::room(t.len(), i),
{
    if i < 0 || i > end || i >= t.len() {
        i
    } else if name_at(t, i) is Some || punct_at(t, i, ';') || punct_at(t, i, ',') {
        i
    } else if punct_at(t, i, '{') {
        proof {
            lemma_closing(t, i, 0, '{', '}');
        }
        match closing(t, i, '{', '}') {
            Some(e) => to_name(t, e + 1, end),
            None => to_name(t, i + 1, end),
        }
    } else if punct_at(t, i, '[') {
        proof {
            lemma_closing(t, i, 0, '[', ']');
        }
        match closing(t, i, '[', ']') {
            Some(e) => to_name(t, e + 1, end),
            None => to_name(t, i + 1, end),
        }
    } else {
        to_name(t, i + 1, end)
    }
}

/// The first position at or after `i` that holds neither `?` nor `!`.
pub open spec fn after_marks(t: Seq<LineToken>, i: int) -> int
    decreases t.len() - i,
{
    if punct_at(t, i, '?') || punct_at(t, i, '!') {
        after_marks(t, i + 1)
    } else {
        i
    }
}

/// The position after the type annotation that begins at `i`.
pub open spec fn after_type(t: Seq<LineToken>, i: int, end: int) -> int {
    match stop_from(t, i, end, level(), Stop::TypeEnd) {
        Some(k) => k,
        None => {
            let limit = if end + 1 <= t.len() {
                end + 1
            } else {
                t.len() as int
            };
            if i >= limit {
                i
            } else {
                limit
            }
        },
    }
}

/// The position after the next `,` or `;`.
pub open spec fn after_declarator(t: Seq<LineToken>, i: int, end: int) -> int
    decreases t.len() - i,
{
    if i < 0 || i > end || i >= t.len() {
        end + 1
    } else if punct_at(t, i, ',') || punct_at(t, i, ';') {
        i + 1
    } else {
        after_declarator(t, i + 1, end)
    }
}

/// The end of the declarator whose initializer begins at `i`.
pub open spec fn declarator_end(t: Seq<LineToken>, i: int, end: int) -> int {
    match stop_from(t, i, end, level(), Stop::Declarator) {
        Some(k) => k,
        None => end,
    }
}

/// The position after name, marks and type of the declarator whose name stands at `at`.
pub open spec fn after_binding(t: Seq<LineToken>, at: int, end: int) -> int {
    let m = after_marks(t, at + 1);
    if punct_at(t, m, ':') {
        after_type(t, m + 1, end)
    } else {
        m
    }
}

/// The symbol that the declarator with its name at `at` and its initializer at `init` makes.
pub open spec fn declarator_symbol(
    path: Seq<char>,
    t: Seq<LineToken>,
    at: int,
    init: int,
    end: int,
) -> Seq<SymbolView> {
    match (name_at(t, at), initializer(t, init, declarator_end(t, init, end))) {
        (Some(name), Some(made)) => seq![
            symbols::spanning(path, name, made.0, line_at(t, at), made.1),
        ],
        _ => Seq::<SymbolView>::empty(),
    }
}

/// The symbols of the declarators from `i` to the end of the statement at `end`.
pub open spec fn declarators(path: Seq<char>, t: Seq<LineToken>, i: int, end: int) -> Seq<
    SymbolView,
>
    decreases typescript_tokens::room(t.len(), i),
{
    let at = to_name(t, i, end);
    if i < 0 || i > end || i >= t.len() || at > end || punct_at(t, at, ';') {
        Seq::<SymbolView>::empty()
    } else {
        proof {
            lemma_to_name(t, i, end);
            lemma_after_binding(t, at, end);
            lemma_after_declarator(t, after_binding(t, at, end), end);
            lemma_stop(t, after_binding(t, at, end) + 1, end, level(), Stop::Declarator);
        }
        if name_at(t, at) is None {
            declarators(path, t, at + 1, end)
        } else {
            let b = after_binding(t, at, end);
            if !punct_at(t, b, '=') {
                declarators(path, t, after_declarator(t, b, end), end)
            } else {
                declarator_symbol(path, t, at, b + 1, end) + declarators(
                    path,
                    t,
                    declarator_end(t, b + 1, end) + 1,
                    end,
                )
            }
        }
    }
}

/// The end of the statement that begins at `start`.
pub open spec fn statement_end(t: Seq<LineToken>, start: int) -> int {
    match stop_from(t, start, t.len() as int, level(), Stop::Statement) {
        Some(k) => k,
        None => if t.len() > 0 {
            t.len() - 1
        } else {
            0
        },
    }
}

/// The larger of two positions.
pub open spec fn further(a: int, b: int) -> int {
    if a >= b {
        a
    } else {
        b
    }
}

/// The symbols that the declaration at `at` makes, and the position after it. Where nothing
/// is declared the position is that after `i`.
pub open spec fn declaration(path: Seq<char>, t: Seq<LineToken>, i: int, at: int) -> (
    Seq<SymbolView>,
    int,
) {
    let word = name_at(t, at);
    if word == Some("function"@) {
        (seq![function_symbol(path, t, at)], after_body(t, at))
    } else if word == Some("class"@) {
        (seq![body_symbol(path, t, at, SymbolKind::Struct)], after_body(t, at))
    } else if word == Some("interface"@) {
        (seq![body_symbol(path, t, at, SymbolKind::Trait)], after_body(t, at))
    } else if word == Some("enum"@) {
        (seq![body_symbol(path, t, at, SymbolKind::Enum)], after_body(t, at))
    } else if word == Some("const"@) || word == Some("let"@) || word == Some("var"@) {
        (declarators(path, t, at + 1, statement_end(t, at)), statement_end(t, at) + 1)
    } else {
        (Seq::<SymbolView>::empty(), i + 1)
    }
}

/// The symbols that the tokens from `i` on declare. Blocks that belong to no declaration are
/// passed over; one that is not closed ends the search.
pub open spec fn symbols_from(path: Seq<char>, t: Seq<LineToken>, i: int) -> Seq<SymbolView>
    decreases typescript_tokens::room(t.len(), i),
{
    if i < 0 || i >= t.len() {
        Seq::<SymbolView>::empty()
    } else if punct_at(t, i, '{') {
        proof {
            lemma_closing(t, i, 0, '{', '}');
        }
        match closing(t, i, '{', '}') {
            Some(e) => symbols_from(path, t, e + 1),
            None => Seq::<SymbolView>::empty(),
        }
    } else {
        let d = declaration(path, t, i, after_words(t, i, declaration_modifiers()));
        d.0 + symbols_from(path, t, further(d.1, i + 1))
    }
}

/// The symbols of TypeScript source, in the order of the source.
pub open spec fn source_symbols(path: Seq<char>, source: Seq<char>) -> Seq<SymbolView> {
    symbols_from(
        path,
        typescript_tokens::tokens_from(
            typescript_tokens::masked(vstd::utf8::encode_utf8(source)),
            0,
            1,
        ),
        0,
    )
}

/// A closing bracket stands at or after the start of the search for it.
pub proof fn lemma_closing(t: Seq<LineToken>, i: int, depth: nat, open: char, close: char)
    ensures
        closing_from(t, i, depth, open, close) matches Some(e) ==> i <= e < t.len() && t[e].kind
            == TokenView::Punct(close),
    decreases t.len() - i,
{
    if 0 <= i < t.len() {
        lemma_closing(t, i + 1, depth + 1, open, close);
        lemma_closing(t, i + 1, depth, open, close);
        if depth > 1 {
            lemma_closing(t, i + 1, (depth - 1) as nat, open, close);
        }
    }
}

/// What a scan finds stands between its start and its end.
pub proof fn lemma_stop(t: Seq<LineToken>, i: int, end: int, d: Depth, stop: Stop)
    ensures
        stop_from(t, i, end, d, stop) matches Some(k) ==> i <= k < t.len() && k <= end && stops(
            t[k].kind,
            stop,
        ),
    decreases t.len() - i,
{
    if 0 <= i < t.len() {
        lemma_stop(t, i + 1, end, depth_after(d, t[i].kind, stop != Stop::Body), stop);
    }
}

/// The search for a name never goes back.
pub proof fn lemma_to_name(t: Seq<LineToken>, i: int, end: int)
    ensures
        to_name(t, i, end) >= i,
        i <= t.len() ==> to_name(t, i, end) <= t.len(),
    decreases typescript_tokens::room(t.len(), i),
{
    if 0 <= i <= end && i < t.len() {
        lemma_closing(t, i, 0, '{', '}');
        lemma_closing(t, i, 0, '[', ']');
        lemma_to_name(t, i + 1, end);
        match closing(t, i, '{', '}') {
            Some(e) => {
                lemma_to_name(t, e + 1, end);
            },
            None => {},
        }
        match closing(t, i, '[', ']') {
            Some(e) => {
                lemma_to_name(t, e + 1, end);
            },
            None => {},
        }
    }
}

proof fn lemma_after_marks(t: Seq<LineToken>, i: int)
    ensures
        after_marks(t, i) >= i,
        0 <= i <= t.len() ==> after_marks(t, i) <= t.len(),
    decreases t.len() - i,
{
    if 0 <= i < t.len() {
        lemma_after_marks(t, i + 1);
    }
}

/// A binding is at least its name.
pub proof fn lemma_after_binding(t: Seq<LineToken>, at: int, end: int)
    ensures
        after_binding(t, at, end) > at,
        0 <= at < t.len() ==> after_binding(t, at, end) <= t.len(),
{
    lemma_after_marks(t, at + 1);
    lemma_stop(t, after_marks(t, at + 1) + 1, end, level(), Stop::TypeEnd);
}

/// The search for the next declarator goes on, or ends the statement.
pub proof fn lemma_after_declarator(t: Seq<LineToken>, i: int, end: int)
    ensures
        after_declarator(t, i, end) > i || after_declarator(t, i, end) == end + 1,
    decreases t.len() - i,
{
    if 0 <= i <= end && i < t.len() {
        lemma_after_declarator(t, i + 1, end);
    }
}

/// Every symbol of TypeScript source ends on or after the line on which it begins, and
/// belongs to the file that was scanned.
pub proof fn law_source_symbols_span_lines(path: Seq<char>, source: Seq<char>)
    ensures
        forall|k: int|
            0 <= k < source_symbols(path, source).len() ==> {
                let s = #[trigger] source_symbols(path, source)[k];
                s.line_start <= s.line_end && s.file_path == path
            },
{
    let t = typescript_tokens::tokens_from(
        typescript_tokens::masked(vstd::utf8::encode_utf8(source)),
        0,
        1,
    );
    lemma_symbols_span(path, t, 0);
}

spec fn all_span(path: Seq<char>, s: Seq<SymbolView>) -> bool {
    forall|k: int|
        0 <= k < s.len() ==> (#[trigger] s[k]).line_start <= s[k].line_end && s[k].file_path
            == path
}

proof fn lemma_span_concat(path: Seq<char>, a: Seq<SymbolView>, b: Seq<SymbolView>)
    requires
        all_span(path, a),
        all_span(path, b),
    ensures
        all_span(path, a + b),
{
}

proof fn lemma_declarators_span(path: Seq<char>, t: Seq<LineToken>, i: int, end: int)
    ensures
        all_span(path, declarators(path, t, i, end)),
    decreases typescript_tokens::room(t.len(), i),
{
    let at = to_name(t, i, end);
    if i < 0 || i > end || i >= t.len() || at > end || punct_at(t, at, ';') {
    } else {
        let b = after_binding(t, at, end);
        lemma_to_name(t, i, end);
        lemma_after_binding(t, at, end);
        lemma_after_declarator(t, b, end);
        lemma_stop(t, b + 1, end, level(), Stop::Declarator);
        if name_at(t, at) is None {
            lemma_declarators_span(path, t, at + 1, end);
        } else if !punct_at(t, b, '=') {
            lemma_declarators_span(path, t, after_declarator(t, b, end), end);
        } else {
            let next = declarator_end(t, b + 1, end) + 1;
            lemma_declarators_span(path, t, next, end);
            lemma_span_concat(
                path,
                declarator_symbol(path, t, at, b + 1, end),
                declarators(path, t, next, end),
            );
        }
    }
}

proof fn lemma_symbols_span(path: Seq<char>, t: Seq<LineToken>, i: int)
    ensures
        all_span(path, symbols_from(path, t, i)),
    decreases typescript_tokens::room(t.len(), i),
{
    if 0 <= i < t.len() {
        if punct_at(t, i, '{') {
            lemma_closing(t, i, 0, '{', '}');
            match closing(t, i, '{', '}') {
                Some(e) => {
                    lemma_symbols_span(path, t, e + 1);
                },
                None => {},
            }
        } else {
            let at = after_words(t, i, declaration_modifiers());
            let d = declaration(path, t, i, at);
            lemma_symbols_span(path, t, further(d.1, i + 1));
            lemma_declarators_span(path, t, at + 1, statement_end(t, at));
            lemma_span_concat(path, d.0, symbols_from(path, t, further(d.1, i + 1)));
        }
    }
}

/// How many brackets of each kind a scan has open.
struct OpenBrackets {
    paren: usize,
    bracket: usize,
    brace: usize,
    angle: usize,
}

impl OpenBrackets {
    spec fn depth(self) -> Depth {
        Depth {
            paren: self.paren as nat,
            bracket: self.bracket as nat,
            brace: self.brace as nat,
            angle: self.angle as nat,
        }
    }

    spec fn at_most(self, n: int) -> bool {
        self.paren <= n && self.bracket <= n && self.brace <= n && self.angle <= n
    }

    fn is_level(&self) -> (r: bool)
        ensures
            r == (self.depth() == level()),
    {
        self.paren == 0 && self.bracket == 0 && self.brace == 0 && self.angle == 0
    }

    fn step(&mut self, kind: &TsTokenKind, braces: bool)
        requires
            old(self).at_most(usize::MAX - 1),
        ensures
            final(self).depth() == depth_after(old(self).depth(), kind@, braces),
            forall|n: int| old(self).at_most(n) ==> #[trigger] final(self).at_most(n + 1),
    {
        match kind {
            TsTokenKind::Punct(c) => {
                let c = *c;
                if c == '(' {
                    self.paren = self.paren + 1;
                } else if c == ')' {
                    self.paren = self.paren.saturating_sub(1);
                } else if c == '[' {
                    self.bracket = self.bracket + 1;
                } else if c == ']' {
                    self.bracket = self.bracket.saturating_sub(1);
                } else if c == '{' {
                    if braces {
                        self.brace = self.brace + 1;
                    }
                } else if c == '}' {
                    if braces {
                        self.brace = self.brace.saturating_sub(1);
                    }
                } else if c == '<' {
                    self.angle = self.angle + 1;
                } else if c == '>' {
                    self.angle = self.angle.saturating_sub(1);
                }
            },
            _ => {},
        }
    }
}

fn token_stops(kind: &TsTokenKind, stop: Stop) -> (r: bool)
    ensures
        r == stops(kind@, stop),
{
    match kind {
        TsTokenKind::Punct(c) => {
            let c = *c;
            match stop {
                Stop::TypeEnd => c == '=' || c == ',' || c == ';',
                Stop::Statement => c == ';',
                Stop::Declarator => c == ',' || c == ';',
                Stop::Arrow => false,
                Stop::Body => c == '{' || c == ';',
            }
        },
        TsTokenKind::Arrow => stop == Stop::Arrow,
        TsTokenKind::Identifier(_) => false,
    }
}

/// The first position from `start` to `end` that holds what the scan looks for outside all
/// brackets.
fn find_stop(tokens: &[TsToken], start: usize, end: usize, stop: Stop) -> (r: Option<usize>)
    ensures
        match r {
            Some(k) => k < tokens@.len() && start <= k <= end && stop_from(
                typescript_tokens::tokens_view(tokens@),
                start as int,
                end as int,
                level(),
                stop,
            ) == Some(k as int),
            None => stop_from(
                typescript_tokens::tokens_view(tokens@),
                start as int,
                end as int,
                level(),
                stop,
            ) is None,
        },
{
    let ghost t = typescript_tokens::tokens_view(tokens@);
    let n: usize = tokens.len();
    let mut open = OpenBrackets { paren: 0, bracket: 0, brace: 0, angle: 0 };
    let mut i: usize = start;
    while i < n && i <= end
        invariant
            t == typescript_tokens::tokens_view(tokens@),
            n == t.len(),
            start <= i,
            open.at_most(i - start),
            stop_from(t, start as int, end as int, level(), stop) == stop_from(
                t,
                i as int,
                end as int,
                open.depth(),
                stop,
            ),
        decreases n - i,
    {
        proof {
            assert(t[i as int] == tokens@[i as int]@);
        }
        if open.is_level() && token_stops(&tokens[i].kind, stop) {
            return Some(i);
        }
        open.step(&tokens[i].kind, stop != Stop::Body);
        i = i + 1;
    }
    None
}

fn token_is_punct(tokens: &[TsToken], i: usize, c: char) -> (r: bool)
    ensures
        r == punct_at(typescript_tokens::tokens_view(tokens@), i as int, c),
{
    if i >= tokens.len() {
        return false;
    }
    proof {
        assert(typescript_tokens::tokens_view(tokens@)[i as int] == tokens@[i as int]@);
    }
    match &tokens[i].kind {
        TsTokenKind::Punct(p) => *p == c,
        _ => false,
    }
}

/// The identifier at a position, as text; empty where there is none.
fn identifier_at(tokens: &[TsToken], i: usize) -> (r: Option<String>)
    ensures
        crate::text::chars::opt_text(r) == name_at(
            typescript_tokens::tokens_view(tokens@),
            i as int,
        ),
{
    if i >= tokens.len() {
        return None;
    }
    proof {
        assert(typescript_tokens::tokens_view(tokens@)[i as int] == tokens@[i as int]@);
    }
    match &tokens[i].kind {
        TsTokenKind::Identifier(name) => Some(own(name.as_str())),
        _ => None,
    }
}

fn word_is(word: &Option<String>, text: &str) -> (r: bool)
    ensures
        r == (crate::text::chars::opt_text(*word) == Some(text@)),
{
    crate::text::chars::opt_same(word, text)
}

fn find_matching_punct(tokens: &[TsToken], start: usize, open: char, close: char) -> (r: Option<
    usize,
>)
    ensures
        match r {
            Some(e) => start <= e < tokens@.len() && closing(
                typescript_tokens::tokens_view(tokens@),
                start as int,
                open,
                close,
            ) == Some(e as int),
            None => closing(
                typescript_tokens::tokens_view(tokens@),
                start as int,
                open,
                close,
            ) is None,
        },
{
    let ghost t = typescript_tokens::tokens_view(tokens@);
    if !token_is_punct(tokens, start, open) {
        return None;
    }
    let n: usize = tokens.len();
    let mut depth: usize = 0;
    let mut i: usize = start;
    while i < n
        invariant
            t == typescript_tokens::tokens_view(tokens@),
            n == t.len(),
            start <= i <= n,
            depth <= i - start,
            closing_from(t, start as int, 0, open, close) == closing_from(
                t,
                i as int,
                depth as nat,
                open,
                close,
            ),
            closing(t, start as int, open, close) == closing_from(t, start as int, 0, open, close),
        decreases n - i,
    {
        if token_is_punct(tokens, i, open) {
            depth = depth + 1;
        } else if token_is_punct(tokens, i, close) {
            if depth <= 1 {
                return Some(i);
            }
            depth = depth - 1;
        }
        i = i + 1;
    }
    None
}

fn skip_declaration_modifiers(tokens: &[TsToken], from: usize) -> (r: usize)
    requires
        from <= tokens@.len(),
    ensures
        r == after_words(
            typescript_tokens::tokens_view(tokens@),
            from as int,
            declaration_modifiers(),
        ),
        from <= r <= tokens@.len(),
{
    let ghost t = typescript_tokens::tokens_view(tokens@);
    let ghost words = declaration_modifiers();
    let n: usize = tokens.len();
    let mut i: usize = from;
    while i < n
        invariant
            t == typescript_tokens::tokens_view(tokens@),
            words == declaration_modifiers(),
            n == t.len(),
            from <= i <= n,
            after_words(t, from as int, words) == after_words(t, i as int, words),
        decreases n - i,
    {
        let word = identifier_at(tokens, i);
        proof {
            assert(words[0] == "export"@ && words[1] == "default"@ && words[2] == "declare"@
                && words[3] == "async"@ && words[4] == "abstract"@);
        }
        if !(word_is(&word, "export") || word_is(&word, "default") || word_is(&word, "declare")
            || word_is(&word, "async") || word_is(&word, "abstract")) {
            return i;
        }
        i = i + 1;
    }
    i
}

fn skip_initializer_modifiers(tokens: &[TsToken], from: usize) -> (r: usize)
    requires
        from <= tokens@.len(),
    ensures
        r == after_words(
            typescript_tokens::tokens_view(tokens@),
            from as int,
            initializer_modifiers(),
        ),
        from <= r <= tokens@.len(),
{
    let ghost t = typescript_tokens::tokens_view(tokens@);
    let ghost words = initializer_modifiers();
    let n: usize = tokens.len();
    let mut i: usize = from;
    while i < n
        invariant
            t == typescript_tokens::tokens_view(tokens@),
            words == initializer_modifiers(),
            n == t.len(),
            from <= i <= n,
            after_words(t, from as int, words) == after_words(t, i as int, words),
        decreases n - i,
    {
        let word = identifier_at(tokens, i);
        proof {
            assert(words[0] == "async"@);
        }
        if !word_is(&word, "async") {
            return i;
        }
        i = i + 1;
    }
    i
}

fn find_body_or_semicolon_line_end(tokens: &[TsToken], start: usize) -> (r: Option<u32>)
    ensures
        r == body_end_line(typescript_tokens::tokens_view(tokens@), start as int),
{
    let ghost t = typescript_tokens::tokens_view(tokens@);
    let n: usize = tokens.len();
    proof {
        if n > 0 {
            assert(t[n - 1] == tokens@[n - 1]@);
        }
    }
    match find_stop(tokens, start, n, Stop::Body) {
        Some(k) => {
            proof {
                assert(t[k as int] == tokens@[k as int]@);
            }
            if token_is_punct(tokens, k, '{') {
                match find_matching_punct(tokens, k, '{', '}') {
                    Some(e) => {
                        proof {
                            assert(t[e as int] == tokens@[e as int]@);
                        }
                        Some(tokens[e].line)
                    },
                    None => None,
                }
            } else {
                Some(tokens[k].line)
            }
        },
        None => {
            if n > 0 {
                Some(tokens[n - 1].line)
            } else {
                None
            }
        },
    }
}

fn advance_past_body_or_semicolon(tokens: &[TsToken], start: usize) -> (r: usize)
    ensures
        r == after_body(typescript_tokens::tokens_view(tokens@), start as int),
        r <= tokens@.len(),
{
    let n: usize = tokens.len();
    match find_stop(tokens, start, n, Stop::Body) {
        Some(k) => {
            if token_is_punct(tokens, k, '{') {
                match find_matching_punct(tokens, k, '{', '}') {
                    Some(e) => e + 1,
                    None => n,
                }
            } else {
                k + 1
            }
        },
        None => n,
    }
}

fn default_name(tokens: &[TsToken], i: usize) -> (r: String)
    ensures
        r@ == name_or_default(typescript_tokens::tokens_view(tokens@), i as int),
{
    match identifier_at(tokens, i) {
        Some(name) => name,
        None => own("default"),
    }
}

fn unwrap_line(line: Option<u32>, otherwise: u32) -> (r: u32)
    ensures
        r == line_or(line, otherwise),
{
    match line {
        Some(n) => n,
        None => otherwise,
    }
}

fn parse_function_declaration(path: &str, tokens: &[TsToken], at: usize) -> (r: Symbol)
    requires
        at < tokens@.len(),
    ensures
        r@ == function_symbol(path@, typescript_tokens::tokens_view(tokens@), at as int),
{
    proof {
        assert(typescript_tokens::tokens_view(tokens@)[at as int] == tokens@[at as int]@);
    }
    let line_start = tokens[at].line;
    let name = if token_is_punct(tokens, at + 1, '*') {
        default_name(tokens, at + 2)
    } else {
        default_name(tokens, at + 1)
    };
    let line_end = unwrap_line(find_body_or_semicolon_line_end(tokens, at), line_start);
    new_symbol_with_lines(path, name, SymbolKind::Function, line_start, line_end)
}

fn parse_declaration_with_body(path: &str, tokens: &[TsToken], at: usize, kind: SymbolKind) -> (r:
    Symbol)
    requires
        at < tokens@.len(),
    ensures
        r@ == body_symbol(path@, typescript_tokens::tokens_view(tokens@), at as int, kind),
{
    proof {
        assert(typescript_tokens::tokens_view(tokens@)[at as int] == tokens@[at as int]@);
    }
    let line_start = tokens[at].line;
    let name = default_name(tokens, at + 1);
    let line_end = unwrap_line(find_body_or_semicolon_line_end(tokens, at), line_start);
    new_symbol_with_lines(path, name, kind, line_start, line_end)
}

fn find_arrow_initializer_line_end(tokens: &[TsToken], at: usize, end: usize) -> (r: Option<u32>)
    ensures
        r == arrow_end_line(typescript_tokens::tokens_view(tokens@), at as int, end as int),
{
    let ghost t = typescript_tokens::tokens_view(tokens@);
    let n: usize = tokens.len();
    if at > end || at >= n {
        return None;
    }
    if token_is_punct(tokens, at, '{') {
        return match find_matching_punct(tokens, at, '{', '}') {
            Some(e) => {
                proof {
                    assert(t[e as int] == tokens@[e as int]@);
                }
                Some(tokens[e].line)
            },
            None => None,
        };
    }
    if end < n {
        proof {
            assert(t[end as int] == tokens@[end as int]@);
        }
        Some(tokens[end].line)
    } else {
        proof {
            assert(t[n - 1] == tokens@[n - 1]@);
        }
        Some(tokens[n - 1].line)
    }
}

fn classify_variable_initializer(tokens: &[TsToken], init: usize, end: usize) -> (r: Option<
    (SymbolKind, u32),
>)
    ensures
        r == initializer(typescript_tokens::tokens_view(tokens@), init as int, end as int),
{
    let ghost t = typescript_tokens::tokens_view(tokens@);
    if init > end || init >= tokens.len() {
        return None;
    }
    let at = skip_initializer_modifiers(tokens, init);
    let word = identifier_at(tokens, at);
    if at < tokens.len() {
        proof {
            assert(t[at as int] == tokens@[at as int]@);
        }
        if word_is(&word, "function") {
            let line = unwrap_line(find_body_or_semicolon_line_end(tokens, at), tokens[at].line);
            return Some((SymbolKind::Function, line));
        }
        if word_is(&word, "class") {
            let line = unwrap_line(find_body_or_semicolon_line_end(tokens, at), tokens[at].line);
            return Some((SymbolKind::Struct, line));
        }
    }
    match find_stop(tokens, init, end, Stop::Arrow) {
        Some(k) => {
            proof {
                assert(t[k as int] == tokens@[k as int]@);
            }
            let line = unwrap_line(
                find_arrow_initializer_line_end(tokens, k + 1, end),
                tokens[k].line,
            );
            Some((SymbolKind::Function, line))
        },
        None => None,
    }
}

fn skip_until_identifier_or_delimiter(tokens: &[TsToken], from: usize, end: usize) -> (r: usize)
    requires
        from <= tokens@.len(),
    ensures
        r == to_name(typescript_tokens::tokens_view(tokens@), from as int, end as int),
        from <= r <= tokens@.len(),
{
    let ghost t = typescript_tokens::tokens_view(tokens@);
    let n: usize = tokens.len();
    let mut i: usize = from;
    while i <= end && i < n
        invariant
            t == typescript_tokens::tokens_view(tokens@),
            n == t.len(),
            from <= i <= n,
            to_name(t, from as int, end as int) == to_name(t, i as int, end as int),
        decreases n - i,
    {
        if identifier_at(tokens, i).is_some() || token_is_punct(tokens, i, ';') || token_is_punct(
            tokens,
            i,
            ',',
        ) {
            return i;
        }
        if token_is_punct(tokens, i, '{') {
            match find_matching_punct(tokens, i, '{', '}') {
                Some(e) => {
                    i = e + 1;
                },
                None => {
                    i = i + 1;
                },
            }
        } else if token_is_punct(tokens, i, '[') {
            match find_matching_punct(tokens, i, '[', ']') {
                Some(e) => {
                    i = e + 1;
                },
                None => {
                    i = i + 1;
                },
            }
        } else {
            i = i + 1;
        }
    }
    i
}

fn skip_binding(tokens: &[TsToken], at: usize, end: usize) -> (r: usize)
    requires
        at < tokens@.len(),
    ensures
        r == after_binding(typescript_tokens::tokens_view(tokens@), at as int, end as int),
        at < r <= tokens@.len(),
{
    let ghost t = typescript_tokens::tokens_view(tokens@);
    let n: usize = tokens.len();
    let mut m: usize = at + 1;
    while m < n && (token_is_punct(tokens, m, '?') || token_is_punct(tokens, m, '!'))
        invariant
            t == typescript_tokens::tokens_view(tokens@),
            n == t.len(),
            at < m <= n,
            after_marks(t, at + 1) == after_marks(t, m as int),
        decreases n - m,
    {
        m = m + 1;
    }
    proof {
        assert(after_marks(t, m as int) == m);
        lemma_after_binding(t, at as int, end as int);
    }
    if token_is_punct(tokens, m, ':') {
        match find_stop(tokens, m + 1, end, Stop::TypeEnd) {
            Some(k) => k,
            None => {
                let limit: usize = if end < n {
                    end + 1
                } else {
                    n
                };
                if m + 1 >= limit {
                    m + 1
                } else {
                    limit
                }
            },
        }
    } else {
        m
    }
}

fn advance_to_next_declarator(tokens: &[TsToken], from: usize, end: usize) -> (r: usize)
    requires
        end < usize::MAX,
    ensures
        r == after_declarator(typescript_tokens::tokens_view(tokens@), from as int, end as int),
{
    let ghost t = typescript_tokens::tokens_view(tokens@);
    let n: usize = tokens.len();
    let mut i: usize = from;
    while i <= end && i < n
        invariant
            t == typescript_tokens::tokens_view(tokens@),
            n == t.len(),
            end < usize::MAX,
            after_declarator(t, from as int, end as int) == after_declarator(
                t,
                i as int,
                end as int,
            ),
        decreases n - i,
    {
        if token_is_punct(tokens, i, ',') || token_is_punct(tokens, i, ';') {
            return i + 1;
        }
        i = i + 1;
    }
    end + 1
}

fn parse_declarators(path: &str, tokens: &[TsToken], from: usize, end: usize) -> (r: Vec<Symbol>)
    requires
        end < tokens@.len(),
    ensures
        symbols::symbols_view(r@) == declarators(
            path@,
            typescript_tokens::tokens_view(tokens@),
            from as int,
            end as int,
        ),
{
    let ghost t = typescript_tokens::tokens_view(tokens@);
    let ghost all = declarators(path@, t, from as int, end as int);
    let n: usize = tokens.len();
    let mut out: Vec<Symbol> = Vec::new();
    let mut i: usize = from;
    proof {
        assert(symbols::symbols_view(out@) =~= Seq::<SymbolView>::empty());
        assert(Seq::<SymbolView>::empty() + all =~= all);
    }
    while i <= end
        invariant
            t == typescript_tokens::tokens_view(tokens@),
            n == t.len(),
            end < n,
            all == declarators(path@, t, from as int, end as int),
            symbols::symbols_view(out@) + declarators(path@, t, i as int, end as int) == all,
        decreases typescript_tokens::room((end + 1) as nat, i as int),
    {
        let ghost done = symbols::symbols_view(out@);
        let at = skip_until_identifier_or_delimiter(tokens, i, end);
        proof {
            lemma_to_name(t, i as int, end as int);
        }
        if at > end || token_is_punct(tokens, at, ';') {
            proof {
                assert(done + Seq::<SymbolView>::empty() =~= done);
            }
            return out;
        }
        let name = match identifier_at(tokens, at) {
            Some(name) => name,
            None => {
                i = at + 1;
                continue;
            },
        };
        let b = skip_binding(tokens, at, end);
        proof {
            lemma_after_declarator(t, b as int, end as int);
            lemma_stop(t, b + 1, end as int, level(), Stop::Declarator);
        }
        if !token_is_punct(tokens, b, '=') {
            i = advance_to_next_declarator(tokens, b, end);
            continue;
        }
        let init = b + 1;
        let decl_end = match find_stop(tokens, init, end, Stop::Declarator) {
            Some(k) => k,
            None => end,
        };
        let ghost tail = declarators(path@, t, decl_end + 1, end as int);
        proof {
            assert(t[at as int] == tokens@[at as int]@);
        }
        match classify_variable_initializer(tokens, init, decl_end) {
            Some(made) => {
                out.push(new_symbol_with_lines(path, name, made.0, tokens[at].line, made.1));
                proof {
                    let added = declarator_symbol(path@, t, at as int, init as int, end as int);
                    assert(added.len() == 1);
                    assert(done + (added + tail) =~= done.push(added[0]) + tail);
                }
            },
            None => {
                proof {
                    let added = declarator_symbol(path@, t, at as int, init as int, end as int);
                    assert(done + (added + tail) =~= done + tail);
                }
            },
        }
        i = decl_end + 1;
    }
    proof {
        assert(declarators(path@, t, i as int, end as int) =~= Seq::<SymbolView>::empty());
        assert(symbols::symbols_view(out@) + Seq::<SymbolView>::empty()
            =~= symbols::symbols_view(out@));
    }
    out
}

fn append_symbols(out: &mut Vec<Symbol>, more: Vec<Symbol>)
    ensures
        symbols::symbols_view(final(out)@) == symbols::symbols_view(old(out)@)
            + symbols::symbols_view(more@),
{
    let ghost a = out@;
    let mut tail = more;
    let ghost b = tail@;
    out.append(&mut tail);
    proof {
        assert(symbols::symbols_view(out@) =~= symbols::symbols_view(a) + symbols::symbols_view(
            b,
        ));
    }
}

/// The symbols that a declaration makes and the position after it.
fn parse_declaration(path: &str, tokens: &[TsToken], i: usize, at: usize) -> (r: (
    Vec<Symbol>,
    usize,
))
    requires
        i < tokens@.len(),
        at <= tokens@.len(),
    ensures
        symbols::symbols_view(r.0@) == declaration(
            path@,
            typescript_tokens::tokens_view(tokens@),
            i as int,
            at as int,
        ).0,
        r.1 == declaration(
            path@,
            typescript_tokens::tokens_view(tokens@),
            i as int,
            at as int,
        ).1,
{
    let ghost t = typescript_tokens::tokens_view(tokens@);
    let n: usize = tokens.len();
    let word = identifier_at(tokens, at);
    let mut out: Vec<Symbol> = Vec::new();
    proof {
        assert(symbols::symbols_view(out@) =~= Seq::<SymbolView>::empty());
    }
    if at >= n {
        return (out, i + 1);
    }
    if word_is(&word, "function") {
        out.push(parse_function_declaration(path, tokens, at));
        let next = advance_past_body_or_semicolon(tokens, at);
        proof {
            assert(symbols::symbols_view(out@) =~= seq![function_symbol(path@, t, at as int)]);
        }
        (out, next)
    } else if word_is(&word, "class") {
        out.push(parse_declaration_with_body(path, tokens, at, SymbolKind::Struct));
        let next = advance_past_body_or_semicolon(tokens, at);
        proof {
            assert(symbols::symbols_view(out@) =~= seq![
                body_symbol(path@, t, at as int, SymbolKind::Struct),
            ]);
        }
        (out, next)
    } else if word_is(&word, "interface") {
        out.push(parse_declaration_with_body(path, tokens, at, SymbolKind::Trait));
        let next = advance_past_body_or_semicolon(tokens, at);
        proof {
            assert(symbols::symbols_view(out@) =~= seq![
                body_symbol(path@, t, at as int, SymbolKind::Trait),
            ]);
        }
        (out, next)
    } else if word_is(&word, "enum") {
        out.push(parse_declaration_with_body(path, tokens, at, SymbolKind::Enum));
        let next = advance_past_body_or_semicolon(tokens, at);
        proof {
            assert(symbols::symbols_view(out@) =~= seq![
                body_symbol(path@, t, at as int, SymbolKind::Enum),
            ]);
        }
        (out, next)
    } else if word_is(&word, "const") || word_is(&word, "let") || word_is(&word, "var") {
        let end = match find_stop(tokens, at, n, Stop::Statement) {
            Some(k) => k,
            None => n - 1,
        };
        (parse_declarators(path, tokens, at + 1, end), end + 1)
    } else {
        (out, i + 1)
    }
}

fn collect_typescript_symbols(path: &str, tokens: &[TsToken]) -> (r: Vec<Symbol>)
    ensures
        symbols::symbols_view(r@) == symbols_from(
            path@,
            typescript_tokens::tokens_view(tokens@),
            0,
        ),
{
    let ghost t = typescript_tokens::tokens_view(tokens@);
    let ghost all = symbols_from(path@, t, 0);
    let n: usize = tokens.len();
    let mut out: Vec<Symbol> = Vec::new();
    let mut i: usize = 0;
    proof {
        assert(symbols::symbols_view(out@) =~= Seq::<SymbolView>::empty());
        assert(Seq::<SymbolView>::empty() + all =~= all);
    }
    while i < n
        invariant
            t == typescript_tokens::tokens_view(tokens@),
            n == t.len(),
            all == symbols_from(path@, t, 0),
            symbols::symbols_view(out@) + symbols_from(path@, t, i as int) == all,
        decreases typescript_tokens::room(n as nat, i as int),
    {
        let ghost done = symbols::symbols_view(out@);
        if token_is_punct(tokens, i, '{') {
            match find_matching_punct(tokens, i, '{', '}') {
                Some(e) => {
                    i = e + 1;
                },
                None => {
                    proof {
                        assert(done + Seq::<SymbolView>::empty() =~= done);
                    }
                    return out;
                },
            }
        } else {
            let at = skip_declaration_modifiers(tokens, i);
            let found = parse_declaration(path, tokens, i, at);
            let next: usize = if found.1 > i {
                found.1
            } else {
                i + 1
            };
            let ghost d = declaration(path@, t, i as int, at as int);
            append_symbols(&mut out, found.0);
            proof {
                let tail = symbols_from(path@, t, next as int);
                assert(next == further(d.1, i + 1));
                assert(done + (d.0 + tail) =~= (done + d.0) + tail);
            }
            i = next;
        }
    }
    proof {
        assert(symbols_from(path@, t, i as int) =~= Seq::<SymbolView>::empty());
        assert(symbols::symbols_view(out@) + Seq::<SymbolView>::empty()
            =~= symbols::symbols_view(out@));
    }
    out
}

/// The number of newlines of a source text.
pub open spec fn source_newlines(source: Seq<char>) -> nat {
    typescript_tokens::newlines(
        vstd::utf8::encode_utf8(source),
        vstd::utf8::encode_utf8(source).len() as int,
    )
}

/// There are no more newlines than bytes.
pub proof fn lemma_newlines_bound(b: Seq<u8>, n: int)
    requires
        0 <= n,
    ensures
        typescript_tokens::newlines(b, n) <= n,
    decreases n,
{
    if 0 < n <= b.len() {
        lemma_newlines_bound(b, n - 1);
    }
}

proof fn lemma_masked_newlines(b: Seq<u8>, n: int)
    requires
        0 <= n <= b.len(),
    ensures
        typescript_tokens::newlines(typescript_tokens::masked(b), n)
            == typescript_tokens::newlines(b, n),
    decreases n,
{
    if n > 0 {
        lemma_masked_newlines(b, n - 1);
        assert(typescript_tokens::masked(b)[n - 1] == typescript_tokens::masked_byte(b, n - 1));
    }
}

/// The symbols of TypeScript source, sorted and without repetition.
pub fn parse_typescript_file(path: &str, source: &str) -> (r: Vec<Symbol>)
    requires
        source_newlines(source@) < u32::MAX,
    ensures
        symbols::ascending(symbols::symbols_view(r@)),
        symbols::same_symbols(symbols::symbols_view(r@), source_symbols(path@, source@)),
{
    let bytes = source.as_bytes();
    let masked = mask_typescript_non_code(bytes);
    proof {
        lemma_masked_newlines(bytes@, bytes@.len() as int);
    }
    let tokens = tokenize_typescript(masked.as_slice());
    let found = collect_typescript_symbols(path, tokens.as_slice());
    sort_symbols(found)
}

} // verus!
