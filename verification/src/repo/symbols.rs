//! Source symbols and their order.
use crate::text::chars::{own, same};
use crate::text::order;
use crate::text::order::text_before;
use vstd::prelude::*;

verus! {

/// The category of a source symbol.
#[derive(Debug, Clone, Copy, PartialEq, Eq, Structural)]
pub enum SymbolKind {
    /// A function.
    Function,
    /// A struct or class.
    Struct,
    /// An `impl` block.
    Impl,
    /// A trait or interface.
    Trait,
    /// An enum.
    Enum,
}

/// A symbol found in a source file.
#[derive(Debug, Clone)]
pub struct Symbol {
    /// The identifier, such as the name of a function.
    pub name: String,
    /// What kind of symbol this is.
    pub kind: SymbolKind,
    /// Path of the file that contains the symbol.
    pub file_path: String,
    /// First line, counted from one.
    pub line_start: u32,
    /// Last line, counted from one.
    pub line_end: u32,
}

/// What a [`Symbol`] stands for.
#[verifier::ext_equal]
pub struct SymbolView {
    pub name: Seq<char>,
    pub kind: SymbolKind,
    pub file_path: Seq<char>,
    pub line_start: u32,
    pub line_end: u32,
}

impl View for Symbol {
    type V = SymbolView;

    open spec fn view(&self) -> SymbolView {
        SymbolView {
            name: self.name@,
            kind: self.kind,
            file_path: self.file_path@,
            line_start: self.line_start,
            line_end: self.line_end,
        }
    }
}

/// What a sequence of symbols stands for.
pub open spec fn symbols_view(v: Seq<Symbol>) -> Seq<SymbolView> {
    Seq::new(v.len(), |i: int| v[i]@)
}

/// Adding a symbol at the end adds what it stands for at the end.
pub broadcast proof fn lemma_symbols_push(v: Seq<Symbol>, s: Symbol)
    ensures
        #[trigger] symbols_view(v.push(s)) == symbols_view(v).push(s@),
{
    assert(symbols_view(v.push(s)) =~= symbols_view(v).push(s@));
}

/// The keyword that stands for a kind.
pub open spec fn kind_label(kind: SymbolKind) -> Seq<char> {
    match kind {
        SymbolKind::Function => "fn"@,
        SymbolKind::Struct => "struct"@,
        SymbolKind::Impl => "impl"@,
        SymbolKind::Trait => "trait"@,
        SymbolKind::Enum => "enum"@,
    }
}

/// The place of a kind among symbols on the same lines.
pub open spec fn kind_rank(kind: SymbolKind) -> int {
    match kind {
        SymbolKind::Function => 0,
        SymbolKind::Struct => 1,
        SymbolKind::Impl => 2,
        SymbolKind::Trait => 3,
        SymbolKind::Enum => 4,
    }
}

/// Whether `a` comes before `b`: by file, first line, last line, kind and name, in turn.
pub open spec fn symbol_less(a: SymbolView, b: SymbolView) -> bool {
    if a.file_path != b.file_path {
        order::text_less(a.file_path, b.file_path)
    } else if a.line_start != b.line_start {
        a.line_start < b.line_start
    } else if a.line_end != b.line_end {
        a.line_end < b.line_end
    } else if a.kind != b.kind {
        kind_rank(a.kind) < kind_rank(b.kind)
    } else {
        order::text_less(a.name, b.name)
    }
}

/// Whether each symbol comes before all that follow it.
pub open spec fn ascending(s: Seq<SymbolView>) -> bool {
    forall|i: int, j: int| 0 <= i < j < s.len() ==> symbol_less(#[trigger] s[i], #[trigger] s[j])
}

/// Whether two sequences hold the same symbols, whatever their order and repetition.
pub open spec fn same_symbols(a: Seq<SymbolView>, b: Seq<SymbolView>) -> bool {
    forall|x: SymbolView| #[trigger] a.contains(x) <==> b.contains(x)
}

/// A symbol whose last line is never before its first.
pub open spec fn spanning(
    path: Seq<char>,
    name: Seq<char>,
    kind: SymbolKind,
    line_start: u32,
    line_end: u32,
) -> SymbolView {
    SymbolView {
        name,
        kind,
        file_path: path,
        line_start,
        line_end: if line_end >= line_start {
            line_end
        } else {
            line_start
        },
    }
}

proof fn lemma_transitive(a: SymbolView, b: SymbolView, c: SymbolView)
    requires
        symbol_less(a, b),
        symbol_less(b, c),
    ensures
        symbol_less(a, c),
{
    if order::text_less(a.file_path, b.file_path) && order::text_less(b.file_path, c.file_path) {
        order::lemma_text_transitive(a.file_path, b.file_path, c.file_path);
        order::lemma_text_irreflexive(a.file_path);
    }
    if order::text_less(a.name, b.name) && order::text_less(b.name, c.name) {
        order::lemma_text_transitive(a.name, b.name, c.name);
    }
}

proof fn lemma_total(a: SymbolView, b: SymbolView)
    ensures
        symbol_less(a, b) || symbol_less(b, a) || a == b,
        !symbol_less(a, a),
{
    order::lemma_text_total(a.file_path, b.file_path);
    order::lemma_text_total(a.name, b.name);
    order::lemma_text_irreflexive(a.name);
}

/// What comes before a symbol also comes before all that do not come before that symbol.
pub proof fn lemma_less_around(a: SymbolView, b: SymbolView, c: SymbolView)
    requires
        symbol_less(a, b),
        b == c || !symbol_less(c, b),
    ensures
        !symbol_less(c, a),
{
    if symbol_less(c, a) {
        lemma_transitive(c, a, b);
        lemma_total(b, b);
    }
}

impl SymbolKind {
    /// The keyword that stands for the kind.
    pub fn as_str(self) -> (r: &'static str)
        ensures
            r@ == kind_label(self),
    {
        match self {
            SymbolKind::Function => "fn",
            SymbolKind::Struct => "struct",
            SymbolKind::Impl => "impl",
            SymbolKind::Trait => "trait",
            SymbolKind::Enum => "enum",
        }
    }

    /// The keyword that stands for the kind, as an owned string.
    pub fn to_string(self) -> (r: String)
        ensures
            r@ == kind_label(self),
    {
        own(self.as_str())
    }
}

fn symbol_kind_order(kind: SymbolKind) -> (r: u8)
    ensures
        r == kind_rank(kind),
{
    match kind {
        SymbolKind::Function => 0,
        SymbolKind::Struct => 1,
        SymbolKind::Impl => 2,
        SymbolKind::Trait => 3,
        SymbolKind::Enum => 4,
    }
}

/// Whether one symbol comes before another.
pub fn symbol_before(left: &Symbol, right: &Symbol) -> (r: bool)
    ensures
        r == symbol_less(left@, right@),
{
    if !same(left.file_path.as_str(), right.file_path.as_str()) {
        text_before(left.file_path.as_str(), right.file_path.as_str())
    } else if left.line_start != right.line_start {
        left.line_start < right.line_start
    } else if left.line_end != right.line_end {
        left.line_end < right.line_end
    } else if left.kind != right.kind {
        symbol_kind_order(left.kind) < symbol_kind_order(right.kind)
    } else {
        text_before(left.name.as_str(), right.name.as_str())
    }
}

/// A symbol of `path` whose last line is never before its first.
pub fn new_symbol_with_lines(
    path: &str,
    name: String,
    kind: SymbolKind,
    line_start: u32,
    line_end: u32,
) -> (r: Symbol)
    ensures
        r@ == spanning(path@, name@, kind, line_start, line_end),
{
    let last = if line_end >= line_start {
        line_end
    } else {
        line_start
    };
    Symbol { name, kind, file_path: own(path), line_start, line_end: last }
}

/// Adds a symbol to an ascending list, unless the list already holds it.
fn insert_symbol(sorted: &mut Vec<Symbol>, s: Symbol)
    requires
        ascending(symbols_view(old(sorted)@)),
    ensures
        ascending(symbols_view(final(sorted)@)),
        forall|x: SymbolView| #[trigger]
            symbols_view(final(sorted)@).contains(x) <==> (symbols_view(old(sorted)@).contains(x)
                || x == s@),
{
    let ghost before = symbols_view(sorted@);
    let mut at: usize = 0;
    while at < sorted.len() && symbol_before(&sorted[at], &s)
        invariant
            before == symbols_view(sorted@),
            at <= sorted@.len(),
            forall|j: int| 0 <= j < at ==> symbol_less(#[trigger] before[j], s@),
        decreases sorted@.len() - at,
    {
        at = at + 1;
    }
    if at < sorted.len() && !symbol_before(&s, &sorted[at]) {
        proof {
            lemma_total(before[at as int], s@);
            assert(before[at as int] == s@);
            assert(before.contains(s@));
        }
        return;
    }
    sorted.insert(at, s);
    proof {
        let after = symbols_view(sorted@);
        assert(after =~= before.insert(at as int, s@));
        assert forall|j: int| at <= j < before.len() implies symbol_less(
            s@,
            #[trigger] before[j],
        ) by {
            if j > at {
                lemma_transitive(s@, before[at as int], before[j]);
            }
        }
        assert forall|i: int, j: int| 0 <= i < j < after.len() implies symbol_less(
            #[trigger] after[i],
            #[trigger] after[j],
        ) by {
            if i < at && j < at {
                assert(after[i] == before[i] && after[j] == before[j]);
            } else if i < at && j > at {
                assert(after[i] == before[i] && after[j] == before[j - 1]);
            } else if i > at {
                assert(after[i] == before[i - 1] && after[j] == before[j - 1]);
            } else if i == at {
                assert(after[j] == before[j - 1]);
            } else {
                assert(after[i] == before[i]);
            }
        }
        assert forall|x: SymbolView| #[trigger] after.contains(x) <==> (before.contains(x) || x
            == s@) by {
            if after.contains(x) {
                let k = choose|k: int| 0 <= k < after.len() && after[k] == x;
                if k < at {
                    assert(before[k] == x);
                } else if k > at {
                    assert(before[k - 1] == x);
                }
            }
            if before.contains(x) {
                let k = choose|k: int| 0 <= k < before.len() && before[k] == x;
                if k < at {
                    assert(after[k] == x);
                } else {
                    assert(after[k + 1] == x);
                }
            }
            if x == s@ {
                assert(after[at as int] == x);
            }
        }
    }
}

/// Sorts symbols by file, first line, last line, kind and name, and drops repetitions.
pub fn sort_symbols(symbols: Vec<Symbol>) -> (r: Vec<Symbol>)
    ensures
        ascending(symbols_view(r@)),
        same_symbols(symbols_view(r@), symbols_view(symbols@)),
{
    let ghost all = symbols_view(symbols@);
    let mut rest = symbols;
    let mut sorted: Vec<Symbol> = Vec::new();
    proof {
        assert(symbols_view(sorted@) =~= Seq::<SymbolView>::empty());
    }
    while rest.len() > 0
        invariant
            ascending(symbols_view(sorted@)),
            forall|x: SymbolView| #[trigger]
                all.contains(x) <==> (symbols_view(rest@).contains(x) || symbols_view(
                    sorted@,
                ).contains(x)),
        decreases rest@.len(),
    {
        let ghost held = symbols_view(rest@);
        let ghost placed = symbols_view(sorted@);
        match rest.pop() {
            Some(s) => {
                let ghost sv = s@;
                insert_symbol(&mut sorted, s);
                proof {
                    let left = symbols_view(rest@);
                    assert(held =~= left.push(sv));
                    assert forall|x: SymbolView| #[trigger] all.contains(x) <==> (left.contains(x)
                        || symbols_view(sorted@).contains(x)) by {
                        if held.contains(x) {
                            let k = choose|k: int| 0 <= k < held.len() && held[k] == x;
                            if k < left.len() {
                                assert(left[k] == x);
                            } else {
                                assert(x == sv);
                            }
                        }
                        if left.contains(x) {
                            let k = choose|k: int| 0 <= k < left.len() && left[k] == x;
                            assert(held[k] == x);
                        }
                        if x == sv {
                            assert(held[held.len() - 1] == x);
                        }
                        assert(symbols_view(sorted@).contains(x) <==> (placed.contains(x) || x
                            == sv));
                    }
                }
            },
            None => {},
        }
    }
    proof {
        assert forall|x: SymbolView| #[trigger] symbols_view(sorted@).contains(x)
            <==> all.contains(x) by {
            assert(!symbols_view(rest@).contains(x));
        }
    }
    sorted
}

/// Two ascending lists of the same symbols are the same list, so sorting has one result.
pub proof fn law_sorted_symbols_are_unique(a: Seq<SymbolView>, b: Seq<SymbolView>)
    requires
        ascending(a),
        ascending(b),
        same_symbols(a, b),
    ensures
        a == b,
    decreases a.len(),
{
    if a.len() == 0 {
        if b.len() > 0 {
            assert(b.contains(b[0]));
            assert(a.contains(b[0]));
        }
        assert(a =~= b);
    } else {
        assert(a.contains(a[0]));
        assert(b.contains(a[0]));
        let k = choose|k: int| 0 <= k < b.len() && b[k] == a[0];
        assert(b.contains(b[0]));
        assert(a.contains(b[0]));
        let m = choose|m: int| 0 <= m < a.len() && a[m] == b[0];
        if k > 0 {
            assert(symbol_less(b[0], b[k]));
            if m > 0 {
                assert(symbol_less(a[0], a[m]));
                lemma_transitive(a[0], b[0], a[0]);
            }
            lemma_total(a[0], a[0]);
            assert(false);
        }
        let x = a.subrange(1, a.len() as int);
        let y = b.subrange(1, b.len() as int);
        assert forall|s: SymbolView| #[trigger] x.contains(s) <==> y.contains(s) by {
            lemma_total(a[0], a[0]);
            if x.contains(s) {
                let i = choose|i: int| 0 <= i < x.len() && x[i] == s;
                assert(a[i + 1] == s);
                assert(a.contains(s));
                assert(b.contains(s));
                let j = choose|j: int| 0 <= j < b.len() && b[j] == s;
                assert(symbol_less(a[0], a[i + 1]));
                assert(j > 0);
                assert(y[j - 1] == s);
            }
            if y.contains(s) {
                let i = choose|i: int| 0 <= i < y.len() && y[i] == s;
                assert(b[i + 1] == s);
                assert(b.contains(s));
                assert(a.contains(s));
                let j = choose|j: int| 0 <= j < a.len() && a[j] == s;
                assert(symbol_less(b[0], b[i + 1]));
                assert(j > 0);
                assert(x[j - 1] == s);
            }
        }
        law_sorted_symbols_are_unique(x, y);
        assert(a =~= seq![a[0]] + x);
        assert(b =~= seq![b[0]] + y);
    }
}

} // verus!
