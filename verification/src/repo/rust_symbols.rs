//! Top-level symbols of Rust source, found in its syntax tree.
use crate::repo::error::RepoError;
use crate::repo::symbols;
use crate::repo::symbols::{Symbol, SymbolKind, SymbolView};
use crate::repo::typescript_symbols;
use crate::text::chars;
use crate::text::chars::{own, same};
use vstd::prelude::*;

verus! {

broadcast use symbols::lemma_symbols_push;

/// A syntax tree of the tree-sitter library.
#[verifier::external_type_specification]
#[verifier::external_body]
pub struct ExTree(tree_sitter::Tree);

/// What the syntax tree says of one node.
#[verifier::ext_equal]
pub struct NodeFacts {
    /// The node's type in the grammar.
    pub kind: Seq<char>,
    /// The text of the field `name`: absent, or present with the text if it is valid UTF-8.
    pub name: Option<Option<Seq<char>>>,
    /// The text of the field `type`, likewise.
    pub type_text: Option<Option<Seq<char>>>,
    /// The line on which the node begins, counted from zero.
    pub start_row: nat,
    /// The line on which the node ends, counted from zero.
    pub end_row: nat,
    /// How many children the node has.
    pub children: nat,
}

/// The nodes of the syntax tree that the tree-sitter parser for Rust gives for a source
/// text, by their path of child positions from the root; `None` where it gives no tree.
pub uninterp spec fn rust_nodes(source: Seq<char>) -> Option<Map<Seq<usize>, NodeFacts>>;

/// The source text that a syntax tree was parsed from.
pub uninterp spec fn tree_source(tree: tree_sitter::Tree) -> Seq<char>;

/// Whether the syntax tree that the tree-sitter parser for Rust gives for a source text
/// holds an error.
pub uninterp spec fn rust_has_error(source: Seq<char>) -> bool;

/// Whether a source text is small enough for the parser, which counts bytes in 32 bits.
pub open spec fn fits_parser(source: Seq<char>) -> bool {
    vstd::utf8::encode_utf8(source).len() < u32::MAX
}

/// The nodes of a syntax tree.
pub open spec fn nodes(tree: tree_sitter::Tree) -> Map<Seq<usize>, NodeFacts> {
    rust_nodes(tree_source(tree)).unwrap()
}

/// Whether a path leads to a node of the tree.
pub open spec fn leads_to_node(tree: tree_sitter::Tree, path: Seq<usize>) -> bool {
    rust_nodes(tree_source(tree)) is Some && nodes(tree).contains_key(path)
}

/// `tree_sitter::Parser::parse` with the grammar of `tree_sitter_rust`, without an old
/// tree: what it gives depends on the source alone. A tree has a root.
#[verifier::external_body]
fn parse_rust(source: &str) -> (r: Option<tree_sitter::Tree>)
    requires
        fits_parser(source@),
    ensures
        match r {
            Some(tree) => tree_source(tree) == source@ && leads_to_node(
                tree,
                Seq::<usize>::empty(),
            ),
            None => rust_nodes(source@) is None,
        },
{
    let mut parser = tree_sitter::Parser::new();
    parser.set_language(&tree_sitter_rust::LANGUAGE.into()).ok()?;
    parser.parse(source, None)
}

/// `tree_sitter::Node::child_count` of the node at the path: the number of its children,
/// each of which is reached by one more step.
#[verifier::external_body]
fn child_count(tree: &tree_sitter::Tree, path: &[usize]) -> (r: usize)
    requires
        leads_to_node(*tree, path@),
    ensures
        r == nodes(*tree)[path@].children,
        forall|i: usize| i < r ==> leads_to_node(*tree, #[trigger] path@.push(i)),
{
    let node = path.iter().try_fold(tree.root_node(), |n, i| n.child(*i));
    node.map_or(0, |n| n.child_count())
}

/// `tree_sitter::Node::kind` of the node at the path: its type in the grammar.
#[verifier::external_body]
fn node_kind(tree: &tree_sitter::Tree, path: &[usize]) -> (r: String)
    requires
        leads_to_node(*tree, path@),
    ensures
        r@ == nodes(*tree)[path@].kind,
{
    let node = path.iter().try_fold(tree.root_node(), |n, i| n.child(*i));
    node.map_or(String::new(), |n| n.kind().to_string())
}

/// What a field of a node holds.
pub open spec fn field_view(o: Option<Option<String>>) -> Option<Option<Seq<char>>> {
    match o {
        Some(inner) => Some(chars::opt_text(inner)),
        None => None,
    }
}

/// `tree_sitter::Node::child_by_field_name` with the field `name`, and
/// `tree_sitter::Node::utf8_text` of that child in the source that was parsed.
#[verifier::external_body]
fn name_field(tree: &tree_sitter::Tree, path: &[usize], source: &str) -> (r: Option<
    Option<String>,
>)
    requires
        leads_to_node(*tree, path@),
        tree_source(*tree) == source@,
    ensures
        field_view(r) == nodes(*tree)[path@].name,
{
    let node = path.iter().try_fold(tree.root_node(), |n, i| n.child(*i));
    let child = node.and_then(|n| n.child_by_field_name("name"));
    child.map(|c| c.utf8_text(source.as_bytes()).ok().map(String::from))
}

/// `tree_sitter::Node::child_by_field_name` with the field `type`, and
/// `tree_sitter::Node::utf8_text` of that child in the source that was parsed.
#[verifier::external_body]
fn type_field(tree: &tree_sitter::Tree, path: &[usize], source: &str) -> (r: Option<
    Option<String>,
>)
    requires
        leads_to_node(*tree, path@),
        tree_source(*tree) == source@,
    ensures
        field_view(r) == nodes(*tree)[path@].type_text,
{
    let node = path.iter().try_fold(tree.root_node(), |n, i| n.child(*i));
    let child = node.and_then(|n| n.child_by_field_name("type"));
    child.map(|c| c.utf8_text(source.as_bytes()).ok().map(String::from))
}

/// The row of `tree_sitter::Node::start_position` of the node at the path. Rows are
/// counted from zero, one for each newline before the position.
#[verifier::external_body]
fn start_row(tree: &tree_sitter::Tree, path: &[usize]) -> (r: usize)
    requires
        leads_to_node(*tree, path@),
    ensures
        r == nodes(*tree)[path@].start_row,
        r <= typescript_symbols::source_newlines(tree_source(*tree)),
{
    let node = path.iter().try_fold(tree.root_node(), |n, i| n.child(*i));
    node.map_or(0, |n| n.start_position().row)
}

/// The row of `tree_sitter::Node::end_position` of the node at the path. Rows are counted
/// from zero, one for each newline before the position. A node ends where its extent, added to
/// its start, leads, so not before the row on which it starts.
#[verifier::external_body]
fn end_row(tree: &tree_sitter::Tree, path: &[usize]) -> (r: usize)
    requires
        leads_to_node(*tree, path@),
    ensures
        r == nodes(*tree)[path@].end_row,
        r >= nodes(*tree)[path@].start_row,
        r <= typescript_symbols::source_newlines(tree_source(*tree)),
{
    let node = path.iter().try_fold(tree.root_node(), |n, i| n.child(*i));
    node.map_or(0, |n| n.end_position().row)
}

/// `tree_sitter::Node::has_error` of the root: whether the tree holds an error.
#[verifier::external_body]
fn tree_has_error(tree: &tree_sitter::Tree) -> (r: bool)
    ensures
        r == rust_has_error(tree_source(*tree)),
{
    tree.root_node().has_error()
}

/// A node of Rust syntax, as far as symbols need it.
pub struct RustNode {
    pub kind: String,
    pub name: Option<Option<String>>,
    pub type_text: Option<Option<String>>,
    /// First line, counted from one.
    pub start_line: u32,
    /// Last line, counted from one.
    pub end_line: u32,
}

/// A child of an `impl` block with the members that it lists.
pub struct RustBlock {
    pub kind: String,
    pub members: Vec<RustNode>,
}

/// A node at the top level with, where it is an `impl` block, its children.
pub struct RustItem {
    pub head: RustNode,
    pub blocks: Vec<RustBlock>,
}

/// What a [`RustNode`] stands for.
#[verifier::ext_equal]
pub struct NodeView {
    pub kind: Seq<char>,
    pub name: Option<Option<Seq<char>>>,
    pub type_text: Option<Option<Seq<char>>>,
    pub start_line: u32,
    pub end_line: u32,
}

/// What a [`RustBlock`] stands for.
#[verifier::ext_equal]
pub struct BlockView {
    pub kind: Seq<char>,
    pub members: Seq<NodeView>,
}

/// What a [`RustItem`] stands for.
#[verifier::ext_equal]
pub struct ItemView {
    pub head: NodeView,
    pub blocks: Seq<BlockView>,
}

impl View for RustNode {
    type V = NodeView;

    open spec fn view(&self) -> NodeView {
        NodeView {
            kind: self.kind@,
            name: field_view(self.name),
            type_text: field_view(self.type_text),
            start_line: self.start_line,
            end_line: self.end_line,
        }
    }
}

/// What a sequence of nodes stands for.
pub open spec fn members_view(v: Seq<RustNode>) -> Seq<NodeView> {
    Seq::new(v.len(), |i: int| v[i]@)
}

impl View for RustBlock {
    type V = BlockView;

    open spec fn view(&self) -> BlockView {
        BlockView { kind: self.kind@, members: members_view(self.members@) }
    }
}

/// What a sequence of blocks stands for.
pub open spec fn blocks_view(v: Seq<RustBlock>) -> Seq<BlockView> {
    Seq::new(v.len(), |i: int| v[i]@)
}

impl View for RustItem {
    type V = ItemView;

    open spec fn view(&self) -> ItemView {
        ItemView { head: self.head@, blocks: blocks_view(self.blocks@) }
    }
}

/// What a sequence of items stands for.
pub open spec fn items_view(v: Seq<RustItem>) -> Seq<ItemView> {
    Seq::new(v.len(), |i: int| v[i]@)
}

/// The node with the given facts.
pub open spec fn node_of(f: NodeFacts) -> NodeView {
    NodeView {
        kind: f.kind,
        name: f.name,
        type_text: f.type_text,
        start_line: (f.start_row + 1) as u32,
        end_line: (f.end_row + 1) as u32,
    }
}

/// The block at a path, with its members where it is a declaration list.
pub open spec fn block_of(m: Map<Seq<usize>, NodeFacts>, path: Seq<usize>) -> BlockView {
    BlockView {
        kind: m[path].kind,
        members: if m[path].kind == "declaration_list"@ {
            Seq::new(m[path].children, |k: int| node_of(m[path.push(k as usize)]))
        } else {
            Seq::<NodeView>::empty()
        },
    }
}

/// The item at a path, with its blocks where it is an `impl` block.
pub open spec fn item_of(m: Map<Seq<usize>, NodeFacts>, path: Seq<usize>) -> ItemView {
    ItemView {
        head: node_of(m[path]),
        blocks: if m[path].kind == "impl_item"@ {
            Seq::new(m[path].children, |j: int| block_of(m, path.push(j as usize)))
        } else {
            Seq::<BlockView>::empty()
        },
    }
}

/// The items at the top level of a syntax tree.
pub open spec fn items_of(m: Map<Seq<usize>, NodeFacts>) -> Seq<ItemView> {
    Seq::new(
        m[Seq::<usize>::empty()].children,
        |i: int| item_of(m, Seq::<usize>::empty().push(i as usize)),
    )
}

/// The kind of symbol that a node type stands for.
pub open spec fn symbol_kind_of(kind: Seq<char>) -> Option<SymbolKind> {
    if kind == "function_item"@ {
        Some(SymbolKind::Function)
    } else if kind == "struct_item"@ {
        Some(SymbolKind::Struct)
    } else if kind == "impl_item"@ {
        Some(SymbolKind::Impl)
    } else if kind == "trait_item"@ {
        Some(SymbolKind::Trait)
    } else if kind == "enum_item"@ {
        Some(SymbolKind::Enum)
    } else {
        None
    }
}

/// The text of a field, or `<anonymous>`.
pub open spec fn shown_name(field: Option<Option<Seq<char>>>) -> Seq<char> {
    match field {
        Some(Some(text)) => text,
        _ => "<anonymous>"@,
    }
}

/// The symbols of the functions among the members of a block.
pub open spec fn member_symbols(path: Seq<char>, members: Seq<NodeView>) -> Seq<SymbolView>
    decreases members.len(),
{
    if members.len() == 0 {
        Seq::<SymbolView>::empty()
    } else {
        let before = member_symbols(path, members.drop_last());
        let m = members.last();
        if m.kind == "function_item"@ {
            before.push(
                SymbolView {
                    name: shown_name(m.name),
                    kind: SymbolKind::Function,
                    file_path: path,
                    line_start: m.start_line,
                    line_end: m.end_line,
                },
            )
        } else {
            before
        }
    }
}

/// The symbols of the functions in the declaration lists of an `impl` block.
pub open spec fn block_symbols(path: Seq<char>, blocks: Seq<BlockView>) -> Seq<SymbolView>
    decreases blocks.len(),
{
    if blocks.len() == 0 {
        Seq::<SymbolView>::empty()
    } else {
        block_symbols(path, blocks.drop_last()) + (if blocks.last().kind
            == "declaration_list"@ {
            member_symbols(path, blocks.last().members)
        } else {
            Seq::<SymbolView>::empty()
        })
    }
}

/// The symbol that an item itself is, named after its name or else its type.
pub open spec fn head_symbol(path: Seq<char>, head: NodeView) -> Seq<SymbolView> {
    match symbol_kind_of(head.kind) {
        Some(kind) => seq![
            SymbolView {
                name: shown_name(
                    if head.name is Some {
                        head.name
                    } else {
                        head.type_text
                    },
                ),
                kind,
                file_path: path,
                line_start: head.start_line,
                line_end: head.end_line,
            },
        ],
        None => Seq::<SymbolView>::empty(),
    }
}

/// The symbols of an item: itself and, in an `impl` block, its functions.
pub open spec fn item_symbols(path: Seq<char>, item: ItemView) -> Seq<SymbolView> {
    head_symbol(path, item.head) + (if item.head.kind == "impl_item"@ {
        block_symbols(path, item.blocks)
    } else {
        Seq::<SymbolView>::empty()
    })
}

/// The symbols of items, in order.
pub open spec fn all_item_symbols(path: Seq<char>, items: Seq<ItemView>) -> Seq<SymbolView>
    decreases items.len(),
{
    if items.len() == 0 {
        Seq::<SymbolView>::empty()
    } else {
        all_item_symbols(path, items.drop_last()) + item_symbols(path, items.last())
    }
}

/// Whether a node is a function.
pub open spec fn is_function(n: NodeView) -> bool {
    n.kind == "function_item"@
}

/// The symbol of a function in an `impl` block.
pub open spec fn is_symbol_of(symbol: SymbolView, path: Seq<char>, n: NodeView) -> bool {
    &&& symbol.kind == SymbolKind::Function
    &&& symbol.file_path == path
    &&& symbol.line_start == n.start_line
    &&& symbol.line_end == n.end_line
    &&& n.name matches Some(Some(text)) ==> symbol.name == text
}

/// The symbols of the members of a block are those of its first members and then those of the
/// others.
pub proof fn law_member_symbols_add_up(path: Seq<char>, a: Seq<NodeView>, b: Seq<NodeView>)
    ensures
        member_symbols(path, a + b) == member_symbols(path, a) + member_symbols(path, b),
    decreases b.len(),
{
    let x = member_symbols(path, a);
    if b.len() == 0 {
        assert(a + b =~= a);
        assert(x + member_symbols(path, b) =~= x);
    } else {
        assert((a + b).drop_last() =~= a + b.drop_last());
        assert((a + b).last() == b.last());
        law_member_symbols_add_up(path, a, b.drop_last());
        let y = member_symbols(path, b.drop_last());
        let all = member_symbols(path, a + b);
        if is_function(b.last()) {
            assert(all =~= x + y.push(all.last()));
        }
    }
}

/// Every function among the members of a block has one symbol, in the order of the members, and
/// nothing else has one.
pub proof fn law_every_function_has_its_symbol(path: Seq<char>, members: Seq<NodeView>)
    ensures
        ({
            let functions = members.filter(|n: NodeView| is_function(n));
            &&& member_symbols(path, members).len() == functions.len()
            &&& forall|i: int|
                0 <= i < functions.len() ==> is_symbol_of(
                    #[trigger] member_symbols(path, members)[i],
                    path,
                    functions[i],
                )
        }),
    decreases members.len(),
{
    reveal(Seq::filter);
    if members.len() > 0 {
        law_every_function_has_its_symbol(path, members.drop_last());
        let before = member_symbols(path, members.drop_last());
        let all = member_symbols(path, members);
        let functions = members.filter(|n: NodeView| is_function(n));
        let first = members.drop_last().filter(|n: NodeView| is_function(n));
        assert forall|i: int| 0 <= i < functions.len() implies is_symbol_of(
            #[trigger] all[i],
            path,
            functions[i],
        ) by {
            if i < first.len() {
                assert(is_symbol_of(before[i], path, first[i]));
            }
        }
    }
}

/// The symbols of blocks are those of the first blocks and then those of the others; a list of
/// declarations has the symbols of its members, any other block none.
pub proof fn law_block_symbols_add_up(path: Seq<char>, a: Seq<BlockView>, b: Seq<BlockView>)
    ensures
        block_symbols(path, a + b) == block_symbols(path, a) + block_symbols(path, b),
        a.len() == 1 && a[0].kind == "declaration_list"@ ==> block_symbols(path, a)
            == member_symbols(path, a[0].members),
        a.len() == 1 && a[0].kind != "declaration_list"@ ==> block_symbols(path, a).len() == 0,
    decreases b.len(),
{
    let x = block_symbols(path, a);
    if b.len() == 0 {
        assert(a + b =~= a);
        assert(x + block_symbols(path, b) =~= x);
    } else {
        assert((a + b).drop_last() =~= a + b.drop_last());
        assert((a + b).last() == b.last());
        law_block_symbols_add_up(path, a, b.drop_last());
        let y = block_symbols(path, b.drop_last());
        let z = if b.last().kind == "declaration_list"@ {
            member_symbols(path, b.last().members)
        } else {
            Seq::<SymbolView>::empty()
        };
        assert((x + y) + z =~= x + (y + z));
    }
    if a.len() == 1 {
        assert(a.drop_last() =~= Seq::<BlockView>::empty());
        assert(block_symbols(path, a.drop_last()) =~= Seq::<SymbolView>::empty());
        assert(block_symbols(path, a.drop_last()) + member_symbols(path, a[0].members)
            =~= member_symbols(path, a[0].members));
    }
}

/// The symbols of items are those of the first items and then those of the others.
pub proof fn law_item_symbols_add_up(path: Seq<char>, a: Seq<ItemView>, b: Seq<ItemView>)
    ensures
        all_item_symbols(path, a + b) == all_item_symbols(path, a) + all_item_symbols(path, b),
        a.len() == 1 ==> all_item_symbols(path, a) == item_symbols(path, a[0]),
    decreases b.len(),
{
    let x = all_item_symbols(path, a);
    if b.len() == 0 {
        assert(a + b =~= a);
        assert(x + all_item_symbols(path, b) =~= x);
    } else {
        assert((a + b).drop_last() =~= a + b.drop_last());
        assert((a + b).last() == b.last());
        law_item_symbols_add_up(path, a, b.drop_last());
        let y = all_item_symbols(path, b.drop_last());
        let z = item_symbols(path, b.last());
        assert((x + y) + z =~= x + (y + z));
    }
    if a.len() == 1 {
        assert(a.drop_last() =~= Seq::<ItemView>::empty());
        assert(all_item_symbols(path, a.drop_last()) =~= Seq::<SymbolView>::empty());
        assert(all_item_symbols(path, a.drop_last()) + item_symbols(path, a[0]) =~= item_symbols(
            path,
            a[0],
        ));
    }
}

/// An item that is a function, a structure, an enumeration, a trait or an `impl` block has a
/// symbol of its own with its lines, named after its name or else its type; an `impl` block has
/// those of its blocks behind it, and no other item has more.
pub proof fn law_items_have_their_symbols(path: Seq<char>, item: ItemView)
    ensures
        ({
            let found = item_symbols(path, item);
            let known = item.head.kind == "function_item"@ || item.head.kind == "struct_item"@
                || item.head.kind == "enum_item"@ || item.head.kind == "trait_item"@
                || item.head.kind == "impl_item"@;
            &&& known ==> {
                &&& found.len() > 0
                &&& found[0].file_path == path
                &&& found[0].line_start == item.head.start_line
                &&& found[0].line_end == item.head.end_line
                &&& item.head.name matches Some(Some(text)) ==> found[0].name == text
                &&& item.head.name is None ==> (item.head.type_text matches Some(Some(text))
                    ==> found[0].name == text)
            }
            &&& item.head.kind == "function_item"@ ==> found[0].kind == SymbolKind::Function
            &&& item.head.kind == "struct_item"@ ==> found[0].kind == SymbolKind::Struct
            &&& item.head.kind == "enum_item"@ ==> found[0].kind == SymbolKind::Enum
            &&& item.head.kind == "trait_item"@ ==> found[0].kind == SymbolKind::Trait
            &&& item.head.kind == "impl_item"@ ==> found[0].kind == SymbolKind::Impl
                && found.skip(1) == block_symbols(path, item.blocks)
            &&& known && item.head.kind != "impl_item"@ ==> found.len() == 1
            &&& !known ==> found.len() == 0
        }),
{
    reveal_strlit("function_item");
    reveal_strlit("struct_item");
    reveal_strlit("enum_item");
    reveal_strlit("trait_item");
    reveal_strlit("impl_item");
    assert("function_item"@.len() == 13 && "struct_item"@.len() == 11);
    assert("enum_item"@.len() == 9 && "trait_item"@.len() == 10 && "impl_item"@.len() == 9);
    assert("enum_item"@[0] == 'e' && "impl_item"@[0] == 'i');
    if item.head.kind == "impl_item"@ {
        assert(item_symbols(path, item).skip(1) =~= block_symbols(path, item.blocks));
    }
}

proof fn lemma_all_items_hold(path: Seq<char>, items: Seq<ItemView>, i: int, s: SymbolView)
    requires
        0 <= i < items.len(),
        item_symbols(path, items[i]).contains(s),
    ensures
        all_item_symbols(path, items).contains(s),
    decreases items.len(),
{
    let front = all_item_symbols(path, items.drop_last());
    let own = item_symbols(path, items.last());
    if i < items.len() - 1 {
        lemma_all_items_hold(path, items.drop_last(), i, s);
        let k = choose|k: int| 0 <= k < front.len() && front[k] == s;
        assert((front + own)[k] == s);
    } else {
        let k = choose|k: int| 0 <= k < own.len() && own[k] == s;
        assert((front + own)[front.len() + k] == s);
    }
}

proof fn lemma_blocks_hold(path: Seq<char>, blocks: Seq<BlockView>, j: int, s: SymbolView)
    requires
        0 <= j < blocks.len(),
        blocks[j].kind == "declaration_list"@,
        member_symbols(path, blocks[j].members).contains(s),
    ensures
        block_symbols(path, blocks).contains(s),
    decreases blocks.len(),
{
    let front = block_symbols(path, blocks.drop_last());
    let all = block_symbols(path, blocks);
    if j < blocks.len() - 1 {
        lemma_blocks_hold(path, blocks.drop_last(), j, s);
        let k = choose|k: int| 0 <= k < front.len() && front[k] == s;
        assert(all[k] == s);
    } else {
        let own = member_symbols(path, blocks.last().members);
        let k = choose|k: int| 0 <= k < own.len() && own[k] == s;
        assert(all[front.len() + k] == s);
    }
}

proof fn lemma_member_has_symbol(path: Seq<char>, members: Seq<NodeView>, k: int) -> (s: SymbolView)
    requires
        0 <= k < members.len(),
        is_function(members[k]),
    ensures
        member_symbols(path, members).contains(s),
        is_symbol_of(s, path, members[k]),
    decreases members.len(),
{
    let all = member_symbols(path, members);
    let front = member_symbols(path, members.drop_last());
    if k < members.len() - 1 {
        let s = lemma_member_has_symbol(path, members.drop_last(), k);
        let i = choose|i: int| 0 <= i < front.len() && front[i] == s;
        assert(all[i] == s);
        s
    } else {
        assert(all[front.len() as int] == all.last());
        all.last()
    }
}

/// Every function in every declaration list of every `impl` block at the top level of a syntax
/// tree has a symbol, on the lines where the tree has it.
pub proof fn law_functions_of_the_tree_have_symbols(
    path: Seq<char>,
    m: Map<Seq<usize>, NodeFacts>,
    i: usize,
    j: usize,
    k: usize,
)
    requires
        ({
            let top = Seq::<usize>::empty();
            &&& i < m[top].children
            &&& m[top.push(i)].kind == "impl_item"@
            &&& j < m[top.push(i)].children
            &&& m[top.push(i).push(j)].kind == "declaration_list"@
            &&& k < m[top.push(i).push(j)].children
            &&& m[top.push(i).push(j).push(k)].kind == "function_item"@
            &&& m[top.push(i).push(j).push(k)].end_row < u32::MAX
            &&& m[top.push(i).push(j).push(k)].start_row < u32::MAX
        }),
    ensures
        ({
            let f = m[Seq::<usize>::empty().push(i).push(j).push(k)];
            exists|s: SymbolView|
                #[trigger] all_item_symbols(path, items_of(m)).contains(s) && s.kind
                    == SymbolKind::Function && s.file_path == path && s.line_start == f.start_row
                    + 1 && s.line_end == f.end_row + 1 && (f.name matches Some(Some(text))
                    ==> s.name == text)
        }),
{
    let items = items_of(m);
    let item = items[i as int];
    let block = item.blocks[j as int];
    assert(block.members[k as int] == node_of(
        m[Seq::<usize>::empty().push(i).push(j).push(k)],
    ));
    let s = lemma_member_has_symbol(path, block.members, k as int);
    lemma_blocks_hold(path, item.blocks, j as int, s);
    let own = item_symbols(path, item);
    let b = block_symbols(path, item.blocks);
    let h = head_symbol(path, item.head);
    let at = choose|at: int| 0 <= at < b.len() && b[at] == s;
    assert(own[h.len() + at] == s);
    lemma_all_items_hold(path, items, i as int, s);
    assert(all_item_symbols(path, items).contains(s));
}

/// Every function, structure, enumeration, trait and `impl` block at the top level of a syntax
/// tree has a symbol, on the lines where the tree has it.
pub proof fn law_items_of_the_tree_have_symbols(
    path: Seq<char>,
    m: Map<Seq<usize>, NodeFacts>,
    i: usize,
)
    requires
        ({
            let f = m[Seq::<usize>::empty().push(i)];
            &&& i < m[Seq::<usize>::empty()].children
            &&& f.kind == "function_item"@ || f.kind == "struct_item"@ || f.kind == "enum_item"@
                || f.kind == "trait_item"@ || f.kind == "impl_item"@
            &&& f.end_row < u32::MAX
            &&& f.start_row < u32::MAX
        }),
    ensures
        ({
            let f = m[Seq::<usize>::empty().push(i)];
            exists|s: SymbolView|
                #[trigger] all_item_symbols(path, items_of(m)).contains(s) && s.file_path == path
                    && s.line_start == f.start_row + 1 && s.line_end == f.end_row + 1 && (
                f.name matches Some(Some(text)) ==> s.name == text)
        }),
{
    let items = items_of(m);
    let item = items[i as int];
    law_items_have_their_symbols(path, item);
    let s = item_symbols(path, item)[0];
    assert(item_symbols(path, item).contains(s));
    lemma_all_items_hold(path, items, i as int, s);
    assert(all_item_symbols(path, items).contains(s));
}

/// Whether the lines of a node are counted from one, and the last is not before the first.
pub open spec fn has_lines(n: NodeView) -> bool {
    1 <= n.start_line <= n.end_line
}

/// Whether all members have lines.
pub open spec fn members_have_lines(s: Seq<NodeView>) -> bool {
    forall|i: int| 0 <= i < s.len() ==> has_lines(#[trigger] s[i])
}

/// Whether the members of all blocks have lines.
pub open spec fn blocks_have_lines(s: Seq<BlockView>) -> bool {
    forall|i: int| 0 <= i < s.len() ==> members_have_lines((#[trigger] s[i]).members)
}

/// Whether an item and its members have lines.
pub open spec fn item_has_lines(item: ItemView) -> bool {
    has_lines(item.head) && blocks_have_lines(item.blocks)
}

/// Whether all items have lines.
pub open spec fn items_have_lines(s: Seq<ItemView>) -> bool {
    forall|i: int| 0 <= i < s.len() ==> item_has_lines(#[trigger] s[i])
}

/// Whether the lines of all symbols are counted from one, and the last is never before the
/// first.
pub open spec fn symbols_have_lines(s: Seq<SymbolView>) -> bool {
    forall|i: int| 0 <= i < s.len() ==> 1 <= (#[trigger] s[i]).line_start <= s[i].line_end
}

proof fn lemma_members_have_lines(path: Seq<char>, s: Seq<NodeView>)
    requires
        members_have_lines(s),
    ensures
        symbols_have_lines(member_symbols(path, s)),
    decreases s.len(),
{
    if s.len() > 0 {
        lemma_members_have_lines(path, s.drop_last());
        assert(has_lines(s[s.len() - 1]));
    }
}

proof fn lemma_blocks_have_lines(path: Seq<char>, s: Seq<BlockView>)
    requires
        blocks_have_lines(s),
    ensures
        symbols_have_lines(block_symbols(path, s)),
    decreases s.len(),
{
    if s.len() > 0 {
        lemma_blocks_have_lines(path, s.drop_last());
        assert(members_have_lines(s[s.len() - 1].members));
        lemma_members_have_lines(path, s.last().members);
    }
}

/// The symbols of items that have lines have lines too.
pub proof fn law_symbols_have_lines(path: Seq<char>, s: Seq<ItemView>)
    requires
        items_have_lines(s),
    ensures
        symbols_have_lines(all_item_symbols(path, s)),
    decreases s.len(),
{
    if s.len() > 0 {
        law_symbols_have_lines(path, s.drop_last());
        assert(item_has_lines(s[s.len() - 1]));
        lemma_blocks_have_lines(path, s.last().blocks);
    }
}

/// Whether two sequences hold the same symbols of two files in the same order.
pub open spec fn same_but_path(
    a: Seq<SymbolView>,
    b: Seq<SymbolView>,
    p: Seq<char>,
    q: Seq<char>,
) -> bool {
    &&& a.len() == b.len()
    &&& forall|i: int|
        0 <= i < a.len() ==> (#[trigger] a[i]).file_path == p && b[i] == (SymbolView {
            file_path: q,
            ..a[i]
        })
}

proof fn lemma_members_but_path(p: Seq<char>, q: Seq<char>, s: Seq<NodeView>)
    ensures
        same_but_path(member_symbols(p, s), member_symbols(q, s), p, q),
    decreases s.len(),
{
    if s.len() > 0 {
        lemma_members_but_path(p, q, s.drop_last());
    }
}

proof fn lemma_blocks_but_path(p: Seq<char>, q: Seq<char>, s: Seq<BlockView>)
    ensures
        same_but_path(block_symbols(p, s), block_symbols(q, s), p, q),
    decreases s.len(),
{
    if s.len() > 0 {
        lemma_blocks_but_path(p, q, s.drop_last());
        lemma_members_but_path(p, q, s.last().members);
    }
}

/// The path under which a source text is parsed is recorded in every symbol, and changes
/// nothing else.
pub proof fn law_path_is_only_recorded(p: Seq<char>, q: Seq<char>, s: Seq<ItemView>)
    ensures
        same_but_path(all_item_symbols(p, s), all_item_symbols(q, s), p, q),
    decreases s.len(),
{
    if s.len() > 0 {
        law_path_is_only_recorded(p, q, s.drop_last());
        lemma_blocks_but_path(p, q, s.last().blocks);
    }
}

fn classify_node_kind(kind: &str) -> (r: Option<SymbolKind>)
    ensures
        r == symbol_kind_of(kind@),
{
    if same(kind, "function_item") {
        Some(SymbolKind::Function)
    } else if same(kind, "struct_item") {
        Some(SymbolKind::Struct)
    } else if same(kind, "impl_item") {
        Some(SymbolKind::Impl)
    } else if same(kind, "trait_item") {
        Some(SymbolKind::Trait)
    } else if same(kind, "enum_item") {
        Some(SymbolKind::Enum)
    } else {
        None
    }
}

fn display_name(field: &Option<Option<String>>) -> (r: String)
    ensures
        r@ == shown_name(field_view(*field)),
{
    match field {
        Some(Some(text)) => own(text.as_str()),
        _ => own("<anonymous>"),
    }
}

fn push_member_symbols(path: &str, members: &[RustNode], out: &mut Vec<Symbol>)
    ensures
        symbols::symbols_view(final(out)@) == symbols::symbols_view(old(out)@) + member_symbols(
            path@,
            members_view(members@),
        ),
{
    let ghost start = symbols::symbols_view(out@);
    let ghost all = members_view(members@);
    let mut i: usize = 0;
    proof {
        assert(all.take(0) =~= Seq::<NodeView>::empty());
        assert(start + Seq::<SymbolView>::empty() =~= start);
    }
    while i < members.len()
        invariant
            all == members_view(members@),
            i <= members@.len(),
            symbols::symbols_view(out@) == start + member_symbols(path@, all.take(i as int)),
        decreases members@.len() - i,
    {
        let ghost before = member_symbols(path@, all.take(i as int));
        proof {
            assert(all.take(i + 1).drop_last() =~= all.take(i as int));
            assert(all.take(i + 1).last() == members@[i as int]@);
        }
        let m = &members[i];
        if same(m.kind.as_str(), "function_item") {
            out.push(
                Symbol {
                    name: display_name(&m.name),
                    kind: SymbolKind::Function,
                    file_path: own(path),
                    line_start: m.start_line,
                    line_end: m.end_line,
                },
            );
            proof {
                let s = member_symbols(path@, all.take(i + 1)).last();
                assert((start + before).push(s) =~= start + before.push(s));
            }
        }
        i = i + 1;
    }
    proof {
        assert(all.take(all.len() as int) =~= all);
    }
}

fn push_block_symbols(path: &str, blocks: &[RustBlock], out: &mut Vec<Symbol>)
    ensures
        symbols::symbols_view(final(out)@) == symbols::symbols_view(old(out)@) + block_symbols(
            path@,
            blocks_view(blocks@),
        ),
{
    let ghost start = symbols::symbols_view(out@);
    let ghost all = blocks_view(blocks@);
    let mut i: usize = 0;
    proof {
        assert(all.take(0) =~= Seq::<BlockView>::empty());
        assert(start + Seq::<SymbolView>::empty() =~= start);
    }
    while i < blocks.len()
        invariant
            all == blocks_view(blocks@),
            i <= blocks@.len(),
            symbols::symbols_view(out@) == start + block_symbols(path@, all.take(i as int)),
        decreases blocks@.len() - i,
    {
        let ghost before = block_symbols(path@, all.take(i as int));
        proof {
            assert(all.take(i + 1).drop_last() =~= all.take(i as int));
            assert(all.take(i + 1).last() == blocks@[i as int]@);
        }
        if same(blocks[i].kind.as_str(), "declaration_list") {
            push_member_symbols(path, blocks[i].members.as_slice(), out);
            proof {
                let more = member_symbols(path@, all[i as int].members);
                assert((start + before) + more =~= start + (before + more));
            }
        } else {
            proof {
                assert(before + Seq::<SymbolView>::empty() =~= before);
            }
        }
        i = i + 1;
    }
    proof {
        assert(all.take(all.len() as int) =~= all);
    }
}

fn push_item_symbols(path: &str, item: &RustItem, out: &mut Vec<Symbol>)
    ensures
        symbols::symbols_view(final(out)@) == symbols::symbols_view(old(out)@) + item_symbols(
            path@,
            item@,
        ),
{
    let ghost start = symbols::symbols_view(out@);
    let ghost head = head_symbol(path@, item@.head);
    match classify_node_kind(item.head.kind.as_str()) {
        Some(kind) => {
            let name = if item.head.name.is_some() {
                display_name(&item.head.name)
            } else {
                display_name(&item.head.type_text)
            };
            out.push(
                Symbol {
                    name,
                    kind,
                    file_path: own(path),
                    line_start: item.head.start_line,
                    line_end: item.head.end_line,
                },
            );
            proof {
                assert(start.push(head[0]) =~= start + head);
            }
        },
        None => {
            proof {
                assert(start + head =~= start);
            }
        },
    }
    if same(item.head.kind.as_str(), "impl_item") {
        push_block_symbols(path, item.blocks.as_slice(), out);
        proof {
            let more = block_symbols(path@, item@.blocks);
            assert((start + head) + more =~= start + (head + more));
        }
    } else {
        proof {
            assert(head + Seq::<SymbolView>::empty() =~= head);
        }
    }
}

/// The symbols of the top-level items of a Rust source file, in order.
pub fn symbols_of_items(path: &str, items: &[RustItem]) -> (r: Vec<Symbol>)
    ensures
        symbols::symbols_view(r@) == all_item_symbols(path@, items_view(items@)),
{
    let ghost all = items_view(items@);
    let mut out: Vec<Symbol> = Vec::new();
    let mut i: usize = 0;
    proof {
        assert(all.take(0) =~= Seq::<ItemView>::empty());
        assert(symbols::symbols_view(out@) =~= Seq::<SymbolView>::empty());
    }
    while i < items.len()
        invariant
            all == items_view(items@),
            i <= items@.len(),
            symbols::symbols_view(out@) == all_item_symbols(path@, all.take(i as int)),
        decreases items@.len() - i,
    {
        proof {
            assert(all.take(i + 1).drop_last() =~= all.take(i as int));
            assert(all.take(i + 1).last() == items@[i as int]@);
        }
        push_item_symbols(path, &items[i], &mut out);
        i = i + 1;
    }
    proof {
        assert(all.take(all.len() as int) =~= all);
    }
    out
}

fn step_path(path: &[usize], i: usize) -> (r: Vec<usize>)
    ensures
        r@ == path@.push(i),
{
    let mut r: Vec<usize> = Vec::new();
    let mut k: usize = 0;
    while k < path.len()
        invariant
            k <= path@.len(),
            r@ == path@.take(k as int),
        decreases path@.len() - k,
    {
        proof {
            assert(path@.take(k + 1) =~= path@.take(k as int).push(path@[k as int]));
        }
        r.push(path[k]);
        k = k + 1;
    }
    proof {
        assert(path@.take(path@.len() as int) =~= path@);
    }
    r.push(i);
    r
}

fn read_node(tree: &tree_sitter::Tree, path: &[usize], source: &str) -> (r: RustNode)
    requires
        leads_to_node(*tree, path@),
        tree_source(*tree) == source@,
        typescript_symbols::source_newlines(source@) < u32::MAX,
    ensures
        r@ == node_of(nodes(*tree)[path@]),
        has_lines(r@),
{
    let start = start_row(tree, path);
    let end = end_row(tree, path);
    RustNode {
        kind: node_kind(tree, path),
        name: name_field(tree, path, source),
        type_text: type_field(tree, path, source),
        start_line: start as u32 + 1,
        end_line: end as u32 + 1,
    }
}

fn read_block(tree: &tree_sitter::Tree, path: &[usize], source: &str) -> (r: RustBlock)
    requires
        leads_to_node(*tree, path@),
        tree_source(*tree) == source@,
        typescript_symbols::source_newlines(source@) < u32::MAX,
    ensures
        r@ == block_of(nodes(*tree), path@),
        members_have_lines(r@.members),
{
    let kind = node_kind(tree, path);
    let mut members: Vec<RustNode> = Vec::new();
    if same(kind.as_str(), "declaration_list") {
        let n = child_count(tree, path);
        let ghost all = block_of(nodes(*tree), path@).members;
        let mut k: usize = 0;
        while k < n
            invariant
                leads_to_node(*tree, path@),
                tree_source(*tree) == source@,
                typescript_symbols::source_newlines(source@) < u32::MAX,
                forall|i: usize| i < n ==> leads_to_node(*tree, #[trigger] path@.push(i)),
                all == block_of(nodes(*tree), path@).members,
                nodes(*tree)[path@].kind == "declaration_list"@,
                n == nodes(*tree)[path@].children,
                k <= n,
                members_view(members@) =~= all.take(k as int),
                members_have_lines(members_view(members@)),
            decreases n - k,
        {
            let inner = step_path(path, k);
            let ghost before = members@;
            members.push(read_node(tree, inner.as_slice(), source));
            proof {
                assert(members_view(members@) =~= members_view(before).push(
                    members@.last()@,
                ));
                assert(all.take(k + 1) =~= all.take(k as int).push(all[k as int]));
                assert forall|i: int| 0 <= i < members@.len() implies has_lines(
                    #[trigger] members_view(members@)[i],
                ) by {
                    if i < before.len() {
                        assert(members_view(members@)[i] == members_view(before)[i]);
                    }
                }
            }
            k = k + 1;
        }
        proof {
            assert(all.take(n as int) =~= all);
        }
    }
    let block = RustBlock { kind, members };
    proof {
        assert(block@.members =~= block_of(nodes(*tree), path@).members);
    }
    block
}

fn read_item(tree: &tree_sitter::Tree, path: &[usize], source: &str) -> (r: RustItem)
    requires
        leads_to_node(*tree, path@),
        tree_source(*tree) == source@,
        typescript_symbols::source_newlines(source@) < u32::MAX,
    ensures
        r@ == item_of(nodes(*tree), path@),
        item_has_lines(r@),
{
    let head = read_node(tree, path, source);
    let mut blocks: Vec<RustBlock> = Vec::new();
    if same(head.kind.as_str(), "impl_item") {
        let n = child_count(tree, path);
        let ghost all = item_of(nodes(*tree), path@).blocks;
        let mut j: usize = 0;
        while j < n
            invariant
                leads_to_node(*tree, path@),
                tree_source(*tree) == source@,
                typescript_symbols::source_newlines(source@) < u32::MAX,
                forall|i: usize| i < n ==> leads_to_node(*tree, #[trigger] path@.push(i)),
                all == item_of(nodes(*tree), path@).blocks,
                nodes(*tree)[path@].kind == "impl_item"@,
                n == nodes(*tree)[path@].children,
                j <= n,
                blocks_view(blocks@) =~= all.take(j as int),
                blocks_have_lines(blocks_view(blocks@)),
            decreases n - j,
        {
            let inner = step_path(path, j);
            let ghost before = blocks@;
            blocks.push(read_block(tree, inner.as_slice(), source));
            proof {
                assert(blocks_view(blocks@) =~= blocks_view(before).push(blocks@.last()@));
                assert(all.take(j + 1) =~= all.take(j as int).push(all[j as int]));
                assert forall|i: int| 0 <= i < blocks@.len() implies members_have_lines(
                    (#[trigger] blocks_view(blocks@)[i]).members,
                ) by {
                    if i < before.len() {
                        assert(blocks_view(blocks@)[i] == blocks_view(before)[i]);
                    }
                }
            }
            j = j + 1;
        }
        proof {
            assert(all.take(n as int) =~= all);
        }
    }
    let item = RustItem { head, blocks };
    proof {
        assert(item@.blocks =~= item_of(nodes(*tree), path@).blocks);
    }
    item
}

fn read_items(tree: &tree_sitter::Tree, source: &str) -> (r: Vec<RustItem>)
    requires
        leads_to_node(*tree, Seq::<usize>::empty()),
        tree_source(*tree) == source@,
        typescript_symbols::source_newlines(source@) < u32::MAX,
    ensures
        items_view(r@) == items_of(nodes(*tree)),
        items_have_lines(items_view(r@)),
{
    let root: Vec<usize> = Vec::new();
    let ghost all = items_of(nodes(*tree));
    proof {
        assert(root@ =~= Seq::<usize>::empty());
    }
    let n = child_count(tree, root.as_slice());
    let mut items: Vec<RustItem> = Vec::new();
    let mut i: usize = 0;
    while i < n
        invariant
            root@ == Seq::<usize>::empty(),
            leads_to_node(*tree, root@),
            tree_source(*tree) == source@,
            typescript_symbols::source_newlines(source@) < u32::MAX,
            forall|k: usize| k < n ==> leads_to_node(*tree, #[trigger] root@.push(k)),
            all == items_of(nodes(*tree)),
            n == nodes(*tree)[root@].children,
            i <= n,
            items_view(items@) =~= all.take(i as int),
            items_have_lines(items_view(items@)),
        decreases n - i,
    {
        let inner = step_path(root.as_slice(), i);
        let ghost before = items@;
        items.push(read_item(tree, inner.as_slice(), source));
        proof {
            assert(items_view(items@) =~= items_view(before).push(items@.last()@));
            assert(all.take(i + 1) =~= all.take(i as int).push(all[i as int]));
            assert forall|k: int| 0 <= k < items@.len() implies item_has_lines(
                #[trigger] items_view(items@)[k],
            ) by {
                if k < before.len() {
                    assert(items_view(items@)[k] == items_view(before)[k]);
                }
            }
        }
        i = i + 1;
    }
    proof {
        assert(all.take(n as int) =~= all);
    }
    items
}

/// The symbols of a Rust source text: functions, structs, traits, enums and `impl` blocks
/// at the top level, and the functions of `impl` blocks. The path is recorded in each
/// symbol as it stands.
pub fn parse_file(path: &str, source: &str) -> (r: Result<Vec<Symbol>, RepoError>)
    requires
        fits_parser(source@),
    ensures
        match r {
            Ok(found) => rust_nodes(source@) is Some && symbols::symbols_view(found@)
                == all_item_symbols(path@, items_of(rust_nodes(source@).unwrap()))
                && symbols_have_lines(symbols::symbols_view(found@)),
            Err(e) => rust_nodes(source@) is None && (e matches RepoError::ParseFailed(p) && p@
                == path@),
        },
{
    match parse_rust(source) {
        Some(tree) => {
            proof {
                let b = vstd::utf8::encode_utf8(source@);
                typescript_symbols::lemma_newlines_bound(b, b.len() as int);
            }
            let items = read_items(&tree, source);
            proof {
                law_symbols_have_lines(path@, items_view(items@));
            }
            Ok(symbols_of_items(path, items.as_slice()))
        },
        None => Err(RepoError::ParseFailed(own(path))),
    }
}

/// Whether a Rust source text parses without error: `Some(true)` if it does, `Some(false)`
/// if its tree holds an error, `None` if there is no tree.
pub fn parses_cleanly(source: &str) -> (r: Option<bool>)
    requires
        fits_parser(source@),
    ensures
        match r {
            Some(clean) => rust_nodes(source@) is Some && clean == !rust_has_error(source@),
            None => rust_nodes(source@) is None,
        },
{
    match parse_rust(source) {
        Some(tree) => Some(!tree_has_error(&tree)),
        None => None,
    }
}

} // verus!
