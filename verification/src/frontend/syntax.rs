//! Syntax trees as plain lists of nodes.

use tree_sitter_go::LANGUAGE as GO;
use tree_sitter_python::LANGUAGE as PYTHON;
use tree_sitter_typescript::LANGUAGE_TSX;
use tree_sitter_typescript::LANGUAGE_TYPESCRIPT;
use vstd::prelude::*;

use crate::ir::opt;
use crate::ir::views;
use crate::lang::Language;
use crate::paths::extension;
use crate::paths::extension_of;
use crate::text::same;

verus! {

/// The grammars.
#[derive(Debug, Clone, Copy, PartialEq, Eq, Structural)]
pub enum Dialect {
    Python,
    TypeScript,
    Tsx,
    Go,
}

/// The grammar for a file. Only `.ts`, `.mts` and `.cts` get the one in which
/// `<T>expr` is a type assertion; every other script gets the one that reads
/// plain and embedded markup alike, since `.js` files hold either.
pub open spec fn dialect_of(lang: Language, file: Seq<char>) -> Option<Dialect> {
    match lang {
        Language::Python => Some(Dialect::Python),
        Language::Go => Some(Dialect::Go),
        Language::TypeScript => match extension(file) {
            Some(e) => if e == "ts"@ || e == "mts"@ || e == "cts"@ {
                Some(Dialect::TypeScript)
            } else {
                Some(Dialect::Tsx)
            },
            None => Some(Dialect::Tsx),
        },
        Language::Rust => None,
    }
}

/// The grammar for a file.
pub fn grammar(lang: Language, file: &str) -> (r: Option<Dialect>)
    ensures
        r == dialect_of(lang, file@),
{
    match lang {
        Language::Python => Some(Dialect::Python),
        Language::Go => Some(Dialect::Go),
        Language::TypeScript => match extension_of(file) {
            Some(e) => if same(e.as_str(), "ts") || same(e.as_str(), "mts") || same(
                e.as_str(),
                "cts",
            ) {
                Some(Dialect::TypeScript)
            } else {
                Some(Dialect::Tsx)
            },
            None => Some(Dialect::Tsx),
        },
        Language::Rust => None,
    }
}

/// What a node is.
#[verifier::ext_equal]
pub struct NodeView {
    pub kind: Seq<char>,
    pub field: Option<Seq<char>>,
    pub text: Seq<char>,
    pub row: nat,
    pub named: bool,
    pub depth: nat,
}

/// A node of a syntax tree. A tree is the list of its nodes, each before
/// those below it, and those in the order of the source.
#[derive(Debug)]
pub struct SyntaxNode {
    pub kind: String,
    /// The role of the node in the one above it.
    pub field: Option<String>,
    /// Its source.
    pub text: String,
    /// The line on which it starts, counted from 0.
    pub row: usize,
    /// It is no mere punctuation or keyword.
    pub named: bool,
    /// How many nodes stand above it.
    pub depth: usize,
}

impl View for SyntaxNode {
    type V = NodeView;

    open spec fn view(&self) -> NodeView {
        NodeView {
            kind: self.kind@,
            field: opt(self.field),
            text: self.text@,
            row: self.row as nat,
            named: self.named,
            depth: self.depth as nat,
        }
    }
}

/// The rows can be counted from 1.
pub open spec fn rows_fit(nodes: Seq<NodeView>) -> bool {
    forall|i: int| 0 <= i < nodes.len() ==> (#[trigger] nodes[i]).row < usize::MAX
}

/// The tree that `Parser::parse` of tree-sitter gives for a source under a
/// grammar, as the list of its nodes; nothing where it gives none.
pub uninterp spec fn syntax(source: Seq<char>, dialect: Dialect) -> Option<Seq<NodeView>>;

/// A node as tree-sitter tells it: its kind, its role, its source, its row,
/// whether it is named, and its depth.
type Told = (&'static str, Option<&'static str>, String, usize, bool, u32);

spec fn told_view(n: Told) -> NodeView {
    NodeView {
        kind: n.0@,
        field: match n.1 {
            Some(f) => Some(f@),
            None => None,
        },
        text: n.2@,
        row: n.3 as nat,
        named: n.4,
        depth: n.5 as nat,
    }
}

spec fn told_views(v: Seq<Told>) -> Seq<NodeView> {
    v.map_values(|n: Told| told_view(n))
}

/// Calls `Parser::parse` of tree-sitter with the grammar, and lists the nodes
/// of the tree with `TreeCursor::goto_descendant`: the list is a function of
/// the source and the grammar. A row counts line ends in the source, so it is
/// below the largest `usize`.
#[verifier::external_body]
fn told_nodes(source: &str, dialect: Dialect) -> (r: Option<Vec<Told>>)
    ensures
        match r {
            Some(v) => syntax(source@, dialect) == Some(told_views(v@)) && rows_fit(
                told_views(v@),
            ),
            None => syntax(source@, dialect) is None,
        },
{
    let mut parser = tree_sitter::Parser::new();
    let language = match dialect {
        Dialect::Python => PYTHON,
        Dialect::Go => GO,
        Dialect::TypeScript => LANGUAGE_TYPESCRIPT, Dialect::Tsx => LANGUAGE_TSX,
    };
    parser.set_language(&language.into()).ok()?;
    let tree = parser.parse(source, None)?;
    let (mut nodes, mut at) = (Vec::new(), tree.walk());
    for i in 0..tree.root_node().descendant_count() {
        at.goto_descendant(i);
        let n = at.node();
        nodes.push((n.kind(), at.field_name(), source.get(n.byte_range())?.to_string(), n.start_position().row, n.is_named(), at.depth()));
    }
    Some(nodes)
}

/// The nodes of the tree that a source has under a grammar, where it has one.
pub(crate) fn parse_nodes(source: &str, dialect: Dialect) -> (r: Option<Vec<SyntaxNode>>)
    ensures
        match r {
            Some(v) => syntax(source@, dialect) == Some(views(v@)) && rows_fit(views(v@)),
            None => syntax(source@, dialect) is None,
        },
{
    let told = match told_nodes(source, dialect) {
        Some(v) => v,
        None => {
            return None;
        },
    };
    let ghost all = told_views(told@);
    let mut r: Vec<SyntaxNode> = Vec::new();
    let mut i: usize = 0;
    assert(views(r@) =~= all.take(0));
    while i < told.len()
        invariant
            0 <= i <= told@.len(),
            all == told_views(told@),
            views(r@) == all.take(i as int),
        decreases told@.len() - i,
    {
        let n = &told[i];
        let node = SyntaxNode {
            kind: n.0.to_owned(),
            field: match n.1 {
                Some(f) => Some(f.to_owned()),
                None => None,
            },
            text: n.2.clone(),
            row: n.3,
            named: n.4,
            depth: n.5 as usize,
        };
        let ghost before = r@;
        r.push(node);
        proof {
            assert(all[i as int] == told_view(told@[i as int]));
            assert(node@ =~= all[i as int]);
            assert(views(r@) =~= views(before).push(node@));
            assert(all.take(i + 1) =~= all.take(i as int).push(all[i as int]));
        }
        i += 1;
    }
    assert(all.take(all.len() as int) =~= all);
    Some(r)
}

// ---------------------------------------------------------------------------
// Around a node
// ---------------------------------------------------------------------------

/// The first node from `j` on that stands directly below `i` in the role
/// `field`.
pub open spec fn kid_from(nodes: Seq<NodeView>, i: int, j: int, field: Seq<char>) -> Option<int>
    decreases nodes.len() - j,
{
    if j < 0 || j >= nodes.len() || nodes[j].depth <= nodes[i].depth {
        None
    } else if nodes[j].depth == nodes[i].depth + 1 && nodes[j].field == Some(field) {
        Some(j)
    } else {
        kid_from(nodes, i, j + 1, field)
    }
}

/// The node directly below `i` in the role `field`.
pub open spec fn kid(nodes: Seq<NodeView>, i: int, field: Seq<char>) -> Option<int> {
    kid_from(nodes, i, i + 1, field)
}

/// The last node up to `j` that stands above `i`.
pub open spec fn above_from(nodes: Seq<NodeView>, i: int, j: int) -> Option<int>
    decreases j + 1,
{
    if j < 0 {
        None
    } else if nodes[j].depth < nodes[i].depth {
        Some(j)
    } else {
        above_from(nodes, i, j - 1)
    }
}

/// The node directly above `i`.
pub open spec fn above(nodes: Seq<NodeView>, i: int) -> Option<int> {
    above_from(nodes, i, i - 1)
}

/// `j` stands below `i`, at any distance, or is `i`.
pub open spec fn in_subtree(nodes: Seq<NodeView>, i: int, j: int) -> bool {
    &&& 0 <= i <= j < nodes.len()
    &&& forall|k: int| i < k <= j ==> (#[trigger] nodes[k]).depth > nodes[i].depth
}

/// `j` stands directly below `i`.
pub open spec fn child(nodes: Seq<NodeView>, i: int, j: int) -> bool {
    i < j && in_subtree(nodes, i, j) && nodes[j].depth == nodes[i].depth + 1
}

/// What is found above a node stands before it.
pub proof fn above_is_before(nodes: Seq<NodeView>, i: int, j: int)
    ensures
        above_from(nodes, i, j) matches Some(k) ==> 0 <= k <= j,
    decreases j + 1,
{
    if j >= 0 && nodes[j].depth >= nodes[i].depth {
        above_is_before(nodes, i, j - 1);
    }
}

/// What is found below a node stands behind it, in the list.
pub proof fn kid_is_behind(nodes: Seq<NodeView>, i: int, j: int, field: Seq<char>)
    requires
        0 <= j,
    ensures
        kid_from(nodes, i, j, field) matches Some(k) ==> j <= k < nodes.len(),
    decreases nodes.len() - j,
{
    if j < nodes.len() && nodes[j].depth > nodes[i].depth {
        kid_is_behind(nodes, i, j + 1, field);
    }
}

/// A place in a list as a number.
pub open spec fn place(r: Option<usize>) -> Option<int> {
    match r {
        Some(k) => Some(k as int),
        None => None,
    }
}

/// The node directly below `i` in the role `field`.
pub fn kid_of(nodes: &Vec<SyntaxNode>, i: usize, field: &str) -> (r: Option<usize>)
    requires
        i < nodes@.len(),
    ensures
        place(r) == kid(views(nodes@), i as int, field@),
        r matches Some(k) ==> i < k < nodes@.len(),
{
    let ghost v = views(nodes@);
    let depth: usize = nodes[i].depth;
    let len: usize = nodes.len();
    let mut j: usize = i + 1;
    while j < len
        invariant
            i < j <= len,
            len == nodes@.len(),
            i < nodes@.len(),
            v == views(nodes@),
            depth == v[i as int].depth,
            kid(v, i as int, field@) == kid_from(v, i as int, j as int, field@),
        decreases nodes@.len() - j,
    {
        let n = &nodes[j];
        proof {
            assert(v[j as int] == n@);
        }
        if n.depth <= depth {
            return None;
        }
        if n.depth - depth == 1 {
            if let Some(f) = &n.field {
                if same(f.as_str(), field) {
                    return Some(j);
                }
            }
        }
        j += 1;
    }
    None
}

/// The node directly above `i`.
pub fn above_of(nodes: &Vec<SyntaxNode>, i: usize) -> (r: Option<usize>)
    requires
        i < nodes@.len(),
    ensures
        place(r) == above(views(nodes@), i as int),
        r matches Some(k) ==> k < i,
{
    let ghost v = views(nodes@);
    let depth: usize = nodes[i].depth;
    let mut j: usize = i;
    while j > 0
        invariant
            0 <= j <= i,
            i < nodes@.len(),
            v == views(nodes@),
            depth == v[i as int].depth,
            above(v, i as int) == above_from(v, i as int, j - 1),
        decreases j,
    {
        j -= 1;
        proof {
            assert(v[j as int] == nodes@[j as int]@);
        }
        if nodes[j].depth < depth {
            return Some(j);
        }
    }
    None
}

} // verus!
