//! What stands where in a syntax tree, said of the list of its nodes.

use vstd::prelude::*;

use crate::frontend::syntax::above;
use crate::frontend::syntax::above_from;
use crate::frontend::syntax::kid;
use crate::frontend::syntax::kid_from;
use crate::frontend::syntax::NodeView;
use crate::frontend::tree_sitter_frontend::body_from;
use crate::frontend::tree_sitter_frontend::named_from;
use crate::frontend::tree_sitter_frontend::under_export;

verus! {

/// Node `k` stands directly below node `i`: everything from `i` up to it is
/// deeper than `i`, and it is one deeper.
pub open spec fn directly_below(nodes: Seq<NodeView>, i: int, k: int) -> bool {
    &&& 0 <= i < k < nodes.len()
    &&& nodes[k].depth == nodes[i].depth + 1
    &&& forall|j: int| i < j <= k ==> (#[trigger] nodes[j]).depth > nodes[i].depth
}

/// Node `k` is the first directly below `i` in the role.
pub open spec fn in_role(nodes: Seq<NodeView>, i: int, role: Seq<char>, k: int) -> bool {
    &&& directly_below(nodes, i, k)
    &&& nodes[k].field == Some(role)
    &&& forall|j: int| i < j < k && #[trigger] directly_below(nodes, i, j) ==> nodes[j].field
        != Some(role)
}

/// No node directly below `i` has the role.
pub open spec fn no_role(nodes: Seq<NodeView>, i: int, role: Seq<char>) -> bool {
    forall|k: int| #[trigger] directly_below(nodes, i, k) ==> nodes[k].field != Some(role)
}

/// Node `p` stands directly above node `i`: it is the last before it that is
/// less deep.
pub open spec fn directly_above(nodes: Seq<NodeView>, i: int, p: int) -> bool {
    &&& 0 <= p < i < nodes.len()
    &&& nodes[p].depth < nodes[i].depth
    &&& forall|j: int| p < j < i ==> (#[trigger] nodes[j]).depth >= nodes[i].depth
}

proof fn kid_from_is_first(nodes: Seq<NodeView>, i: int, j: int, role: Seq<char>)
    requires
        0 <= i < j <= nodes.len(),
        forall|x: int| i < x < j ==> (#[trigger] nodes[x]).depth > nodes[i].depth,
    ensures
        match kid_from(nodes, i, j, role) {
            Some(k) => j <= k && directly_below(nodes, i, k) && nodes[k].field == Some(role)
                && forall|x: int|
                j <= x < k && #[trigger] directly_below(nodes, i, x) ==> nodes[x].field != Some(
                    role,
                ),
            None => forall|x: int|
                j <= x && #[trigger] directly_below(nodes, i, x) ==> nodes[x].field != Some(role),
        },
    decreases nodes.len() - j,
{
    if j < nodes.len() && nodes[j].depth > nodes[i].depth {
        if !(nodes[j].depth == nodes[i].depth + 1 && nodes[j].field == Some(role)) {
            kid_from_is_first(nodes, i, j + 1, role);
        }
    }
}

/// The node that is found in a role is the first that has it, and none is
/// found only where none has it.
pub proof fn roles_are_found(nodes: Seq<NodeView>, i: int, role: Seq<char>, k: int)
    requires
        0 <= i < nodes.len(),
    ensures
        kid(nodes, i, role) == Some(k) <==> in_role(nodes, i, role, k),
        kid(nodes, i, role) is None <==> no_role(nodes, i, role),
{
    kid_from_is_first(nodes, i, i + 1, role);
    match kid(nodes, i, role) {
        Some(x) => {
            assert(in_role(nodes, i, role, x));
            if in_role(nodes, i, role, k) {
                assert(directly_below(nodes, i, k));
                assert(directly_below(nodes, i, x));
                assert(k == x);
            }
        },
        None => {
            if in_role(nodes, i, role, k) {
                assert(directly_below(nodes, i, k));
            }
        },
    }
}

proof fn above_from_is_last(nodes: Seq<NodeView>, i: int, j: int)
    requires
        0 <= i < nodes.len(),
        j < i,
        forall|x: int| j < x < i ==> (#[trigger] nodes[x]).depth >= nodes[i].depth,
    ensures
        match above_from(nodes, i, j) {
            Some(p) => directly_above(nodes, i, p),
            None => forall|x: int| 0 <= x < i ==> (#[trigger] nodes[x]).depth >= nodes[i].depth,
        },
    decreases j + 1,
{
    if j >= 0 && !(nodes[j].depth < nodes[i].depth) {
        above_from_is_last(nodes, i, j - 1);
    }
}

/// The node that is found above another is the last before it that is less
/// deep, and none is found only where none is.
pub proof fn the_node_above_is_found(nodes: Seq<NodeView>, i: int, p: int)
    requires
        0 <= i < nodes.len(),
    ensures
        above(nodes, i) == Some(p) <==> directly_above(nodes, i, p),
        above(nodes, i) is None <==> forall|x: int| !#[trigger] directly_above(nodes, i, x),
{
    above_from_is_last(nodes, i, i - 1);
    match above(nodes, i) {
        Some(q) => {
            assert(directly_above(nodes, i, q));
            if directly_above(nodes, i, p) {
                assert(p == q);
            }
        },
        None => {
            assert forall|x: int| !#[trigger] directly_above(nodes, i, x) by {
                if directly_above(nodes, i, x) {
                    assert(nodes[x].depth >= nodes[i].depth);
                }
            }
        },
    }
}

/// Node `k` is the first directly below `i` that is no mere punctuation.
pub open spec fn first_named_below(nodes: Seq<NodeView>, i: int, k: int) -> bool {
    &&& directly_below(nodes, i, k)
    &&& nodes[k].named
    &&& forall|j: int| i < j < k && #[trigger] directly_below(nodes, i, j) ==> !nodes[j].named
}

proof fn named_from_is_first(nodes: Seq<NodeView>, i: int, j: int)
    requires
        0 <= i < j <= nodes.len(),
        forall|x: int| i < x < j ==> (#[trigger] nodes[x]).depth > nodes[i].depth,
    ensures
        match named_from(nodes, i, j) {
            Some(k) => j <= k && directly_below(nodes, i, k) && nodes[k].named && forall|x: int|
                j <= x < k && #[trigger] directly_below(nodes, i, x) ==> !nodes[x].named,
            None => forall|x: int|
                j <= x && #[trigger] directly_below(nodes, i, x) ==> !nodes[x].named,
        },
    decreases nodes.len() - j,
{
    if j < nodes.len() && nodes[j].depth > nodes[i].depth {
        if !(nodes[j].depth == nodes[i].depth + 1 && nodes[j].named) {
            named_from_is_first(nodes, i, j + 1);
        }
    }
}

/// The first named node below another is found.
pub proof fn the_first_named_is_found(nodes: Seq<NodeView>, i: int, k: int)
    requires
        0 <= i < nodes.len(),
    ensures
        named_from(nodes, i, i + 1) == Some(k) <==> first_named_below(nodes, i, k),
{
    named_from_is_first(nodes, i, i + 1);
    match named_from(nodes, i, i + 1) {
        Some(x) => {
            assert(first_named_below(nodes, i, x));
            if first_named_below(nodes, i, k) {
                assert(directly_below(nodes, i, k));
                assert(directly_below(nodes, i, x));
                assert(k == x);
            }
        },
        None => {
            if first_named_below(nodes, i, k) {
                assert(directly_below(nodes, i, k));
            }
        },
    }
}

/// Node `k` is a function that is written where it is used.
pub open spec fn function_value(n: NodeView) -> bool {
    n.kind == "arrow_function"@ || n.kind == "function_expression"@ || n.kind == "function"@
}

/// A function is found among the named nodes below another, from a position
/// on, exactly where there is one.
pub proof fn a_body_is_found(nodes: Seq<NodeView>, i: int, j: int)
    requires
        0 <= i < j <= nodes.len(),
        forall|x: int| i < x < j ==> (#[trigger] nodes[x]).depth > nodes[i].depth,
    ensures
        body_from(nodes, i, j) <==> exists|k: int|
            j <= k && #[trigger] directly_below(nodes, i, k) && nodes[k].named && function_value(
                nodes[k],
            ),
    decreases nodes.len() - j,
{
    if j < nodes.len() && nodes[j].depth > nodes[i].depth {
        a_body_is_found(nodes, i, j + 1);
        if nodes[j].depth == nodes[i].depth + 1 {
            assert(directly_below(nodes, i, j));
        }
        if body_from(nodes, i, j + 1) {
            let k = choose|k: int|
                j + 1 <= k && #[trigger] directly_below(nodes, i, k) && nodes[k].named
                    && function_value(nodes[k]);
            assert(directly_below(nodes, i, k));
        }
    }
}

/// The nodes from `i` upwards, each directly above the one before.
pub open spec fn way_up(nodes: Seq<NodeView>, i: int, way: Seq<int>) -> bool {
    &&& way.len() > 0
    &&& way[0] == i
    &&& forall|j: int|
        0 <= j < way.len() - 1 ==> directly_above(nodes, #[trigger] way[j], way[j + 1])
}

/// What stands below an export, at any distance, or is one, is exported; and
/// so is nothing else.
pub proof fn exports_reach_down(nodes: Seq<NodeView>, i: int)
    requires
        0 <= i < nodes.len(),
    ensures
        under_export(nodes, i) <==> exists|way: Seq<int>|
            #[trigger] way_up(nodes, i, way) && ({
                let top = nodes[way.last()];
                top.kind == "export_statement"@ || top.kind == "export_clause"@
            }),
    decreases i,
{
    the_node_above_is_found(nodes, i, 0);
    let here = nodes[i].kind == "export_statement"@ || nodes[i].kind == "export_clause"@;
    if here {
        assert(way_up(nodes, i, seq![i]));
        assert(seq![i].last() == i);
    }
    if let Some(p) = above(nodes, i) {
        the_node_above_is_found(nodes, i, p);
        exports_reach_down(nodes, p);
        if under_export(nodes, p) {
            let way = choose|way: Seq<int>|
                #[trigger] way_up(nodes, p, way) && ({
                    let top = nodes[way.last()];
                    top.kind == "export_statement"@ || top.kind == "export_clause"@
                });
            let longer = seq![i] + way;
            assert forall|j: int| 0 <= j < longer.len() - 1 implies directly_above(
                nodes,
                #[trigger] longer[j],
                longer[j + 1],
            ) by {
                if j > 0 {
                    assert(longer[j] == way[j - 1]);
                    assert(longer[j + 1] == way[j - 1 + 1]);
                } else {
                    assert(longer[1] == way[0]);
                }
            }
            assert(way_up(nodes, i, longer));
            assert(longer.last() == way.last());
        }
    }
    assert forall|way: Seq<int>|
        #[trigger] way_up(nodes, i, way) && ({
            let top = nodes[way.last()];
            top.kind == "export_statement"@ || top.kind == "export_clause"@
        }) implies under_export(nodes, i) by {
        if way.len() == 1 {
            assert(way.last() == way[0]);
        } else {
            let p = way[1];
            assert(directly_above(nodes, way[0], p));
            the_node_above_is_found(nodes, i, p);
            let shorter = way.skip(1);
            assert forall|j: int| 0 <= j < shorter.len() - 1 implies directly_above(
                nodes,
                #[trigger] shorter[j],
                shorter[j + 1],
            ) by {
                assert(shorter[j] == way[j + 1]);
                assert(shorter[j + 1] == way[j + 1 + 1]);
            }
            assert(way_up(nodes, p, shorter));
            assert(shorter.last() == way.last());
            exports_reach_down(nodes, p);
        }
    }
}

} // verus!
