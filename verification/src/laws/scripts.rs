//! What is read out of a file of any language but Rust.

use vstd::prelude::*;

use crate::frontend::syntax::NodeView;
use crate::frontend::tree_sitter_frontend::after_node;
use crate::frontend::tree_sitter_frontend::call_kinds;
use crate::frontend::tree_sitter_frontend::called;
use crate::frontend::tree_sitter_frontend::enclosing;
use crate::frontend::tree_sitter_frontend::function_kinds;
use crate::frontend::tree_sitter_frontend::member;
use crate::frontend::tree_sitter_frontend::test_declared;
use crate::frontend::tree_sitter_frontend::type_kinds;
use crate::frontend::tree_sitter_frontend::walked;
use crate::frontend::tree_sitter_frontend::FileView;
use crate::frontend::tree_sitter_frontend::ScopeView;
use crate::frontend::tree_sitter_frontend::WalkView;
use crate::ir::DefinitionView;
use crate::ir::EdgeKind;
use crate::ir::EdgeView;
use crate::lang::Language;
use crate::laws::texts::cut_at_the_last;
use crate::laws::texts::nothing_to_cut;
use crate::laws::texts::shedding_takes_the_ends;
use crate::laws::texts::trimming_takes_the_ends;
use crate::laws::texts::what_begins_has_a_rest;
use crate::laws::trees::a_body_is_found;
use crate::laws::trees::directly_below;
use crate::laws::trees::first_named_below;
use crate::laws::trees::function_value;
use crate::laws::trees::in_role;
use crate::laws::trees::no_role;
use crate::laws::trees::roles_are_found;
use crate::laws::trees::the_first_named_is_found;
use crate::text::after_last;
use crate::text::begins;
use crate::text::ends;
use crate::text::uppercase;
use crate::text::white;

verus! {

// ---------------------------------------------------------------------------
// What each language calls things
// ---------------------------------------------------------------------------

/// The kinds of node that declare a function.
pub open spec fn declares_a_function(lang: Language, kind: Seq<char>) -> bool {
    match lang {
        Language::Python => kind == "function_definition"@,
        Language::TypeScript => {
            ||| kind == "function_declaration"@
            ||| kind == "function_expression"@
            ||| kind == "generator_function_declaration"@
            ||| kind == "method_definition"@
            ||| kind == "arrow_function"@
            ||| kind == "generator_function"@
        },
        Language::Go => kind == "function_declaration"@ || kind == "method_declaration"@,
        Language::Rust => kind == "function_item"@,
    }
}

/// The kinds of node that declare a type.
pub open spec fn declares_a_type(lang: Language, kind: Seq<char>) -> bool {
    match lang {
        Language::Python => kind == "class_definition"@,
        Language::TypeScript => kind == "class_declaration"@ || kind == "class"@,
        Language::Go => kind == "type_declaration"@,
        Language::Rust => kind == "impl_item"@,
    }
}

/// The kinds of node that call what stands in the role of a function.
pub open spec fn calls_a_function(lang: Language, kind: Seq<char>) -> bool {
    match lang {
        Language::Python => kind == "call"@,
        Language::TypeScript => kind == "call_expression"@ || kind == "new_expression"@,
        Language::Go => kind == "call_expression"@,
        Language::Rust => kind == "call_expression"@,
    }
}

/// The kinds of node that use a component by its tag.
pub open spec fn uses_a_tag(lang: Language, kind: Seq<char>) -> bool {
    lang == Language::TypeScript && (kind == "jsx_self_closing_element"@ || kind
        == "jsx_opening_element"@)
}

proof fn listed_or_not<T>(s: Seq<T>, x: T, n: int)
    requires
        0 <= n <= s.len(),
    ensures
        s.take(n).contains(x) ==> s.contains(x),
        n == s.len() ==> s.take(n).contains(x) == s.contains(x),
{
    if s.take(n).contains(x) {
        let i = choose|i: int| 0 <= i < n && s.take(n)[i] == x;
        assert(s[i] == x);
    }
    if n == s.len() {
        assert(s.take(n) =~= s);
    }
}

/// Each language has just these kinds.
pub proof fn kinds_are_spelled_out(lang: Language, kind: Seq<char>)
    ensures
        function_kinds(lang).contains(kind) == declares_a_function(lang, kind),
        type_kinds(lang).contains(kind) == declares_a_type(lang, kind),
        call_kinds(lang).contains(kind) == (calls_a_function(lang, kind) || uses_a_tag(
            lang,
            kind,
        )),
{
    let f = function_kinds(lang);
    let t = type_kinds(lang);
    let c = call_kinds(lang);
    assert(f[0] == f[0] && t[0] == t[0] && c[0] == c[0]);
    assert(f[1] == f[1] && t[1] == t[1] && c[1] == c[1]);
    assert(f[2] == f[2] && c[2] == c[2]);
    assert(f[3] == f[3] && c[3] == c[3]);
    assert(f[4] == f[4]);
    assert(f[5] == f[5]);
}

/// A node that calls declares nothing, and is neither a literal nor a name.
proof fn calls_are_only_calls(lang: Language, kind: Seq<char>)
    requires
        calls_a_function(lang, kind) || uses_a_tag(lang, kind),
    ensures
        !declares_a_function(lang, kind),
        !declares_a_type(lang, kind),
        kind != "string"@,
        kind != "raw_string_literal"@,
        kind != "interpreted_string_literal"@,
        kind != "shorthand_property_identifier"@,
        kind != "identifier"@,
        calls_a_function(lang, kind) ==> !begins(kind, "jsx_"@),
        uses_a_tag(lang, kind) ==> begins(kind, "jsx_"@) && kind != "call_expression"@,
{
    reveal_strlit("call");
    reveal_strlit("call_expression");
    reveal_strlit("new_expression");
    reveal_strlit("jsx_self_closing_element");
    reveal_strlit("jsx_opening_element");
    reveal_strlit("jsx_");
    reveal_strlit("string");
    reveal_strlit("raw_string_literal");
    reveal_strlit("interpreted_string_literal");
    reveal_strlit("shorthand_property_identifier");
    reveal_strlit("identifier");
    reveal_strlit("function_definition");
    reveal_strlit("function_declaration");
    reveal_strlit("function_expression");
    reveal_strlit("generator_function_declaration");
    reveal_strlit("method_definition");
    reveal_strlit("arrow_function");
    reveal_strlit("generator_function");
    reveal_strlit("method_declaration");
    reveal_strlit("function_item");
    reveal_strlit("class_definition");
    reveal_strlit("class_declaration");
    reveal_strlit("class");
    reveal_strlit("type_declaration");
    reveal_strlit("impl_item");
    assert("class"@.len() == 5 && "class_definition"@.len() == 16 && "class_declaration"@.len() == 17
        && "type_declaration"@.len() == 16 && "impl_item"@.len() == 9);
    assert(kind.len() == 4 || kind.len() == 15 || kind.len() == 14 || kind.len() == 24
        || kind.len() == 19);
    assert(kind[0] == 'c' || kind[0] == 'n' || kind[0] == 'j');
    if calls_a_function(lang, kind) && begins(kind, "jsx_"@) {
        assert(kind.subrange(0, 4)[0] == kind[0]);
        assert("jsx_"@[0] == 'j');
    }
    if uses_a_tag(lang, kind) {
        assert(kind.subrange(0, 4) =~= "jsx_"@);
    }
}

// ---------------------------------------------------------------------------
// Where the walk stands
// ---------------------------------------------------------------------------

/// What encloses a node is what the walk has entered and not left: all that
/// was entered last at this depth or deeper is left, and the rest stays.
pub proof fn scopes_are_left(stack: Seq<ScopeView>, depth: nat)
    ensures
        ({
            let rest = enclosing(stack, depth);
            &&& rest.len() <= stack.len()
            &&& rest == stack.take(rest.len() as int)
            &&& rest.len() > 0 ==> rest.last().depth < depth
            &&& forall|j: int|
                rest.len() <= j < stack.len() ==> (#[trigger] stack[j]).depth >= depth
        }),
    decreases stack.len(),
{
    if stack.len() > 0 && stack.last().depth >= depth {
        let less = stack.drop_last();
        scopes_are_left(less, depth);
        let rest = enclosing(stack, depth);
        assert(less.take(rest.len() as int) =~= stack.take(rest.len() as int));
        assert forall|j: int| rest.len() <= j < stack.len() implies (#[trigger] stack[j]).depth
            >= depth by {
            if j < less.len() {
                assert(less[j] == stack[j]);
            }
        }
    } else {
        assert(stack.take(stack.len() as int) =~= stack);
    }
}

/// The scopes that are entered get deeper and deeper.
pub open spec fn deepening(stack: Seq<ScopeView>) -> bool {
    forall|i: int, j: int|
        0 <= i < j < stack.len() ==> (#[trigger] stack[i]).depth < (#[trigger] stack[j]).depth
}

/// A walk only ever enters deeper scopes, so that what it is inside of at a
/// node is exactly what it entered at a lesser depth.
pub proof fn scopes_deepen(f: FileView, nodes: Seq<NodeView>, n: int, start: WalkView)
    requires
        0 <= n <= nodes.len(),
    ensures
        deepening(walked(f, nodes, n, start).fns),
        deepening(walked(f, nodes, n, start).types),
    decreases n,
{
    if n > 0 {
        scopes_deepen(f, nodes, n - 1, start);
        let w = walked(f, nodes, n - 1, start);
        let depth = nodes[n - 1].depth;
        scopes_are_left(w.fns, depth);
        scopes_are_left(w.types, depth);
        let fns = enclosing(w.fns, depth);
        let types = enclosing(w.types, depth);
        assert(deepening(fns)) by {
            assert forall|i: int, j: int| 0 <= i < j < fns.len() implies (#[trigger] fns[i]).depth
                < (#[trigger] fns[j]).depth by {
                assert(fns[i] == w.fns[i] && fns[j] == w.fns[j]);
            }
        }
        assert(deepening(types)) by {
            assert forall|i: int, j: int| 0 <= i < j < types.len() implies (
            #[trigger] types[i]).depth < (#[trigger] types[j]).depth by {
                assert(types[i] == w.types[i] && types[j] == w.types[j]);
            }
        }
        let now = walked(f, nodes, n, start);
        entering_deepens(fns, depth, now.fns);
        entering_deepens(types, depth, now.types);
    }
}

proof fn entering_deepens(stack: Seq<ScopeView>, depth: nat, now: Seq<ScopeView>)
    requires
        deepening(stack),
        stack.len() > 0 ==> stack.last().depth < depth,
    ensures
        now == stack ==> deepening(now),
        (now.len() > 0 && now.last().depth == depth && now == stack.push(now.last()))
            ==> deepening(now),
{
    if now.len() > 0 && now.last().depth == depth && now == stack.push(now.last()) {
        assert forall|i: int, j: int| 0 <= i < j < now.len() implies (#[trigger] now[i]).depth < (
        #[trigger] now[j]).depth by {
            assert(now[i] == stack[i]);
            if j < stack.len() {
                assert(now[j] == stack[j]);
            } else if i < stack.len() - 1 {
                assert(stack[i].depth < stack[stack.len() - 1].depth);
            }
        }
    }
}

/// The function around a node: the last that the walk entered at a lesser
/// depth. Outside any, the module itself calls, which in a test file is no
/// production code.
pub open spec fn made_by(e: EdgeView, f: FileView, fns: Seq<ScopeView>, depth: nat) -> bool {
    &&& forall|k: int|
        0 <= k < fns.len() && (#[trigger] fns[k]).depth < depth && (forall|j: int|
            k < j < fns.len() ==> (#[trigger] fns[j]).depth >= depth) ==> e.from.name
            == fns[k].name
    &&& (forall|k: int| 0 <= k < fns.len() ==> (#[trigger] fns[k]).depth >= depth) ==> e.from.name
        == (if f.in_test {
        "<test module>"@
    } else {
        ""@
    })
}

/// The edge is a call of `to`, by its bare name, at a node.
pub open spec fn call_of(
    e: EdgeView,
    f: FileView,
    to: Seq<char>,
    kind: EdgeKind,
    n: NodeView,
    fns: Seq<ScopeView>,
) -> bool {
    &&& e.to.name == to
    &&& e.to.self_ty is None
    &&& e.to.krate is None
    &&& e.to.path is None
    &&& e.kind == kind
    &&& e.line == n.row + 1
    &&& e.file == f.file
    &&& e.in_test == f.in_test
    &&& made_by(e, f, fns, n.depth)
}

/// A call at a node is made by the function around it.
pub proof fn edges_are_made_by(
    f: FileView,
    fns: Seq<ScopeView>,
    to: Seq<char>,
    kind: EdgeKind,
    n: NodeView,
)
    ensures
        call_of(
            crate::frontend::tree_sitter_frontend::edge_at(
                f,
                enclosing(fns, n.depth),
                to,
                kind,
                n.row,
            ),
            f,
            to,
            kind,
            n,
            fns,
        ),
{
    scopes_are_left(fns, n.depth);
    let rest = enclosing(fns, n.depth);
    let e = crate::frontend::tree_sitter_frontend::edge_at(f, rest, to, kind, n.row);
    assert forall|k: int|
        0 <= k < fns.len() && (#[trigger] fns[k]).depth < n.depth && (forall|j: int|
            k < j < fns.len() ==> (#[trigger] fns[j]).depth >= n.depth) implies e.from.name
        == fns[k].name by {
        assert(k < rest.len());
        assert(rest[rest.len() - 1] == fns[rest.len() - 1]);
        if k < rest.len() - 1 {
            assert(fns[rest.len() - 1].depth >= n.depth);
        }
    }
    if forall|k: int| 0 <= k < fns.len() ==> (#[trigger] fns[k]).depth >= n.depth {
        if rest.len() > 0 {
            assert(rest[rest.len() - 1] == fns[rest.len() - 1]);
        }
    }
}

/// One call more, at the end.
pub open spec fn one_call_more(
    after: WalkView,
    w: WalkView,
    f: FileView,
    to: Seq<char>,
    kind: EdgeKind,
    n: NodeView,
) -> bool {
    &&& after.definitions == w.definitions
    &&& after.strings == w.strings
    &&& after.edges.len() == w.edges.len() + 1
    &&& after.edges.drop_last() == w.edges
    &&& call_of(after.edges.last(), f, to, kind, n, w.fns)
}

/// Nothing more was found.
pub open spec fn nothing_more(after: WalkView, w: WalkView) -> bool {
    after.definitions == w.definitions && after.strings == w.strings && after.edges == w.edges
}

// ---------------------------------------------------------------------------
// Tests that a call declares
// ---------------------------------------------------------------------------

/// The text calls `it` or `test`, or a member of that name.
pub open spec fn calls_it_or_test(t: Seq<char>) -> bool {
    t == "it"@ || t == "test"@ || ends(t, ".it"@) || ends(t, ".test"@)
}

proof fn base_names(t: Seq<char>)
    ensures
        (after_last(t, "."@) == "it"@ || after_last(t, "."@) == "test"@) == calls_it_or_test(t),
{
    reveal_strlit(".");
    reveal_strlit("it");
    reveal_strlit("test");
    reveal_strlit(".it");
    reveal_strlit(".test");
    assert("."@ =~= seq!['.']);
    assert(".it"@ =~= seq!['.'] + "it"@);
    assert(".test"@ =~= seq!['.'] + "test"@);
    what_begins_has_a_rest(t, ".it"@);
    what_begins_has_a_rest(t, ".test"@);
    assert(!"it"@.contains('.'));
    assert(!"test"@.contains('.'));
    if t == "it"@ {
        nothing_to_cut(t, '.');
    }
    if t == "test"@ {
        nothing_to_cut(t, '.');
    }
    if ends(t, ".it"@) {
        let a = choose|a: Seq<char>| t == #[trigger] (a + ".it"@);
        assert(t =~= a + seq!['.'] + "it"@);
        cut_at_the_last(a, '.', "it"@);
    }
    if ends(t, ".test"@) {
        let a = choose|a: Seq<char>| t == #[trigger] (a + ".test"@);
        assert(t =~= a + seq!['.'] + "test"@);
        cut_at_the_last(a, '.', "test"@);
    }
    crate::text::last_is_last(t, "."@);
    match crate::text::last(t, "."@) {
        Some(i) => {
            crate::laws::texts::one_character_stands(t, '.', i);
            let base = after_last(t, "."@);
            let front = t.take(i);
            assert(t =~= front + seq!['.'] + base);
            if base == "it"@ {
                assert(t =~= front + ".it"@);
            }
            if base == "test"@ {
                assert(t =~= front + ".test"@);
            }
        },
        None => {},
    }
}

/// Node `i` declares a test: it calls `it` or `test`, its first argument is a
/// string, and a function stands among the others.
pub open spec fn declares_a_test(
    nodes: Seq<NodeView>,
    i: int,
    callee: int,
    args: int,
    first: int,
    body: int,
) -> bool {
    &&& in_role(nodes, i, "function"@, callee)
    &&& calls_it_or_test(nodes[callee].text)
    &&& in_role(nodes, i, "arguments"@, args)
    &&& first_named_below(nodes, args, first)
    &&& nodes[first].kind == "string"@
    &&& first < body
    &&& directly_below(nodes, args, body)
    &&& nodes[body].named
    &&& function_value(nodes[body])
}

/// A quotation mark.
pub open spec fn quote(c: char) -> bool {
    c == '"' || c == '\'' || c == '`'
}

/// The text is the name in quotes, with white space around it or not.
pub open spec fn quotes(
    t: Seq<char>,
    q: char,
    before: Seq<char>,
    name: Seq<char>,
    behind: Seq<char>,
) -> bool {
    &&& quote(q)
    &&& t == seq![q] + (before + name + behind) + seq![q]
    &&& forall|i: int| 0 <= i < before.len() ==> white(#[trigger] before[i]) && !quote(before[i])
    &&& forall|i: int| 0 <= i < behind.len() ==> white(#[trigger] behind[i]) && !quote(behind[i])
    &&& name.len() > 0
    &&& !white(name[0]) && !quote(name[0])
    &&& !white(name.last()) && !quote(name.last())
}

proof fn quotes_go(
    t: Seq<char>,
    q: char,
    before: Seq<char>,
    name: Seq<char>,
    behind: Seq<char>,
)
    requires
        quotes(t, q, before, name, behind),
    ensures
        crate::text::trimmed(crate::text::shed(t, "\"'`"@)) == name,
{
    reveal_strlit("\"'`");
    let set = "\"'`"@;
    assert(set[0] == '"' && set[1] == '\'' && set[2] == '`');
    assert forall|c: char| #[trigger] set.contains(c) == quote(c) by {
        if set.contains(c) {
            let i = choose|i: int| 0 <= i < set.len() && set[i] == c;
            assert(i == 0 || i == 1 || i == 2);
        }
    }
    let s = before + name + behind;
    assert(s[0] == (if before.len() > 0 {
        before[0]
    } else {
        name[0]
    }));
    assert(s.last() == (if behind.len() > 0 {
        behind[behind.len() - 1]
    } else {
        name.last()
    }));
    assert(set.contains(q));
    assert(seq![q][0] == q);
    shedding_takes_the_ends(seq![q], s, seq![q], set);
    trimming_takes_the_ends(before, name, behind);
}

/// A call declares a test exactly where it has the form of one and a name that
/// is not blank.
proof fn tests_have_their_form(nodes: Seq<NodeView>, i: int)
    requires
        0 <= i < nodes.len(),
    ensures
        forall|c: int, a: int, n: int, b: int| #[trigger]
            declares_a_test(nodes, i, c, a, n, b) ==> {
                let name = crate::text::trimmed(crate::text::shed(nodes[n].text, "\"'`"@));
                test_declared(nodes, i) == (if name.len() > 0 {
                    Some(name)
                } else {
                    None
                })
            },
        test_declared(nodes, i) is Some ==> exists|c: int, a: int, n: int, b: int| #[trigger]
            declares_a_test(nodes, i, c, a, n, b),
{
    assert forall|c: int, a: int, n: int, b: int| #[trigger]
        declares_a_test(nodes, i, c, a, n, b) implies {
        let name = crate::text::trimmed(crate::text::shed(nodes[n].text, "\"'`"@));
        test_declared(nodes, i) == (if name.len() > 0 {
            Some(name)
        } else {
            None
        })
    } by {
        roles_are_found(nodes, i, "function"@, c);
        roles_are_found(nodes, i, "arguments"@, a);
        the_first_named_is_found(nodes, a, n);
        a_body_is_found(nodes, a, n + 1);
        base_names(nodes[c].text);
        assert(directly_below(nodes, a, b));
    }
    if test_declared(nodes, i) is Some {
        let c = crate::frontend::syntax::kid(nodes, i, "function"@)->0;
        let a = crate::frontend::syntax::kid(nodes, i, "arguments"@)->0;
        roles_are_found(nodes, i, "function"@, c);
        roles_are_found(nodes, i, "arguments"@, a);
        let n = crate::frontend::tree_sitter_frontend::named_from(nodes, a, a + 1)->0;
        the_first_named_is_found(nodes, a, n);
        a_body_is_found(nodes, a, n + 1);
        base_names(nodes[c].text);
        let b = choose|b: int|
            n + 1 <= b && #[trigger] directly_below(nodes, a, b) && nodes[b].named
                && function_value(nodes[b]);
        assert(declares_a_test(nodes, i, c, a, n, b));
    }
}

/// The definition is a test of that name at a node.
pub open spec fn test_of(d: DefinitionView, f: FileView, name: Seq<char>, n: NodeView) -> bool {
    &&& d.id.name == name
    &&& d.id.self_ty is None
    &&& d.id.krate is None
    &&& d.id.path is None
    &&& d.is_test_fn
    &&& d.in_test
    &&& !d.is_pub
    &&& !d.is_ffi
    &&& !d.trait_impl
    &&& !d.allowed_dead
    &&& d.self_ty is None
    &&& d.module == f.module
    &&& d.file == f.file
    &&& d.crate_root == f.file
    &&& d.line == n.row + 1
}

/// A call of `it` or of `test`, or of a member of that name, with a string for
/// its first argument and a function among the others, declares a test by the
/// name in the string, and is no call. What stands in it is the test's.
pub proof fn it_and_test_declare_tests(
    f: FileView,
    nodes: Seq<NodeView>,
    i: int,
    w: WalkView,
    callee: int,
    args: int,
    first: int,
    body: int,
    q: char,
    before: Seq<char>,
    name: Seq<char>,
    behind: Seq<char>,
)
    requires
        f.lang == Language::TypeScript,
        0 <= i < nodes.len(),
        nodes[i].kind == "call_expression"@,
        declares_a_test(nodes, i, callee, args, first, body),
        quotes(nodes[first].text, q, before, name, behind),
    ensures
        ({
            let after = after_node(f, nodes, i, w);
            &&& after.definitions.len() == w.definitions.len() + 1
            &&& after.definitions.drop_last() == w.definitions
            &&& test_of(after.definitions.last(), f, name, nodes[i])
            &&& after.edges == w.edges
            &&& after.fns.len() > 0
            &&& after.fns.last() == (ScopeView { depth: nodes[i].depth, name })
        }),
{
    tests_have_their_form(nodes, i);
    quotes_go(nodes[first].text, q, before, name, behind);
    kinds_are_spelled_out(f.lang, nodes[i].kind);
    calls_are_only_calls(f.lang, nodes[i].kind);
    let after = after_node(f, nodes, i, w);
    assert(after.definitions.drop_last() =~= w.definitions);
}

/// What the walk has found stays found.
pub proof fn findings_stay(f: FileView, nodes: Seq<NodeView>, m: int, n: int, start: WalkView)
    requires
        0 <= m <= n <= nodes.len(),
    ensures
        ({
            let a = walked(f, nodes, m, start);
            let b = walked(f, nodes, n, start);
            &&& a.definitions.is_prefix_of(b.definitions)
            &&& a.edges.is_prefix_of(b.edges)
            &&& a.strings.is_prefix_of(b.strings)
        }),
    decreases n - m,
{
    if m < n {
        findings_stay(f, nodes, m, n - 1, start);
        let a = walked(f, nodes, m, start);
        let b = walked(f, nodes, n - 1, start);
        let c = walked(f, nodes, n, start);
        assert(b.definitions.is_prefix_of(c.definitions));
        assert(b.edges.is_prefix_of(c.edges));
        assert(b.strings.is_prefix_of(c.strings));
        assert(a.definitions.is_prefix_of(c.definitions));
        assert(a.edges.is_prefix_of(c.edges));
        assert(a.strings.is_prefix_of(c.strings));
    }
}

/// So the walk over a file adds a test of that name for every such call in it.
pub proof fn every_it_and_test_is_a_test(
    f: FileView,
    nodes: Seq<NodeView>,
    i: int,
    start: WalkView,
    callee: int,
    args: int,
    first: int,
    body: int,
    q: char,
    before: Seq<char>,
    name: Seq<char>,
    behind: Seq<char>,
)
    requires
        f.lang == Language::TypeScript,
        0 <= i < nodes.len(),
        nodes[i].kind == "call_expression"@,
        declares_a_test(nodes, i, callee, args, first, body),
        quotes(nodes[first].text, q, before, name, behind),
    ensures
        exists|k: int|
            0 <= k < walked(f, nodes, nodes.len() as int, start).definitions.len() && test_of(
                #[trigger] walked(f, nodes, nodes.len() as int, start).definitions[k],
                f,
                name,
                nodes[i],
            ),
{
    let w = walked(f, nodes, i, start);
    it_and_test_declare_tests(
        f,
        nodes,
        i,
        w,
        callee,
        args,
        first,
        body,
        q,
        before,
        name,
        behind,
    );
    findings_stay(f, nodes, i + 1, nodes.len() as int, start);
    let a = walked(f, nodes, i + 1, start);
    let k = a.definitions.len() - 1;
    assert(walked(f, nodes, nodes.len() as int, start).definitions[k] == a.definitions[k]);
}

// ---------------------------------------------------------------------------
// Calls
// ---------------------------------------------------------------------------

/// Node `k` is the member that the access at node `c` names.
pub open spec fn names_member(nodes: Seq<NodeView>, c: int, k: int) -> bool {
    ||| in_role(nodes, c, "attribute"@, k)
    ||| no_role(nodes, c, "attribute"@) && in_role(nodes, c, "property"@, k)
    ||| no_role(nodes, c, "attribute"@) && no_role(nodes, c, "property"@) && in_role(
        nodes,
        c,
        "field"@,
        k,
    )
}

/// The node is an access to a member.
pub open spec fn an_access(n: NodeView) -> bool {
    n.kind == "attribute"@ || n.kind == "member_expression"@ || n.kind == "selector_expression"@
}

/// The node is a name on its own.
pub open spec fn a_name(n: NodeView) -> bool {
    n.kind == "identifier"@ || n.kind == "type_identifier"@ || n.kind == "field_identifier"@
}

proof fn callee_kinds_differ(n: NodeView)
    ensures
        !(an_access(n) && a_name(n)),
{
    reveal_strlit("attribute");
    reveal_strlit("member_expression");
    reveal_strlit("selector_expression");
    reveal_strlit("identifier");
    reveal_strlit("type_identifier");
    reveal_strlit("field_identifier");
    let len = n.kind.len();
    assert(an_access(n) ==> len == 9 || len == 17 || len == 19);
    assert(a_name(n) ==> len == 10 || len == 15 || len == 16);
}

/// The call declares no test, in the language in which calls do.
pub open spec fn no_test(f: FileView, nodes: Seq<NodeView>, i: int) -> bool {
    f.lang == Language::TypeScript ==> forall|c: int, a: int, n: int, b: int|
        !#[trigger] declares_a_test(nodes, i, c, a, n, b)
}

proof fn a_call_is_recorded(f: FileView, nodes: Seq<NodeView>, i: int, w: WalkView)
    requires
        0 <= i < nodes.len(),
        calls_a_function(f.lang, nodes[i].kind) || uses_a_tag(f.lang, nodes[i].kind),
        no_test(f, nodes, i) || uses_a_tag(f.lang, nodes[i].kind),
    ensures
        match called(nodes, i) {
            Some(to) => one_call_more(
                after_node(f, nodes, i, w),
                w,
                f,
                to,
                EdgeKind::Call,
                nodes[i],
            ),
            None => nothing_more(after_node(f, nodes, i, w), w),
        },
{
    let n = nodes[i];
    kinds_are_spelled_out(f.lang, n.kind);
    calls_are_only_calls(f.lang, n.kind);
    tests_have_their_form(nodes, i);
    let after = after_node(f, nodes, i, w);
    if let Some(to) = called(nodes, i) {
        edges_are_made_by(f, w.fns, to, EdgeKind::Call, n);
        assert(after.edges.drop_last() =~= w.edges);
    }
}

/// A call of a member goes to the member, whatever it is a member of: `o.m()`
/// is a call of `m`.
pub proof fn a_member_call_goes_to_the_member(
    f: FileView,
    nodes: Seq<NodeView>,
    i: int,
    w: WalkView,
    c: int,
    k: int,
)
    requires
        0 <= i < nodes.len(),
        calls_a_function(f.lang, nodes[i].kind),
        no_test(f, nodes, i),
        in_role(nodes, i, "function"@, c),
        an_access(nodes[c]),
        names_member(nodes, c, k),
    ensures
        one_call_more(
            after_node(f, nodes, i, w),
            w,
            f,
            nodes[k].text,
            EdgeKind::Call,
            nodes[i],
        ),
{
    calls_are_only_calls(f.lang, nodes[i].kind);
    roles_are_found(nodes, i, "function"@, c);
    callee_kinds_differ(nodes[c]);
    roles_are_found(nodes, c, "attribute"@, k);
    roles_are_found(nodes, c, "property"@, k);
    roles_are_found(nodes, c, "field"@, k);
    assert(member(nodes, c) == Some(k));
    a_call_is_recorded(f, nodes, i, w);
}

/// A call of a name goes to that name.
pub proof fn a_plain_call_goes_to_the_name(
    f: FileView,
    nodes: Seq<NodeView>,
    i: int,
    w: WalkView,
    c: int,
)
    requires
        0 <= i < nodes.len(),
        calls_a_function(f.lang, nodes[i].kind),
        no_test(f, nodes, i),
        in_role(nodes, i, "function"@, c),
        a_name(nodes[c]),
    ensures
        one_call_more(
            after_node(f, nodes, i, w),
            w,
            f,
            nodes[c].text,
            EdgeKind::Call,
            nodes[i],
        ),
{
    calls_are_only_calls(f.lang, nodes[i].kind);
    roles_are_found(nodes, i, "function"@, c);
    a_call_is_recorded(f, nodes, i, w);
}

/// A call of a member `m` and a plain call of `m` name the same function.
pub proof fn a_member_is_called_like_a_name(
    f: FileView,
    nodes: Seq<NodeView>,
    others: Seq<NodeView>,
    i: int,
    j: int,
    w: WalkView,
    c: int,
    k: int,
    d: int,
)
    requires
        0 <= i < nodes.len(),
        0 <= j < others.len(),
        calls_a_function(f.lang, nodes[i].kind),
        calls_a_function(f.lang, others[j].kind),
        no_test(f, nodes, i),
        no_test(f, others, j),
        in_role(nodes, i, "function"@, c),
        an_access(nodes[c]),
        names_member(nodes, c, k),
        in_role(others, j, "function"@, d),
        a_name(others[d]),
        nodes[k].text == others[d].text,
    ensures
        after_node(f, nodes, i, w).edges.last().to == after_node(f, others, j, w).edges.last().to,
{
    a_member_call_goes_to_the_member(f, nodes, i, w, c, k);
    a_plain_call_goes_to_the_name(f, others, j, w, d);
}

/// A call of anything else, such as the result of another call, is nobody's.
pub proof fn other_calls_go_nowhere(
    f: FileView,
    nodes: Seq<NodeView>,
    i: int,
    w: WalkView,
    c: int,
)
    requires
        0 <= i < nodes.len(),
        calls_a_function(f.lang, nodes[i].kind),
        no_test(f, nodes, i),
        in_role(nodes, i, "function"@, c) && !a_name(nodes[c]) && !an_access(nodes[c]) || no_role(
            nodes,
            i,
            "function"@,
        ),
    ensures
        nothing_more(after_node(f, nodes, i, w), w),
{
    calls_are_only_calls(f.lang, nodes[i].kind);
    roles_are_found(nodes, i, "function"@, c);
    a_call_is_recorded(f, nodes, i, w);
}

/// A capitalised tag uses the component of that name, by the last segment of
/// the tag; a plain element uses nothing.
pub proof fn a_tag_uses_its_component(
    f: FileView,
    nodes: Seq<NodeView>,
    i: int,
    w: WalkView,
    k: int,
    over: Seq<char>,
    name: Seq<char>,
)
    requires
        0 <= i < nodes.len(),
        uses_a_tag(f.lang, nodes[i].kind),
        in_role(nodes, i, "name"@, k),
        !name.contains('.'),
        nodes[k].text == name || nodes[k].text == over + seq!['.'] + name,
    ensures
        ({
            let after = after_node(f, nodes, i, w);
            if nodes[k].text.len() > 0 && uppercase(nodes[k].text[0]) {
                one_call_more(after, w, f, name, EdgeKind::Call, nodes[i])
            } else {
                nothing_more(after, w)
            }
        }),
{
    calls_are_only_calls(f.lang, nodes[i].kind);
    roles_are_found(nodes, i, "name"@, k);
    reveal_strlit(".");
    assert("."@ =~= seq!['.']);
    if nodes[k].text == name {
        nothing_to_cut(name, '.');
    } else {
        cut_at_the_last(over, '.', name);
    }
    a_call_is_recorded(f, nodes, i, w);
}

/// The walk over a file has a call for every call node in it.
pub proof fn every_call_is_recorded(
    f: FileView,
    nodes: Seq<NodeView>,
    i: int,
    start: WalkView,
    c: int,
    k: int,
)
    requires
        0 <= i < nodes.len(),
        calls_a_function(f.lang, nodes[i].kind),
        no_test(f, nodes, i),
        in_role(nodes, i, "function"@, c),
        an_access(nodes[c]) && names_member(nodes, c, k) || a_name(nodes[c]) && k == c,
    ensures
        exists|e: int|
            0 <= e < walked(f, nodes, nodes.len() as int, start).edges.len() && call_of(
                #[trigger] walked(f, nodes, nodes.len() as int, start).edges[e],
                f,
                nodes[k].text,
                EdgeKind::Call,
                nodes[i],
                walked(f, nodes, i, start).fns,
            ),
{
    let w = walked(f, nodes, i, start);
    if an_access(nodes[c]) && names_member(nodes, c, k) {
        a_member_call_goes_to_the_member(f, nodes, i, w, c, k);
    } else {
        a_plain_call_goes_to_the_name(f, nodes, i, w, c);
    }
    findings_stay(f, nodes, i + 1, nodes.len() as int, start);
    let a = walked(f, nodes, i + 1, start);
    let e = a.edges.len() - 1;
    assert(walked(f, nodes, nodes.len() as int, start).edges[e] == a.edges[e]);
}

} // verus!
