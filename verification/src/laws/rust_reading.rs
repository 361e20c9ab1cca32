//! What is read out of a Rust file.

use vstd::prelude::*;

use crate::frontend::rust_syntax::Brackets;
use crate::frontend::rust_syntax::EventView;
use crate::frontend::rust_syntax::SegmentView;
use crate::frontend::rust_syntax::TokenView;
use crate::frontend::syn_frontend::after_event;
use crate::frontend::syn_frontend::impl_type;
use crate::frontend::syn_frontend::innermost_fn;
use crate::frontend::syn_frontend::inside_test;
use crate::frontend::syn_frontend::inside_trait;
use crate::frontend::syn_frontend::macro_calls;
use crate::frontend::syn_frontend::modules_around;
use crate::frontend::syn_frontend::rust_caller;
use crate::frontend::syn_frontend::rust_edge;
use crate::frontend::syn_frontend::FrameView;
use crate::frontend::syn_frontend::RustFileView;
use crate::frontend::syn_frontend::RustWalkView;
use crate::ir::EdgeKind;
use crate::ir::EdgeView;

verus! {

// ---------------------------------------------------------------------------
// Where the walk stands
// ---------------------------------------------------------------------------

/// The innermost function around is `name`.
pub open spec fn in_function(frames: Seq<FrameView>, name: Seq<char>) -> bool {
    exists|k: int|
        0 <= k < frames.len() && (#[trigger] frames[k] matches FrameView::Fn(n, _) && n == name)
            && forall|j: int| k < j < frames.len() ==> !(#[trigger] frames[j] is Fn)
}

/// No function is around.
pub open spec fn in_no_function(frames: Seq<FrameView>) -> bool {
    forall|j: int| 0 <= j < frames.len() ==> !(#[trigger] frames[j] is Fn)
}

/// A module or a function around is test code.
pub open spec fn some_test(frames: Seq<FrameView>) -> bool {
    exists|k: int|
        0 <= k < frames.len() && ((#[trigger] frames[k] matches FrameView::Mod(_, t) && t) || (
        frames[k] matches FrameView::Fn(_, t) && t))
}

proof fn innermost(frames: Seq<FrameView>, name: Seq<char>)
    ensures
        in_function(frames, name) ==> innermost_fn(frames) == Some(name),
        in_no_function(frames) ==> innermost_fn(frames) is None,
    decreases frames.len(),
{
    if frames.len() > 0 {
        let less = frames.drop_last();
        let n = frames.len() - 1;
        assert(frames.last() == frames[n]);
        innermost(less, name);
        if in_no_function(frames) {
            assert forall|j: int| 0 <= j < less.len() implies !(#[trigger] less[j] is Fn) by {
                assert(less[j] == frames[j]);
            }
        }
        if in_function(frames, name) && !(frames.last() is Fn) {
            let k = choose|k: int|
                0 <= k < frames.len() && (#[trigger] frames[k] matches FrameView::Fn(x, _) && x
                    == name) && forall|j: int|
                    k < j < frames.len() ==> !(#[trigger] frames[j] is Fn);
            assert(less[k] == frames[k]);
            assert forall|j: int| k < j < less.len() implies !(#[trigger] less[j] is Fn) by {
                assert(less[j] == frames[j]);
            }
            assert(in_function(less, name));
        }
    }
}

/// A call is made by the innermost function around it; where there is none, by
/// the module itself, which is no production code in a test.
pub proof fn calls_belong_to_the_innermost_function(
    f: RustFileView,
    frames: Seq<FrameView>,
    name: Seq<char>,
)
    ensures
        in_function(frames, name) ==> rust_caller(f, frames) == name,
        in_no_function(frames) && (f.in_test || some_test(frames)) ==> rust_caller(f, frames)
            == "<test module>"@,
        in_no_function(frames) && !f.in_test && !some_test(frames) ==> rust_caller(f, frames)
            == ""@,
{
    innermost(frames, name);
    test_code_is_inherited(f, frames);
}

/// What stands in test code, however deep, is test code, and nothing else is.
pub proof fn test_code_is_inherited(f: RustFileView, frames: Seq<FrameView>)
    ensures
        inside_test(f, frames) == (f.in_test || some_test(frames)),
    decreases frames.len(),
{
    if frames.len() > 0 {
        let less = frames.drop_last();
        let n = frames.len() - 1;
        test_code_is_inherited(f, less);
        assert(frames.last() == frames[n]);
        if some_test(less) {
            let k = choose|k: int|
                0 <= k < less.len() && ((#[trigger] less[k] matches FrameView::Mod(_, t) && t) || (
                less[k] matches FrameView::Fn(_, t) && t));
            assert(frames[k] == less[k]);
        }
        if some_test(frames) {
            let k = choose|k: int|
                0 <= k < frames.len() && ((#[trigger] frames[k] matches FrameView::Mod(_, t) && t)
                    || (frames[k] matches FrameView::Fn(_, t) && t));
            if k < n {
                assert(less[k] == frames[k]);
            }
        }
    }
}

/// A function is one of a trait exactly where some impl around it is.
pub proof fn trait_impls_are_inherited(frames: Seq<FrameView>)
    ensures
        inside_trait(frames) == exists|k: int|
            0 <= k < frames.len() && (#[trigger] frames[k] matches FrameView::Impl(t, _) && t),
    decreases frames.len(),
{
    if frames.len() > 0 {
        let less = frames.drop_last();
        let n = frames.len() - 1;
        trait_impls_are_inherited(less);
        assert(frames.last() == frames[n]);
        if exists|k: int|
            0 <= k < less.len() && (#[trigger] less[k] matches FrameView::Impl(t, _) && t) {
            let k = choose|k: int|
                0 <= k < less.len() && (#[trigger] less[k] matches FrameView::Impl(t, _) && t);
            assert(frames[k] == less[k]);
        }
        if exists|k: int|
            0 <= k < frames.len() && (#[trigger] frames[k] matches FrameView::Impl(t, _) && t) {
            let k = choose|k: int|
                0 <= k < frames.len() && (#[trigger] frames[k] matches FrameView::Impl(t, _) && t);
            if k < n {
                assert(less[k] == frames[k]);
            }
        }
    }
}

/// The type of a method is that of the innermost impl around it.
pub proof fn methods_belong_to_the_innermost_impl(frames: Seq<FrameView>, k: int)
    requires
        0 <= k < frames.len(),
        frames[k] is Impl,
        forall|j: int| k < j < frames.len() ==> !(#[trigger] frames[j] is Impl),
    ensures
        frames[k] matches FrameView::Impl(_, ty) && impl_type(frames) == ty,
    decreases frames.len(),
{
    let n = frames.len() - 1;
    if k < n {
        let less = frames.drop_last();
        assert(frames[n] == frames.last());
        assert(less[k] == frames[k]);
        assert forall|j: int| k < j < less.len() implies !(#[trigger] less[j] is Impl) by {
            assert(less[j] == frames[j]);
        }
        methods_belong_to_the_innermost_impl(less, k);
    }
}

/// Outside any impl a function has no type.
pub proof fn free_functions_have_no_type(frames: Seq<FrameView>)
    requires
        forall|j: int| 0 <= j < frames.len() ==> !(#[trigger] frames[j] is Impl),
    ensures
        impl_type(frames) is None,
        !inside_trait(frames),
    decreases frames.len(),
{
    if frames.len() > 0 {
        let less = frames.drop_last();
        assert(frames.last() == frames[frames.len() - 1]);
        assert forall|j: int| 0 <= j < less.len() implies !(#[trigger] less[j] is Impl) by {
            assert(less[j] == frames[j]);
        }
        free_functions_have_no_type(less);
    }
}

/// The module of a function is that of the file, and then each `mod` around
/// it, outermost first; nothing else adds to it.
pub proof fn modules_are_nested(f: RustFileView, frames: Seq<FrameView>, top: FrameView)
    ensures
        modules_around(f, seq![]) == f.modules,
        modules_around(f, frames.push(top)) == (match top {
            FrameView::Mod(name, _) => modules_around(f, frames).push(name),
            _ => modules_around(f, frames),
        }),
{
    assert(frames.push(top).drop_last() =~= frames);
}

// ---------------------------------------------------------------------------
// Calls
// ---------------------------------------------------------------------------

/// The edge is a call of `to`, by its bare name, on a line of the file.
pub open spec fn is_call(
    e: EdgeView,
    f: RustFileView,
    to: Seq<char>,
    line: nat,
    kind: EdgeKind,
) -> bool {
    &&& e.to.name == to
    &&& e.to.self_ty is None
    &&& e.to.krate is None
    &&& e.to.path is None
    &&& e.from.self_ty is None
    &&& e.from.krate is None
    &&& e.from.path is None
    &&& e.line == line
    &&& e.file == f.file
    &&& e.kind == kind
}

/// The edge is made where the walk stands.
pub open spec fn is_made_at(e: EdgeView, f: RustFileView, frames: Seq<FrameView>) -> bool {
    &&& e.in_test == (f.in_test || some_test(frames))
    &&& forall|g: Seq<char>| #[trigger] in_function(frames, g) ==> e.from.name == g
    &&& in_no_function(frames) ==> e.from.name == (if f.in_test || some_test(frames) {
        "<test module>"@
    } else {
        ""@
    })
}

proof fn edges_are_made_where_the_walk_stands(
    f: RustFileView,
    frames: Seq<FrameView>,
    to: Seq<char>,
    line: nat,
    kind: EdgeKind,
)
    ensures
        is_call(rust_edge(f, frames, to, line, kind), f, to, line, kind),
        is_made_at(rust_edge(f, frames, to, line, kind), f, frames),
{
    test_code_is_inherited(f, frames);
    assert forall|g: Seq<char>| #[trigger] in_function(frames, g) implies rust_caller(f, frames)
        == g by {
        calls_belong_to_the_innermost_function(f, frames, g);
    }
    calls_belong_to_the_innermost_function(f, frames, seq![]);
}

/// All that the walk has but its calls stays.
pub open spec fn only_calls_differ(a: RustWalkView, b: RustWalkView) -> bool {
    a.definitions == b.definitions && a.reexported == b.reexported && a.frames == b.frames
}

/// A call of a path is one call, of the last segment of the path, on the line
/// of that segment. What is no path is nobody's call.
pub proof fn a_path_call_goes_to_its_last_segment(
    f: RustFileView,
    w: RustWalkView,
    over: Seq<SegmentView>,
    last: SegmentView,
)
    ensures
        ({
            let after = after_event(f, w, EventView::Call(Some(over.push(last))));
            &&& only_calls_differ(after, w)
            &&& after.edges.len() == w.edges.len() + 1
            &&& after.edges.drop_last() == w.edges
            &&& is_call(after.edges.last(), f, last.name, last.line, EdgeKind::Call)
            &&& is_made_at(after.edges.last(), f, w.frames)
        }),
        after_event(f, w, EventView::Call(None)) == w,
{
    edges_are_made_where_the_walk_stands(f, w.frames, last.name, last.line, EdgeKind::Call);
    let after = after_event(f, w, EventView::Call(Some(over.push(last))));
    assert(over.push(last).last() == last);
    assert(after.edges.drop_last() =~= w.edges);
}

/// A method call is one call, of the method.
pub proof fn a_method_call_goes_to_the_method(
    f: RustFileView,
    w: RustWalkView,
    name: Seq<char>,
    line: nat,
)
    ensures
        ({
            let after = after_event(f, w, EventView::MethodCall(name, line));
            &&& only_calls_differ(after, w)
            &&& after.edges.len() == w.edges.len() + 1
            &&& after.edges.drop_last() == w.edges
            &&& is_call(after.edges.last(), f, name, line, EdgeKind::MethodCall)
            &&& is_made_at(after.edges.last(), f, w.frames)
        }),
{
    edges_are_made_where_the_walk_stands(f, w.frames, name, line, EdgeKind::MethodCall);
    let after = after_event(f, w, EventView::MethodCall(name, line));
    assert(after.edges.drop_last() =~= w.edges);
}

/// An identifier stands at `i`, directly in front of a round group.
pub open spec fn called_in(tokens: Seq<TokenView>, i: int) -> bool {
    &&& 0 <= i
    &&& i + 1 < tokens.len()
    &&& tokens[i] is Ident
    &&& tokens[i + 1] == TokenView::Open(Brackets::Round)
}

/// The edge is the call of the identifier.
pub open spec fn calls_token(
    e: EdgeView,
    f: RustFileView,
    frames: Seq<FrameView>,
    t: TokenView,
) -> bool {
    t matches TokenView::Ident(name, line) && is_call(e, f, name, line, EdgeKind::MacroToken)
        && is_made_at(e, f, frames)
}

/// The edge is the call of an identifier in front of a round group.
pub open spec fn calls_some_token(
    e: EdgeView,
    f: RustFileView,
    frames: Seq<FrameView>,
    tokens: Seq<TokenView>,
) -> bool {
    exists|i: int| #[trigger] called_in(tokens, i) && calls_token(e, f, frames, tokens[i])
}

/// How many positions below `n` hold an identifier in front of a round group.
pub open spec fn called_below(tokens: Seq<TokenView>, n: int) -> nat
    decreases n,
{
    if n <= 0 {
        0
    } else {
        called_below(tokens, n - 1) + (if called_in(tokens, n - 1) {
            1nat
        } else {
            0
        })
    }
}

proof fn called_in_prefix(tokens: Seq<TokenView>, n: int)
    requires
        tokens.len() > 0,
        0 <= n <= tokens.len() - 2,
    ensures
        called_below(tokens.drop_last(), n) == called_below(tokens, n),
    decreases n,
{
    if n > 0 {
        called_in_prefix(tokens, n - 1);
        let less = tokens.drop_last();
        assert(less[n - 1] == tokens[n - 1] && less[n] == tokens[n]);
    }
}

proof fn token_positions(f: RustFileView, frames: Seq<FrameView>, tokens: Seq<TokenView>) -> (p:
    Seq<int>)
    ensures
        p.len() == macro_calls(f, frames, tokens).0.len(),
        p.len() == called_below(tokens, tokens.len() as int),
        forall|k: int|
            0 <= k < p.len() ==> called_in(tokens, #[trigger] p[k]) && (tokens[p[k]] matches
                TokenView::Ident(name, line) && macro_calls(f, frames, tokens).0[k] == rust_edge(
                f,
                frames,
                name,
                line,
                EdgeKind::MacroToken,
            )),
        forall|i: int| #[trigger] called_in(tokens, i) ==> p.contains(i),
        tokens.len() > 0 ==> macro_calls(f, frames, tokens).1 == (match tokens.last() {
            TokenView::Ident(name, line) => Some((name, line)),
            _ => None,
        }),
        tokens.len() == 0 ==> macro_calls(f, frames, tokens).1 is None,
    decreases tokens.len(),
{
    let n = tokens.len() as int;
    if n == 0 {
        seq![]
    } else {
        let less = tokens.drop_last();
        let q = token_positions(f, frames, less);
        let now = macro_calls(f, frames, tokens).0;
        let was = macro_calls(f, frames, less).0;
        assert forall|i: int| i != n - 2 implies called_in(tokens, i) == #[trigger] called_in(
            less,
            i,
        ) by {
            if 0 <= i && i + 1 < less.len() {
                assert(less[i] == tokens[i] && less[i + 1] == tokens[i + 1]);
            }
        }
        assert(!called_in(tokens, n - 1));
        assert(!called_in(less, n - 2));
        if n >= 2 {
            called_in_prefix(tokens, n - 2);
            assert(less.last() == tokens[n - 2]);
            assert(tokens.last() == tokens[n - 1]);
            assert(called_below(tokens, n) == called_below(tokens, n - 1));
            assert(called_below(less, n - 1) == called_below(less, n - 2));
        } else {
            assert(called_below(tokens, 1) == called_below(tokens, 0));
        }
        if called_in(tokens, n - 2) {
            let p = q.push(n - 2);
            assert(now =~= was.push(now.last()));
            assert forall|k: int| 0 <= k < p.len() implies called_in(tokens, #[trigger] p[k]) && (
            tokens[p[k]] matches TokenView::Ident(name, line) && now[k] == rust_edge(
                f,
                frames,
                name,
                line,
                EdgeKind::MacroToken,
            )) by {
                if k < q.len() {
                    assert(called_in(less, q[k]));
                    assert(less[q[k]] == tokens[q[k]]);
                }
            }
            assert forall|i: int| #[trigger] called_in(tokens, i) implies p.contains(i) by {
                if i == n - 2 {
                    assert(p[q.len() as int] == i);
                } else {
                    assert(called_in(less, i));
                    assert(q.contains(i));
                    let k = choose|k: int| 0 <= k < q.len() && q[k] == i;
                    assert(p[k] == i);
                }
            }
            p
        } else {
            assert(now =~= was);
            assert forall|k: int| 0 <= k < q.len() implies called_in(tokens, #[trigger] q[k]) && (
            tokens[q[k]] matches TokenView::Ident(name, line) && now[k] == rust_edge(
                f,
                frames,
                name,
                line,
                EdgeKind::MacroToken,
            )) by {
                assert(called_in(less, q[k]));
                assert(less[q[k]] == tokens[q[k]]);
            }
            assert forall|i: int| #[trigger] called_in(tokens, i) implies q.contains(i) by {
                assert(called_in(less, i));
            }
            q
        }
    }
}

/// In a macro every identifier directly in front of a round group is called,
/// on its line, whatever stands before it, and nothing else is: there are as
/// many new calls as there are such positions, each is that of one of them, and
/// each of them has one.
pub proof fn macros_call_what_stands_in_front_of_a_parenthesis(
    f: RustFileView,
    w: RustWalkView,
    tokens: Seq<TokenView>,
)
    ensures
        ({
            let after = after_event(f, w, EventView::Macro(tokens));
            &&& only_calls_differ(after, w)
            &&& after.edges.len() == w.edges.len() + called_below(tokens, tokens.len() as int)
            &&& forall|k: int| 0 <= k < w.edges.len() ==> #[trigger] after.edges[k] == w.edges[k]
            &&& forall|i: int| #[trigger]
                called_in(tokens, i) ==> exists|k: int|
                    w.edges.len() <= k < after.edges.len() && calls_token(
                        #[trigger] after.edges[k],
                        f,
                        w.frames,
                        tokens[i],
                    )
            &&& forall|k: int|
                w.edges.len() <= k < after.edges.len() ==> calls_some_token(
                    #[trigger] after.edges[k],
                    f,
                    w.frames,
                    tokens,
                )
        }),
{
    let after = after_event(f, w, EventView::Macro(tokens));
    let made = macro_calls(f, w.frames, tokens).0;
    let p = token_positions(f, w.frames, tokens);
    let n = w.edges.len();
    assert forall|k: int| 0 <= k < p.len() implies called_in(tokens, #[trigger] p[k])
        && calls_token(after.edges[n + k], f, w.frames, tokens[p[k]]) by {
        assert(after.edges[n + k] == made[k]);
        if let TokenView::Ident(name, line) = tokens[p[k]] {
            edges_are_made_where_the_walk_stands(f, w.frames, name, line, EdgeKind::MacroToken);
        }
    }
    assert forall|i: int| #[trigger] called_in(tokens, i) implies exists|k: int|
        n <= k < after.edges.len() && calls_token(
            #[trigger] after.edges[k],
            f,
            w.frames,
            tokens[i],
        ) by {
        let k = choose|k: int| 0 <= k < p.len() && p[k] == i;
        assert(calls_token(after.edges[n + k], f, w.frames, tokens[p[k]]));
    }
    assert forall|k: int| n <= k < after.edges.len() implies calls_some_token(
        #[trigger] after.edges[k],
        f,
        w.frames,
        tokens,
    ) by {
        assert(called_in(tokens, p[k - n]));
        assert(calls_token(after.edges[n + (k - n)], f, w.frames, tokens[p[k - n]]));
    }
}

} // verus!
