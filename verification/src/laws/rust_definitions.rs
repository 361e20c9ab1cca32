//! What a Rust file defines and hands on.

use vstd::prelude::*;

use crate::frontend::rust_syntax::AttrView;
use crate::frontend::rust_syntax::EventView;
use crate::frontend::rust_syntax::FunctionView;
use crate::frontend::rust_syntax::SegmentView;
use crate::frontend::rust_syntax::Vis;
use crate::frontend::syn_frontend::after_event;
use crate::frontend::syn_frontend::after_events;
use crate::frontend::syn_frontend::cfg_test;
use crate::frontend::syn_frontend::configures_test;
use crate::frontend::syn_frontend::dead_allowed;
use crate::frontend::syn_frontend::demanded;
use crate::frontend::syn_frontend::ffi;
use crate::frontend::syn_frontend::file_modules;
use crate::frontend::syn_frontend::modules_around;
use crate::frontend::syn_frontend::negation;
use crate::frontend::syn_frontend::quoting;
use crate::frontend::syn_frontend::squeezed;
use crate::frontend::syn_frontend::test_marked;
use crate::frontend::syn_frontend::unquoted;
use crate::frontend::syn_frontend::FrameView;
use crate::frontend::syn_frontend::RustFileView;
use crate::frontend::syn_frontend::RustWalkView;
use crate::ir::DefinitionView;
use crate::lang::Language;
use crate::laws::rust_reading::some_test;
use crate::laws::rust_reading::test_code_is_inherited;
use crate::laws::rust_reading::trait_impls_are_inherited;
use crate::laws::script_definitions::boundaries_are_spelled_out;
use crate::laws::script_definitions::leaves_the_program;
use crate::text::join;
use crate::text::mentions;
use crate::text::present;
use crate::text::white;
use crate::text::word_char;

verus! {

// ---------------------------------------------------------------------------
// Attributes
// ---------------------------------------------------------------------------

/// The attribute is `#[word]`, with or without arguments.
pub open spec fn is_plain(a: AttrView, word: Seq<char>) -> bool {
    a.path == seq![word]
}

/// The last segment of an attribute's path hands a function to a harness.
pub open spec fn harness(a: AttrView) -> bool {
    a.path.len() > 0 && ({
        let last = a.path[a.path.len() - 1];
        last == "test"@ || last == "bench"@ || last == "rstest"@ || last == "proptest"@ || last
            == "quickcheck"@ || last == "test_case"@
    })
}

/// One of the attributes.
pub open spec fn any_of(attrs: Seq<AttrView>, p: spec_fn(AttrView) -> bool) -> bool {
    exists|i: int| 0 <= i < attrs.len() && p(#[trigger] attrs[i])
}

/// The attribute allows dead code.
pub open spec fn lets_be_dead(a: AttrView) -> bool {
    is_plain(a, "allow"@) && (present(a.tokens, "dead_code"@) || present(a.tokens, "unused"@))
}

/// The attribute opens a function to callers outside Rust.
pub open spec fn opens_up(a: AttrView) -> bool {
    ||| is_plain(a, "no_mangle"@)
    ||| is_plain(a, "export_name"@)
    ||| is_plain(a, "used"@)
    ||| is_plain(a, "unsafe"@) && (mentions(unquoted(a.tokens), "no_mangle"@) || mentions(
        unquoted(a.tokens),
        "export_name"@,
    ))
}

proof fn plain_is_plain(a: AttrView, word: Seq<char>)
    ensures
        crate::frontend::syn_frontend::attr_is(a, word) == is_plain(a, word),
{
    if crate::frontend::syn_frontend::attr_is(a, word) {
        assert(a.path =~= seq![word]);
    }
}

/// What the attributes of a function say is decided by these words.
pub proof fn attributes_are_spelled_out(attrs: Seq<AttrView>)
    ensures
        test_marked(attrs) == any_of(attrs, |a: AttrView| harness(a)),
        dead_allowed(attrs) == any_of(attrs, |a: AttrView| lets_be_dead(a)),
        ffi(attrs) == any_of(attrs, |a: AttrView| opens_up(a)),
        cfg_test(attrs) == any_of(
            attrs,
            |a: AttrView|
                is_plain(a, "cfg"@) && mentions(demanded(unquoted(a.tokens)), "test"@),
        ),
{
    assert forall|i: int| 0 <= i < attrs.len() implies ({
        let a = #[trigger] attrs[i];
        &&& crate::frontend::syn_frontend::marks_test(a) == harness(a)
        &&& crate::frontend::syn_frontend::allows_dead(a) == lets_be_dead(a)
        &&& crate::frontend::syn_frontend::opens_to_outside(a) == opens_up(a)
        &&& configures_test(a) == (is_plain(a, "cfg"@) && mentions(
            demanded(unquoted(a.tokens)),
            "test"@,
        ))
    }) by {
        let a = attrs[i];
        plain_is_plain(a, "allow"@);
        plain_is_plain(a, "no_mangle"@);
        plain_is_plain(a, "export_name"@);
        plain_is_plain(a, "used"@);
        plain_is_plain(a, "unsafe"@);
        plain_is_plain(a, "cfg"@);
    }
    let t = |a: AttrView| harness(a);
    let d = |a: AttrView| lets_be_dead(a);
    let o = |a: AttrView| opens_up(a);
    let c = |a: AttrView| is_plain(a, "cfg"@) && mentions(demanded(unquoted(a.tokens)), "test"@);
    if test_marked(attrs) {
        let i = choose|i: int|
            0 <= i < attrs.len() && crate::frontend::syn_frontend::marks_test(#[trigger] attrs[i]);
        assert(t(attrs[i]));
    }
    if dead_allowed(attrs) {
        let i = choose|i: int|
            0 <= i < attrs.len() && crate::frontend::syn_frontend::allows_dead(#[trigger] attrs[i]);
        assert(d(attrs[i]));
    }
    if ffi(attrs) {
        let i = choose|i: int|
            0 <= i < attrs.len() && crate::frontend::syn_frontend::opens_to_outside(
                #[trigger] attrs[i],
            );
        assert(o(attrs[i]));
    }
    if cfg_test(attrs) {
        let i = choose|i: int| 0 <= i < attrs.len() && configures_test(#[trigger] attrs[i]);
        assert(c(attrs[i]));
    }
    if any_of(attrs, t) {
        let i = choose|i: int| 0 <= i < attrs.len() && t(#[trigger] attrs[i]);
        assert(crate::frontend::syn_frontend::marks_test(attrs[i]));
    }
    if any_of(attrs, d) {
        let i = choose|i: int| 0 <= i < attrs.len() && d(#[trigger] attrs[i]);
        assert(crate::frontend::syn_frontend::allows_dead(attrs[i]));
    }
    if any_of(attrs, o) {
        let i = choose|i: int| 0 <= i < attrs.len() && o(#[trigger] attrs[i]);
        assert(crate::frontend::syn_frontend::opens_to_outside(attrs[i]));
    }
    if any_of(attrs, c) {
        let i = choose|i: int| 0 <= i < attrs.len() && c(#[trigger] attrs[i]);
        assert(configures_test(attrs[i]));
    }
}

/// Neither a quotation mark nor a backslash stands in the text.
pub open spec fn unmarked(s: Seq<char>) -> bool {
    forall|i: int| 0 <= i < s.len() ==> #[trigger] s[i] != '"' && s[i] != '\\'
}

proof fn reading_on(p: Seq<char>, x: Seq<char>)
    requires
        unmarked(x),
        !quoting(p).1,
    ensures
        quoting(p + x) == quoting(p),
        quoting(p).0 ==> unquoted(p + x) == unquoted(p),
        !quoting(p).0 ==> unquoted(p + x) == unquoted(p) + x,
    decreases x.len(),
{
    if x.len() == 0 {
        assert(p + x =~= p);
        assert(unquoted(p) + x =~= unquoted(p));
    } else {
        let less = x.drop_last();
        assert forall|i: int| 0 <= i < less.len() implies #[trigger] less[i] != '"' && less[i]
            != '\\' by {
            assert(less[i] == x[i]);
        }
        reading_on(p, less);
        assert((p + x).drop_last() =~= p + less);
        assert((p + x).last() == x[x.len() - 1]);
        assert((unquoted(p) + less).push(x.last()) =~= unquoted(p) + x);
    }
}

/// A string is no part of the tokens that are read: what it holds does not
/// matter, and what stands around it stays.
pub proof fn words_in_strings_do_not_count(a: Seq<char>, text: Seq<char>, b: Seq<char>)
    requires
        unmarked(a),
        unmarked(text),
        unmarked(b),
    ensures
        unquoted(a + seq!['"'] + text + seq!['"'] + b) == a + b,
        unquoted(a) == a,
{
    let e = Seq::<char>::empty();
    reading_on(e, a);
    assert(e + a =~= a);
    assert(unquoted(e) + a =~= a);
    let p = a + seq!['"'];
    assert(p.drop_last() =~= a);
    assert(p.last() == '"');
    assert(quoting(p) == (true, false));
    assert(unquoted(p) == unquoted(a));
    reading_on(p, text);
    let r = p + text + seq!['"'];
    assert(r.drop_last() =~= p + text);
    assert(r.last() == '"');
    assert(quoting(r) == (false, false));
    assert(unquoted(r) == a);
    reading_on(r, b);
    assert(r + b =~= a + seq!['"'] + text + seq!['"'] + b);
}

/// A quotation mark behind a backslash ends no string.
pub proof fn escaped_quotes_end_no_string(
    a: Seq<char>,
    text: Seq<char>,
    more: Seq<char>,
    b: Seq<char>,
)
    requires
        unmarked(a),
        unmarked(text),
        unmarked(more),
        unmarked(b),
    ensures
        unquoted(a + seq!['"'] + text + seq!['\\', '"'] + more + seq!['"'] + b) == a + b,
{
    let e = Seq::<char>::empty();
    reading_on(e, a);
    assert(e + a =~= a);
    assert(unquoted(e) + a =~= a);
    let p = a + seq!['"'];
    assert(p.drop_last() =~= a);
    assert(p.last() == '"');
    reading_on(p, text);
    let s = p + text;
    assert(unquoted(p) == a);
    assert(unquoted(s) == a);
    let s1 = s.push('\\');
    assert(s1.drop_last() =~= s);
    assert(unquoted(s1) == a);
    assert(quoting(s1) == (true, true));
    let s2 = s1.push('"');
    assert(s2.drop_last() =~= s1);
    assert(quoting(s2) == (true, false));
    assert(unquoted(s2) == a);
    reading_on(s2, more);
    let r = s2 + more + seq!['"'];
    assert(r.drop_last() =~= s2 + more);
    assert(r.last() == '"');
    assert(unquoted(r) == a);
    reading_on(r, b);
    assert(r + b =~= a + seq!['"'] + text + seq!['\\', '"'] + more + seq!['"'] + b);
}

/// No group is opened or closed in the text.
pub open spec fn ungrouped(s: Seq<char>) -> bool {
    forall|i: int| 0 <= i < s.len() ==> #[trigger] s[i] != '(' && s[i] != ')'
}

proof fn reading_on_in_a_group(p: Seq<char>, x: Seq<char>)
    requires
        ungrouped(x),
    ensures
        negation(p + x).2 == negation(p).2,
        negation(p).2 > 0 ==> demanded(p + x) == demanded(p),
        negation(p).2 == 0 ==> demanded(p + x) == demanded(p) + x,
    decreases x.len(),
{
    if x.len() == 0 {
        assert(p + x =~= p);
        assert(demanded(p) + x =~= demanded(p));
    } else {
        let less = x.drop_last();
        assert forall|i: int| 0 <= i < less.len() implies #[trigger] less[i] != '(' && less[i]
            != ')' by {
            assert(less[i] == x[i]);
        }
        reading_on_in_a_group(p, less);
        assert((p + x).drop_last() =~= p + less);
        assert((p + x).last() == x[x.len() - 1]);
        assert((demanded(p) + less).push(x.last()) =~= demanded(p) + x);
    }
}

/// Parentheses are neither letters nor white space, and the letters of `not`
/// are letters.
pub open spec fn marks_and_letters() -> bool {
    &&& !word_char('(') && !white('(')
    &&& !word_char(')') && !white(')')
    &&& word_char('n') && word_char('o') && word_char('t')
}

/// What stands under a `not` does not count, and what stands around it does:
/// `not(test)` configures no test.
pub proof fn what_is_negated_does_not_count(a: Seq<char>, under: Seq<char>, b: Seq<char>)
    requires
        marks_and_letters(),
        ungrouped(a),
        ungrouped(under),
        ungrouped(b),
        a.len() > 0 ==> !word_char(a.last()),
    ensures
        demanded(a + "not"@ + seq!['('] + under + seq![')'] + b) == a + "not"@ + b,
        demanded(a) == a,
{
    reveal_strlit("not");
    let e = Seq::<char>::empty();
    reading_on_in_a_group(e, a);
    assert(e + a =~= a);
    assert(demanded(e) + a =~= a);
    let n0 = negation(a);
    let a1 = a.push('n');
    let a2 = a1.push('o');
    let a3 = a2.push('t');
    assert(a1.drop_last() =~= a && a2.drop_last() =~= a1 && a3.drop_last() =~= a2);
    word_is_closed(a);
    assert(negation(a1).0 =~= seq!['n']);
    assert(negation(a2).0 =~= seq!['n', 'o']);
    assert(negation(a3).0 =~= seq!['n', 'o', 't']);
    assert(negation(a3).0 =~= "not"@);
    assert(a3 =~= a + "not"@);
    reading_on_in_a_group(a, "not"@);
    assert(demanded(a3) =~= a3);
    let g = a3.push('(');
    assert(g.drop_last() =~= a3);
    assert(negation(g).2 == 1);
    assert(demanded(g) == a3);
    reading_on_in_a_group(g, under);
    let c = (g + under).push(')');
    assert(c.drop_last() =~= g + under);
    assert(negation(c).2 == 0);
    assert(demanded(c) == a3);
    reading_on_in_a_group(c, b);
    assert(c + b =~= a + "not"@ + seq!['('] + under + seq![')'] + b);
}

proof fn word_is_closed(a: Seq<char>)
    requires
        a.len() > 0 ==> !word_char(a.last()),
        ungrouped(a),
    ensures
        !negation(a).1,
{
    if a.len() > 0 {
        assert(a.last() == a[a.len() - 1]);
    }
}

/// Nothing is left out where nothing is negated: in a group that is no `not`
/// everything counts.
pub proof fn other_groups_count(a: Seq<char>, word: Seq<char>, x: Seq<char>)
    requires
        marks_and_letters(),
        ungrouped(a),
        ungrouped(x),
        negation(a).0 != "not"@,
    ensures
        demanded(a + seq!['('] + x + seq![')']) == a + seq!['('] + x + seq![')'],
{
    let e = Seq::<char>::empty();
    reading_on_in_a_group(e, a);
    assert(e + a =~= a);
    assert(demanded(e) + a =~= a);
    let g = a + seq!['('];
    assert(g.drop_last() =~= a && g.last() == '(');
    assert(demanded(g) =~= g);
    reading_on_in_a_group(g, x);
    let c = g + x + seq![')'];
    assert(c.drop_last() =~= g + x && c.last() == ')');
    assert(demanded(c) =~= c);
}

// ---------------------------------------------------------------------------
// Definitions
// ---------------------------------------------------------------------------

/// The definition that a function makes where the walk stands.
pub open spec fn defines(
    d: DefinitionView,
    f: RustFileView,
    frames: Seq<FrameView>,
    n: FunctionView,
) -> bool {
    &&& d.id.name == n.name
    &&& d.id.self_ty is None
    &&& d.id.krate is None
    &&& d.id.path is None
    &&& d.file == f.file
    &&& d.line == n.line
    &&& d.crate_root == f.crate_root
    &&& d.in_test == (f.in_test || some_test(frames) || cfg_test(n.attrs))
    &&& d.is_test_fn == any_of(n.attrs, |a: AttrView| harness(a))
    &&& d.allowed_dead == any_of(n.attrs, |a: AttrView| lets_be_dead(a))
    &&& d.is_pub == (n.vis == Vis::Public)
    &&& d.is_ffi == (n.abi is Some || any_of(n.attrs, |a: AttrView| opens_up(a)))
    &&& d.trait_impl == exists|k: int|
        0 <= k < frames.len() && (#[trigger] frames[k] matches FrameView::Impl(t, _) && t)
    &&& d.opaque == leaves_the_program(squeezed(n.tokens), Language::Rust)
    &&& modules_around(f, frames).len() == 0 ==> d.module is None
    &&& modules_around(f, frames).len() > 0 ==> d.module == Some(
        join(modules_around(f, frames), "::"@),
    )
}

/// A function and a method are defined where they stand, with what is written
/// at them; only a function can be a test that makes what stands in it one.
pub proof fn functions_are_defined(f: RustFileView, w: RustWalkView, n: FunctionView)
    ensures
        ({
            let a = after_event(f, w, EventView::Fn(n));
            let b = after_event(f, w, EventView::Method(n));
            &&& a.edges == w.edges && b.edges == w.edges
            &&& a.reexported == w.reexported && b.reexported == w.reexported
            &&& a.definitions.len() == w.definitions.len() + 1
            &&& a.definitions.drop_last() == w.definitions
            &&& defines(a.definitions.last(), f, w.frames, n)
            &&& a.definitions.last().self_ty == crate::frontend::syn_frontend::impl_type(w.frames)
            &&& b.definitions == a.definitions
            &&& a.frames == w.frames.push(
                FrameView::Fn(
                    n.name,
                    any_of(n.attrs, |x: AttrView| harness(x)) || cfg_test(n.attrs),
                ),
            )
            &&& b.frames == w.frames.push(FrameView::Fn(n.name, false))
        }),
{
    attributes_are_spelled_out(n.attrs);
    test_code_is_inherited(f, w.frames);
    trait_impls_are_inherited(w.frames);
    boundaries_are_spelled_out(squeezed(n.tokens), Language::Rust);
    let a = after_event(f, w, EventView::Fn(n));
    let b = after_event(f, w, EventView::Method(n));
    assert(a.definitions.drop_last() =~= w.definitions);
}

/// Nothing but white space is squeezed out.
pub proof fn squeezing_takes_white_space(s: Seq<char>)
    ensures
        forall|i: int| 0 <= i < squeezed(s).len() ==> !white(#[trigger] squeezed(s)[i]),
        (forall|i: int| 0 <= i < s.len() ==> !white(#[trigger] s[i])) ==> squeezed(s) == s,
        forall|c: char| s.contains(c) && !white(c) ==> #[trigger] squeezed(s).contains(c),
    decreases s.len(),
{
    let keep = |c: char| !white(c);
    reveal(Seq::filter);
    if s.len() > 0 {
        let less = s.drop_last();
        squeezing_takes_white_space(less);
        assert(squeezed(s) == if keep(s.last()) {
            squeezed(less).push(s.last())
        } else {
            squeezed(less)
        });
        if forall|i: int| 0 <= i < s.len() ==> !white(#[trigger] s[i]) {
            assert(!white(s[s.len() - 1]));
            assert forall|i: int| 0 <= i < less.len() implies !white(#[trigger] less[i]) by {
                assert(!white(s[i]));
            }
            assert(squeezed(s) =~= s);
        }
        assert forall|c: char| s.contains(c) && !white(c) implies #[trigger] squeezed(s).contains(
            c,
        ) by {
            let i = choose|i: int| 0 <= i < s.len() && s[i] == c;
            if i < less.len() {
                assert(less[i] == c);
                assert(less.contains(c));
                assert(squeezed(less).contains(c));
                let k = choose|k: int| 0 <= k < squeezed(less).len() && squeezed(less)[k] == c;
                assert(squeezed(s)[k] == c);
            } else {
                assert(squeezed(s)[squeezed(s).len() - 1] == c);
            }
        }
    } else {
        assert(squeezed(s) =~= s);
    }
}

// ---------------------------------------------------------------------------
// Modules, impls and imports
// ---------------------------------------------------------------------------

/// Entering adds nothing that is found, and leaving restores where the walk
/// stood: a module is test code where a `cfg` says so, an impl is of a trait
/// where one is written and is that of the last segment of its type, and an
/// import is public only where it is wholly so.
pub proof fn scopes_nest(
    f: RustFileView,
    w: RustWalkView,
    name: Seq<char>,
    attrs: Seq<AttrView>,
    of: Option<Seq<SegmentView>>,
    over: Seq<SegmentView>,
    last: SegmentView,
    vis: Vis,
    d: FunctionView,
)
    ensures
        after_event(f, w, EventView::Mod(name, attrs)) == (RustWalkView {
            frames: w.frames.push(FrameView::Mod(name, cfg_test(attrs))),
            ..w
        }),
        after_event(f, w, EventView::Impl(of, Some(over.push(last)))) == (RustWalkView {
            frames: w.frames.push(FrameView::Impl(of is Some, Some(last.name))),
            ..w
        }),
        after_event(f, w, EventView::Impl(of, None)) == (RustWalkView {
            frames: w.frames.push(FrameView::Impl(of is Some, None)),
            ..w
        }),
        after_event(f, w, EventView::Use(vis)) == (RustWalkView {
            frames: w.frames.push(FrameView::Use(vis == Vis::Public)),
            ..w
        }),
        after_event(f, after_event(f, w, EventView::Mod(name, attrs)), EventView::Leave) == w,
        after_event(f, after_event(f, w, EventView::Impl(of, None)), EventView::Leave) == w,
        after_event(f, after_event(f, w, EventView::Use(vis)), EventView::Leave) == w,
        after_event(f, after_event(f, w, EventView::Fn(d)), EventView::Leave).frames == w.frames,
        after_event(f, after_event(f, w, EventView::Method(d)), EventView::Leave).frames
            == w.frames,
{
    assert(over.push(last).last() == last);
    let m = after_event(f, w, EventView::Mod(name, attrs));
    assert(m.frames.drop_last() =~= w.frames);
    let i = after_event(f, w, EventView::Impl(of, None));
    assert(i.frames.drop_last() =~= w.frames);
    let u = after_event(f, w, EventView::Use(vis));
    assert(u.frames.drop_last() =~= w.frames);
    let g = after_event(f, w, EventView::Fn(d));
    assert(g.frames.drop_last() =~= w.frames);
    let h = after_event(f, w, EventView::Method(d));
    assert(h.frames.drop_last() =~= w.frames);
}

/// A public import hands on the names that it brings in, a renamed one under
/// both of its names; any other import hands on nothing.
pub proof fn public_imports_hand_on(
    f: RustFileView,
    w: RustWalkView,
    vis: Vis,
    name: Seq<char>,
    other: Seq<char>,
    x: Seq<char>,
)
    ensures
        ({
            let inside = after_event(f, w, EventView::Use(vis));
            let one = after_event(f, inside, EventView::Import(name));
            let two = after_event(f, inside, EventView::Rename(name, other));
            &&& one.reexported.contains(x) <==> w.reexported.contains(x) || (vis == Vis::Public
                && x == name)
            &&& two.reexported.contains(x) <==> w.reexported.contains(x) || (vis == Vis::Public
                && (x == name || x == other))
            &&& one.edges == w.edges && two.edges == w.edges
            &&& one.definitions == w.definitions && two.definitions == w.definitions
        }),
{
}

/// One event more is one step more, and what was found stays found.
pub proof fn events_follow_each_other(
    f: RustFileView,
    events: Seq<EventView>,
    e: EventView,
    start: RustWalkView,
)
    ensures
        after_events(f, events.push(e), start) == after_event(
            f,
            after_events(f, events, start),
            e,
        ),
        after_events(f, events, start).edges.is_prefix_of(
            after_events(f, events.push(e), start).edges,
        ),
        after_events(f, events, start).definitions.is_prefix_of(
            after_events(f, events.push(e), start).definitions,
        ),
        after_events(f, events, start).reexported.subset_of(
            after_events(f, events.push(e), start).reexported,
        ),
        after_events(f, seq![], start) == (RustWalkView { frames: seq![], ..start }),
{
    assert(events.push(e).drop_last() =~= events);
    assert(events.push(e).last() == e);
}

/// A file stands for the module that its path spells under the source
/// directory; `lib`, `main` and `mod` stand for the directory that holds them.
pub proof fn files_are_modules(root: Seq<char>, dirs: Seq<Seq<char>>, stem: Seq<char>)
    requires
        root.len() > 0,
        root.last() != '/',
        forall|i: int|
            0 <= i < dirs.len() ==> (#[trigger] dirs[i]).len() > 0 && !dirs[i].contains('/'),
        stem.len() > 0,
        !stem.contains('/'),
        !crate::text::ends(stem, ".rs"@),
    ensures
        file_modules(root + "/"@ + join(dirs.push(stem + ".rs"@), "/"@), root) == (if stem
            == "lib"@ || stem == "main"@ || stem == "mod"@ {
            dirs
        } else {
            dirs.push(stem)
        }),
{
    reveal_strlit("/");
    reveal_strlit(".rs");
    reveal_strlit("");
    assert("/"@ =~= seq!['/']);
    let last = stem + ".rs"@;
    let parts = dirs.push(last);
    let rel = join(parts, "/"@);
    let file = root + "/"@ + rel;
    assert forall|i: int| 0 <= i < parts.len() implies !(#[trigger] parts[i]).contains('/')
        && parts[i].len() > 0 by {
        if i == dirs.len() {
            if last.contains('/') {
                let k = choose|k: int| 0 <= k < last.len() && last[k] == '/';
                if k < stem.len() {
                    assert(stem[k] == '/');
                }
            }
        } else {
            assert(parts[i] == dirs[i]);
        }
    }
    crate::laws::texts::splitting_undoes_joining(parts, '/');
    crate::laws::texts::full_pieces_stay(parts);
    crate::laws::paths::a_file_below_is_told_from_its_root(root, rel);
    assert(parts.drop_last() =~= dirs);
    crate::laws::texts::suffixes_go(stem, ".rs"@);
}

/// A group inside a `not` is negated with it, and what follows the `not`
/// counts again.
pub proof fn groups_under_a_not_are_negated(
    a: Seq<char>,
    u: Seq<char>,
    x: Seq<char>,
    v: Seq<char>,
    b: Seq<char>,
)
    requires
        marks_and_letters(),
        ungrouped(a),
        ungrouped(u),
        ungrouped(x),
        ungrouped(v),
        ungrouped(b),
        a.len() > 0 ==> !word_char(a.last()),
    ensures
        demanded(
            a + "not"@ + seq!['('] + u + seq!['('] + x + seq![')'] + v + seq![')'] + b,
        ) == a + "not"@ + b,
{
    let g = opened_not(a);
    reading_on_in_a_group(g, u);
    let g1 = (g + u).push('(');
    assert(g1.drop_last() =~= g + u);
    assert(negation(g1).2 == 2);
    assert(demanded(g1) == demanded(g));
    reading_on_in_a_group(g1, x);
    let g2 = (g1 + x).push(')');
    assert(g2.drop_last() =~= g1 + x);
    assert(negation(g2).2 == 1);
    assert(demanded(g2) == demanded(g));
    reading_on_in_a_group(g2, v);
    let g3 = (g2 + v).push(')');
    assert(g3.drop_last() =~= g2 + v);
    assert(negation(g3).2 == 0);
    assert(demanded(g3) == demanded(g));
    reading_on_in_a_group(g3, b);
    assert(g3 + b =~= a + "not"@ + seq!['('] + u + seq!['('] + x + seq![')'] + v + seq![')'] + b);
}

proof fn opened_not(a: Seq<char>) -> (g: Seq<char>)
    requires
        marks_and_letters(),
        ungrouped(a),
        a.len() > 0 ==> !word_char(a.last()),
    ensures
        g == a + "not"@ + seq!['('],
        negation(g).2 == 1,
        demanded(g) == a + "not"@,
{
    reveal_strlit("not");
    let e = Seq::<char>::empty();
    reading_on_in_a_group(e, a);
    assert(e + a =~= a);
    assert(demanded(e) + a =~= a);
    let a1 = a.push('n');
    let a2 = a1.push('o');
    let a3 = a2.push('t');
    assert(a1.drop_last() =~= a && a2.drop_last() =~= a1 && a3.drop_last() =~= a2);
    word_is_closed(a);
    assert(negation(a1).0 =~= seq!['n']);
    assert(negation(a2).0 =~= seq!['n', 'o']);
    assert(negation(a3).0 =~= seq!['n', 'o', 't']);
    assert(negation(a3).0 =~= "not"@);
    assert(a3 =~= a + "not"@);
    reading_on_in_a_group(a, "not"@);
    let g = a3.push('(');
    assert(g.drop_last() =~= a3);
    assert(g =~= a + "not"@ + seq!['(']);
    g
}

} // verus!
