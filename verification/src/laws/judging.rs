//! Who calls what, and what is reported.

use vstd::prelude::*;

use crate::evidence::answers_to;
use crate::evidence::caller_key;
use crate::evidence::caller_label;
use crate::evidence::key_of;
use crate::evidence::meant;
use crate::evidence::root_reason_of;
use crate::evidence::shown_caller;
use crate::evidence::suppression_of;
use crate::findings::alive;
use crate::findings::ambiguous;
use crate::findings::by_test_calls;
use crate::findings::directly_dead;
use crate::findings::exempt;
use crate::findings::finding_of;
use crate::findings::key_count;
use crate::findings::production_count;
use crate::findings::production_names;
use crate::findings::report_members;
use crate::findings::roots_production;
use crate::findings::test_names;
use crate::findings::test_only;
use crate::findings::tested;
use crate::findings::unreachable_code;
use crate::findings::Confidence;
use crate::findings::FindingView;
use crate::graph::Row;
use crate::ir::DefinitionView;
use crate::ir::EdgeKind;
use crate::ir::EdgeView;
use crate::ir::SymbolView;
use crate::number::decimal;
use crate::scan::calls_from;
use crate::scan::credits;
use crate::scan::sites;
use crate::scan::sites_from;
use crate::scan::ScanView;

verus! {

// ---------------------------------------------------------------------------
// Symbols
// ---------------------------------------------------------------------------

/// A symbol is written with what it is known by: its type, its crate before
/// that, or else its module, and its name behind.
pub proof fn symbols_are_written_out(
    name: Seq<char>,
    ty: Seq<char>,
    krate: Seq<char>,
    path: Seq<char>,
)
    ensures
        (SymbolView { name, self_ty: None, krate: None, path: None }).text() == name,
        (SymbolView { name, self_ty: Some(ty), krate: None, path: None }).text() == ty + "::"@
            + name,
        (SymbolView { name, self_ty: Some(ty), krate: Some(krate), path: None }).text() == krate
            + "::"@ + ty + "::"@ + name,
        (SymbolView { name, self_ty: None, krate: None, path: Some(path) }).text() == path + "::"@
            + name,
{
}

/// What a call of a symbol is a call of. One with a type or a module is what
/// it says. A bare name is the definition that is keyed so; where none is, any
/// definition of that name; and where there is none either, only itself.
pub proof fn calls_are_credited(
    defs: Seq<DefinitionView>,
    to: SymbolView,
    key: Seq<char>,
)
    ensures
        to.self_ty is Some || to.path is Some ==> (credits(defs, to, key) <==> key == to.text()),
        (exists|i: int| 0 <= i < defs.len() && (#[trigger] defs[i]).id.text() == to.text()) ==> (
        credits(defs, to, key) <==> key == to.text()),
        to.self_ty is None && to.path is None && (forall|i: int|
            0 <= i < defs.len() ==> (#[trigger] defs[i]).id.text() != to.text()) && (exists|i: int|
            0 <= i < defs.len() && (#[trigger] defs[i]).id.name == to.name) ==> (credits(
            defs,
            to,
            key,
        ) <==> exists|i: int|
            0 <= i < defs.len() && (#[trigger] defs[i]).id.name == to.name && defs[i].id.text()
                == key),
        (forall|i: int| 0 <= i < defs.len() ==> (#[trigger] defs[i]).id.name != to.name) ==> (
        credits(defs, to, key) <==> key == to.text()),
{
    if exists|i: int| 0 <= i < defs.len() && (#[trigger] defs[i]).id.text() == to.text() {
        let i = choose|i: int| 0 <= i < defs.len() && (#[trigger] defs[i]).id.text() == to.text();
        assert(defs[i].key() == to.text());
    }
    if credits(defs, to, key) && key != to.text() {
        let i = choose|i: int|
            0 <= i < defs.len() && (#[trigger] defs[i]).id.name == to.name && defs[i].key() == key;
        assert(defs[i].id.text() == key);
    }
    if exists|i: int|
        0 <= i < defs.len() && (#[trigger] defs[i]).id.name == to.name && defs[i].id.text() == key {
        let i = choose|i: int|
            0 <= i < defs.len() && (#[trigger] defs[i]).id.name == to.name && defs[i].id.text()
                == key;
        assert(defs[i].key() == key);
    }
}

// ---------------------------------------------------------------------------
// Call sites
// ---------------------------------------------------------------------------

/// The edge is a call of the key in production code, by whatever evidence.
pub open spec fn production_call(defs: Seq<DefinitionView>, key: Seq<char>, e: EdgeView) -> bool {
    !e.in_test && credits(defs, e.to, key)
}

/// The edge is a call of the key in test code; a token of a macro is none.
pub open spec fn test_call(defs: Seq<DefinitionView>, key: Seq<char>, e: EdgeView) -> bool {
    e.in_test && (e.kind == EdgeKind::Call || e.kind == EdgeKind::MethodCall) && credits(
        defs,
        e.to,
        key,
    )
}

/// How many edges there are of a kind.
pub open spec fn how_many(edges: Seq<EdgeView>, p: spec_fn(EdgeView) -> bool) -> nat {
    edges.filter(p).len()
}

/// The call sites of a key are counted, in production and in tests, and the
/// first three places in tests are kept, each as its file and its line.
pub proof fn call_sites_are_counted(
    defs: Seq<DefinitionView>,
    edges: Seq<EdgeView>,
    key: Seq<char>,
)
    ensures
        ({
            let c = sites_from(defs, edges, key);
            let in_prod = edges.filter(|e: EdgeView| production_call(defs, key, e));
            let in_test = edges.filter(|e: EdgeView| test_call(defs, key, e));
            &&& c.prod == in_prod.len()
            &&& c.test == in_test.len()
            &&& c.examples.len() == (if in_test.len() < 3 {
                in_test.len()
            } else {
                3
            })
            &&& forall|i: int|
                0 <= i < c.examples.len() ==> #[trigger] c.examples[i] == in_test[i].file + ":"@
                    + decimal(in_test[i].line)
        }),
    decreases edges.len(),
{
    reveal(Seq::filter);
    let p = |e: EdgeView| production_call(defs, key, e);
    let t = |e: EdgeView| test_call(defs, key, e);
    if edges.len() > 0 {
        let less = edges.drop_last();
        call_sites_are_counted(defs, less, key);
        let e = edges.last();
        assert(edges.filter(p) == if p(e) {
            less.filter(p).push(e)
        } else {
            less.filter(p)
        });
        assert(edges.filter(t) == if t(e) {
            less.filter(t).push(e)
        } else {
            less.filter(t)
        });
        let c = sites_from(defs, edges, key);
        let b = sites_from(defs, less, key);
        let in_test = edges.filter(t);
        let before = less.filter(t);
        assert forall|i: int| 0 <= i < c.examples.len() implies #[trigger] c.examples[i]
            == in_test[i].file + ":"@ + decimal(in_test[i].line) by {
            if i < b.examples.len() {
                assert(c.examples[i] == b.examples[i]);
                assert(in_test[i] == before[i]);
            } else {
                assert(in_test[i] == e);
            }
        }
    }
}

/// The graph holds a call exactly where an edge from the caller is credited to
/// the callee; in the graph that may accuse, no token of a macro in a test.
pub proof fn the_graph_is_the_edges(
    defs: Seq<DefinitionView>,
    edges: Seq<EdgeView>,
    strict: bool,
    from: Seq<char>,
    to: Seq<char>,
)
    ensures
        calls_from(defs, edges, strict).contains((from, to)) <==> exists|i: int|
            0 <= i < edges.len() && (#[trigger] edges[i]).from.text() == from && credits(
                defs,
                edges[i].to,
                to,
            ) && !(strict && edges[i].in_test && edges[i].kind == EdgeKind::MacroToken),
{
    if calls_from(defs, edges, strict).contains((from, to)) {
        let i = choose|i: int|
            0 <= i < edges.len() && (#[trigger] edges[i]).from.text() == from && credits(
                defs,
                edges[i].to,
                to,
            ) && (strict ==> crate::scan::counts(edges[i]));
        assert(!(strict && edges[i].in_test && edges[i].kind == EdgeKind::MacroToken));
    }
    if exists|i: int|
        0 <= i < edges.len() && (#[trigger] edges[i]).from.text() == from && credits(
            defs,
            edges[i].to,
            to,
        ) && !(strict && edges[i].in_test && edges[i].kind == EdgeKind::MacroToken) {
        let i = choose|i: int|
            0 <= i < edges.len() && (#[trigger] edges[i]).from.text() == from && credits(
                defs,
                edges[i].to,
                to,
            ) && !(strict && edges[i].in_test && edges[i].kind == EdgeKind::MacroToken);
        assert(strict ==> crate::scan::counts(edges[i]));
    }
}

// ---------------------------------------------------------------------------
// Findings
// ---------------------------------------------------------------------------

/// Names that something calls by convention.
pub open spec fn conventional(name: Seq<char>) -> bool {
    ||| name == "main"@
    ||| name == "new"@
    ||| name == "default"@
    ||| name == "fmt"@
    ||| name == "from"@
    ||| name == "from_str"@
    ||| name == "try_from"@
    ||| name == "drop"@
    ||| name == "clone"@
    ||| name == "next"@
    ||| name == "poll"@
    ||| name == "deref"@
    ||| name == "deref_mut"@
    ||| name == "eq"@
    ||| name == "ne"@
    ||| name == "hash"@
    ||| name == "cmp"@
    ||| name == "partial_cmp"@
    ||| name == "serialize"@
    ||| name == "deserialize"@
    ||| name == "into"@
    ||| name == "as_ref"@
    ||| name == "borrow"@
}

/// Two definitions of production code share the key.
pub open spec fn shared(defs: Seq<DefinitionView>, key: Seq<char>) -> bool {
    exists|i: int, j: int|
        0 <= i < j < defs.len() && !(#[trigger] defs[i]).in_test && defs[i].id.text() == key && !(
        #[trigger] defs[j]).in_test && defs[j].id.text() == key
}

/// A key is counted once for every production definition that has it.
pub proof fn counted_once_or_more(defs: Seq<DefinitionView>, key: Seq<char>)
    ensures
        key_count(defs, key) > 0 <==> exists|i: int|
            0 <= i < defs.len() && !(#[trigger] defs[i]).in_test && defs[i].id.text() == key,
        key_count(defs, key) > 1 <==> shared(defs, key),
    decreases defs.len(),
{
    if defs.len() > 0 {
        let less = defs.drop_last();
        let n = defs.len() - 1;
        counted_once_or_more(less, key);
        let here = !defs[n].in_test && defs[n].id.text() == key;
        assert(defs.last() == defs[n]);
        if key_count(less, key) > 0 {
            let i = choose|i: int|
                0 <= i < less.len() && !(#[trigger] less[i]).in_test && less[i].id.text() == key;
            assert(!defs[i].in_test && defs[i].id.text() == key);
            if here {
                assert(shared(defs, key));
            }
        }
        if key_count(less, key) > 1 {
            let (i, j) = choose|i: int, j: int|
                0 <= i < j < less.len() && !(#[trigger] less[i]).in_test && less[i].id.text() == key
                    && !(#[trigger] less[j]).in_test && less[j].id.text() == key;
            assert(defs[i] == less[i] && defs[j] == less[j]);
            assert(shared(defs, key));
        }
        if exists|i: int|
            0 <= i < defs.len() && !(#[trigger] defs[i]).in_test && defs[i].id.text() == key {
            let i = choose|i: int|
                0 <= i < defs.len() && !(#[trigger] defs[i]).in_test && defs[i].id.text() == key;
            if i < n {
                assert(less[i] == defs[i]);
            }
        }
        if shared(defs, key) {
            let (i, j) = choose|i: int, j: int|
                0 <= i < j < defs.len() && !(#[trigger] defs[i]).in_test && defs[i].id.text() == key
                    && !(#[trigger] defs[j]).in_test && defs[j].id.text() == key;
            assert(less[i] == defs[i]);
            if j < n {
                assert(less[j] == defs[j]);
                assert(shared(less, key));
            }
        }
    }
}

/// A key is ambiguous exactly where two production definitions share it.
pub proof fn shared_keys_are_ambiguous(s: ScanView, key: Seq<char>)
    ensures
        ambiguous(s, key) <==> shared(s.defs, key),
{
    counted_once_or_more(s.defs, key);
}

/// The configuration has a pattern for the name.
pub open spec fn listed(patterns: Seq<Seq<char>>, name: Seq<char>) -> bool {
    exists|i: int| 0 <= i < patterns.len() && crate::config::glob(#[trigger] patterns[i], name)
}

/// The definition can be judged: it is production code that no dispatch, no
/// attribute, no convention, no re-export and no configuration excuses, and no
/// other shares its key.
pub open spec fn can_be_judged(s: ScanView, d: DefinitionView) -> bool {
    &&& !d.in_test
    &&& !d.trait_impl
    &&& !d.allowed_dead
    &&& !conventional(d.id.name)
    &&& !s.reexported.contains(d.id.name)
    &&& !listed(s.config.ignore, d.id.name)
    &&& !shared(s.defs, d.id.text())
}

/// The definition is a way into the program: declared as one, open to another
/// language or to dispatch, part of a library's surface, or exported by a file
/// that a host loads.
pub open spec fn way_in(s: ScanView, d: DefinitionView) -> bool {
    &&& !d.in_test
    &&& !d.is_test_fn
    &&& {
        ||| listed(s.config.roots, d.id.name)
        ||| d.is_ffi
        ||| d.trait_impl
        ||| !s.application && (d.is_pub || s.reexported.contains(d.id.name))
        ||| d.is_pub && s.entry_files.contains(d.file)
    }
}

/// The finding tells of the definition.
pub open spec fn tells_of(s: ScanView, f: FindingView, d: DefinitionView) -> bool {
    let c = sites(s, d.id.text());
    &&& f.name == d.id.text()
    &&& f.file == d.file
    &&& f.line == d.line
    &&& f.test_calls == c.test
    &&& f.prod_calls == c.prod
    &&& f.examples == c.examples
    &&& f.confidence == Confidence::High <==> c.prod == 0
}

proof fn told_apart(s: ScanView, f: FindingView, d: DefinitionView)
    ensures
        finding_of(s, d) == f <==> tells_of(s, f, d),
        exempt(s, d) == !can_be_judged(s, d),
        roots_production(s, d) == way_in(s, d),
{
    shared_keys_are_ambiguous(s, d.key());
    if tells_of(s, f, d) {
        assert(finding_of(s, d) =~= f);
    }
}

/// Without the graph a definition is reported exactly where it can be judged,
/// is no way in, and is called by tests and by nothing in production.
pub proof fn direct_findings_are_just_these(s: ScanView, f: FindingView)
    ensures
        directly_dead(s).contains(f) <==> exists|i: int|
            0 <= i < s.defs.len() && tells_of(s, f, #[trigger] s.defs[i]) && can_be_judged(
                s,
                s.defs[i],
            ) && !way_in(s, s.defs[i]) && sites(s, s.defs[i].id.text()).prod == 0 && sites(
                s,
                s.defs[i].id.text(),
            ).test > 0,
{
    report_members(s, |d: DefinitionView| test_only(s, d), f);
    if directly_dead(s).contains(f) {
        let i = choose|i: int|
            0 <= i < s.defs.len() && test_only(s, #[trigger] s.defs[i]) && finding_of(s, s.defs[i])
                == f;
        told_apart(s, f, s.defs[i]);
        assert(tells_of(s, f, s.defs[i]));
    }
    if exists|i: int|
        0 <= i < s.defs.len() && tells_of(s, f, #[trigger] s.defs[i]) && can_be_judged(
            s,
            s.defs[i],
        ) && !way_in(s, s.defs[i]) && sites(s, s.defs[i].id.text()).prod == 0 && sites(
            s,
            s.defs[i].id.text(),
        ).test > 0 {
        let i = choose|i: int|
            0 <= i < s.defs.len() && tells_of(s, f, #[trigger] s.defs[i]) && can_be_judged(
                s,
                s.defs[i],
            ) && !way_in(s, s.defs[i]) && sites(s, s.defs[i].id.text()).prod == 0 && sites(
                s,
                s.defs[i].id.text(),
            ).test > 0;
        told_apart(s, f, s.defs[i]);
        assert(test_only(s, s.defs[i]) && finding_of(s, s.defs[i]) == f);
    }
}

/// With the graph a definition is reported exactly where it can be judged, is
/// neither a test nor open to another language, and lies within the reach of
/// the tests and out of that of the program.
pub proof fn graph_findings_are_just_these(s: ScanView, f: FindingView)
    ensures
        unreachable_code(s).contains(f) <==> exists|i: int|
            0 <= i < s.defs.len() && tells_of(s, f, #[trigger] s.defs[i]) && can_be_judged(
                s,
                s.defs[i],
            ) && !s.defs[i].is_test_fn && !s.defs[i].is_ffi && !alive(s).contains(
                s.defs[i].id.text(),
            ) && tested(s).contains(s.defs[i].id.text()),
{
    report_members(s, |d: DefinitionView| crate::findings::unreachable(s, d), f);
    if unreachable_code(s).contains(f) {
        let i = choose|i: int|
            0 <= i < s.defs.len() && crate::findings::unreachable(s, #[trigger] s.defs[i])
                && finding_of(s, s.defs[i]) == f;
        told_apart(s, f, s.defs[i]);
        assert(tells_of(s, f, s.defs[i]));
    }
    if exists|i: int|
        0 <= i < s.defs.len() && tells_of(s, f, #[trigger] s.defs[i]) && can_be_judged(
            s,
            s.defs[i],
        ) && !s.defs[i].is_test_fn && !s.defs[i].is_ffi && !alive(s).contains(s.defs[i].id.text())
            && tested(s).contains(s.defs[i].id.text()) {
        let i = choose|i: int|
            0 <= i < s.defs.len() && tells_of(s, f, #[trigger] s.defs[i]) && can_be_judged(
                s,
                s.defs[i],
            ) && !s.defs[i].is_test_fn && !s.defs[i].is_ffi && !alive(s).contains(
                s.defs[i].id.text(),
            ) && tested(s).contains(s.defs[i].id.text());
        told_apart(s, f, s.defs[i]);
        assert(crate::findings::unreachable(s, s.defs[i]) && finding_of(s, s.defs[i]) == f);
    }
}

/// The program starts from module level, from `main`, from the entry points of
/// the project and from every way in; the tests start from every test and all
/// that stands in test code.
pub proof fn starts_are_just_these(s: ScanView, key: Seq<char>)
    ensures
        production_names(s).contains(key) <==> {
            ||| key == ""@
            ||| key == "main"@
            ||| s.entry_points.contains(key)
            ||| exists|i: int|
                0 <= i < s.defs.len() && way_in(s, #[trigger] s.defs[i]) && s.defs[i].id.text()
                    == key
        },
        test_names(s).contains(key) <==> {
            ||| key == "<test module>"@
            ||| exists|i: int|
                0 <= i < s.defs.len() && ((#[trigger] s.defs[i]).is_test_fn || s.defs[i].in_test)
                    && s.defs[i].id.text() == key
        },
        alive(s) == crate::graph::reach(s.edges, production_names(s)),
        forall|c: crate::graph::Call|
            s.edges.contains(c) && !s.guessed.contains(c) && tested(s).contains(c.0) ==> #[trigger]
            tested(s).contains(c.1),
{
    assert forall|i: int| 0 <= i < s.defs.len() implies roots_production(s, #[trigger] s.defs[i])
        == way_in(s, s.defs[i]) by {
        told_apart(s, finding_of(s, s.defs[i]), s.defs[i]);
    }
    if exists|i: int|
        0 <= i < s.defs.len() && way_in(s, #[trigger] s.defs[i]) && s.defs[i].id.text() == key {
        let i = choose|i: int|
            0 <= i < s.defs.len() && way_in(s, #[trigger] s.defs[i]) && s.defs[i].id.text() == key;
        assert(roots_production(s, s.defs[i]) && s.defs[i].key() == key);
    }
    if exists|i: int|
        0 <= i < s.defs.len() && roots_production(s, #[trigger] s.defs[i]) && s.defs[i].key()
            == key {
        let i = choose|i: int|
            0 <= i < s.defs.len() && roots_production(s, #[trigger] s.defs[i]) && s.defs[i].key()
                == key;
        assert(way_in(s, s.defs[i]) && s.defs[i].id.text() == key);
    }
    if exists|i: int|
        0 <= i < s.defs.len() && ((#[trigger] s.defs[i]).is_test_fn || s.defs[i].in_test)
            && s.defs[i].id.text() == key {
        let i = choose|i: int|
            0 <= i < s.defs.len() && ((#[trigger] s.defs[i]).is_test_fn || s.defs[i].in_test)
                && s.defs[i].id.text() == key;
        assert(crate::findings::roots_tests(s.defs[i]) && s.defs[i].key() == key);
    }
    if exists|i: int|
        0 <= i < s.defs.len() && crate::findings::roots_tests(#[trigger] s.defs[i])
            && s.defs[i].key() == key {
        let i = choose|i: int|
            0 <= i < s.defs.len() && crate::findings::roots_tests(#[trigger] s.defs[i])
                && s.defs[i].key() == key;
        assert(s.defs[i].id.text() == key);
    }
    assert forall|c: crate::graph::Call|
        s.edges.contains(c) && !s.guessed.contains(c) && tested(s).contains(
            c.0,
        ) implies #[trigger] tested(s).contains(c.1) by {
        crate::graph::reach_follows(s.edges.difference(s.guessed), test_names(s), c.0, c.1);
    }
}

/// What tests call most often comes first.
pub proof fn the_most_tested_come_first(s: ScanView, i: int, j: int)
    ensures
        0 <= i < j < directly_dead(s).len() ==> directly_dead(s)[i].test_calls
            >= directly_dead(s)[j].test_calls,
        0 <= i < j < unreachable_code(s).len() ==> unreachable_code(s)[i].test_calls
            >= unreachable_code(s)[j].test_calls,
{
    let told = |d: DefinitionView| finding_of(s, d);
    crate::order::arranged_in_order(
        s.defs.filter(|d: DefinitionView| test_only(s, d)).map_values(told),
        by_test_calls(),
    );
    crate::order::arranged_in_order(
        s.defs.filter(|d: DefinitionView| crate::findings::unreachable(s, d)).map_values(told),
        by_test_calls(),
    );
}

/// The functions of production are counted, and those whose key is shared.
pub proof fn production_is_counted(defs: Seq<DefinitionView>, p: spec_fn(Seq<char>) -> bool)
    ensures
        production_count(defs, p) == defs.filter(
            |d: DefinitionView| !d.in_test && p(d.id.text()),
        ).len(),
    decreases defs.len(),
{
    reveal(Seq::filter);
    let keep = |d: DefinitionView| !d.in_test && p(d.id.text());
    if defs.len() > 0 {
        production_is_counted(defs.drop_last(), p);
        assert(defs.filter(keep) == if keep(defs.last()) {
            defs.drop_last().filter(keep).push(defs.last())
        } else {
            defs.drop_last().filter(keep)
        });
    }
}

// ---------------------------------------------------------------------------
// Evidence
// ---------------------------------------------------------------------------

/// Definition `i` is the first that goes by the name, bare or in full.
pub open spec fn first_meant(s: ScanView, name: Seq<char>, i: int) -> bool {
    &&& 0 <= i < s.defs.len()
    &&& s.defs[i].id.name == name || s.defs[i].id.text() == name
    &&& forall|j: int|
        0 <= j < i ==> (#[trigger] s.defs[j]).id.name != name && s.defs[j].id.text() != name
}

proof fn the_first_is_meant(s: ScanView, name: Seq<char>, defs: Seq<DefinitionView>, i: int)
    requires
        0 <= i < defs.len(),
        defs[i].id.name == name || defs[i].id.text() == name,
        forall|j: int|
            0 <= j < i ==> (#[trigger] defs[j]).id.name != name && defs[j].id.text() != name,
    ensures
        ({
            let kept = defs.filter(|d: DefinitionView| answers_to(d, name));
            kept.len() > 0 && kept[0] == defs[i]
        }),
    decreases defs.len(),
{
    reveal(Seq::filter);
    let asked = |d: DefinitionView| answers_to(d, name);
    let less = defs.drop_last();
    if i < less.len() {
        assert forall|j: int| 0 <= j < i implies (#[trigger] less[j]).id.name != name
            && less[j].id.text() != name by {
            assert(less[j] == defs[j]);
        }
        the_first_is_meant(s, name, less, i);
        assert(defs.filter(asked) == if asked(defs.last()) {
            less.filter(asked).push(defs.last())
        } else {
            less.filter(asked)
        });
    } else {
        none_before(less, name);
        assert(defs.last() == defs[i]);
        assert(defs.filter(asked) == less.filter(asked).push(defs.last()));
    }
}

proof fn none_before(defs: Seq<DefinitionView>, name: Seq<char>)
    requires
        forall|j: int|
            0 <= j < defs.len() ==> (#[trigger] defs[j]).id.name != name && defs[j].id.text()
                != name,
    ensures
        defs.filter(|d: DefinitionView| answers_to(d, name)).len() == 0,
    decreases defs.len(),
{
    reveal(Seq::filter);
    if defs.len() > 0 {
        let less = defs.drop_last();
        assert forall|j: int| 0 <= j < less.len() implies (#[trigger] less[j]).id.name != name
            && less[j].id.text() != name by {
            assert(less[j] == defs[j]);
        }
        none_before(less, name);
        assert(defs.last() == defs[defs.len() - 1]);
    }
}

/// The reason that is given for a root is the first that applies.
pub proof fn reasons_come_in_order(s: ScanView, name: Seq<char>, i: int)
    requires
        first_meant(s, name, i),
    ensures
        ({
            let d = s.defs[i];
            let r = root_reason_of(s, name);
            let again = s.reexported.contains(d.id.name);
            &&& d.is_ffi ==> r == "#[no_mangle] / extern"@
            &&& !d.is_ffi && d.trait_impl ==> r == "trait impl method (dynamic dispatch)"@
            &&& !d.is_ffi && !d.trait_impl && again ==> r == "re-exported at crate root"@
            &&& !d.is_ffi && !d.trait_impl && !again && d.is_pub && !s.application ==> r
                == "public API of a library crate"@
            &&& !d.is_ffi && !d.trait_impl && !again && !(d.is_pub && !s.application) ==> r == (
            if name == "main"@ {
                "program entry point"@
            } else {
                "not a root"@
            })
            &&& key_of(s, name) == d.id.text()
        }),
{
    the_first_is_meant(s, name, s.defs, i);
}

/// What keeps a name from being reported is the first reason that applies, and
/// nothing does where none applies.
pub proof fn suppressions_come_in_order(s: ScanView, name: Seq<char>, i: int)
    requires
        first_meant(s, name, i),
    ensures
        ({
            let d = s.defs[i];
            let r = suppression_of(s, name);
            &&& d.in_test ==> r == Some("defined in test code"@)
            &&& !d.in_test && d.allowed_dead ==> r == Some("#[allow(dead_code)]"@)
            &&& !d.in_test && !d.allowed_dead && d.trait_impl ==> r == Some(
                "trait impl method — dispatch is invisible here"@,
            )
            &&& !d.in_test && !d.allowed_dead && !d.trait_impl && shared(s.defs, d.id.text()) ==> r
                == Some("name is not unique in production; edges cannot be attributed"@)
            &&& !d.in_test && !d.allowed_dead && !d.trait_impl && !shared(s.defs, d.id.text())
                && conventional(d.id.name) ==> r == Some("conventional entry point"@)
            &&& !d.in_test && !d.allowed_dead && !d.trait_impl && !shared(s.defs, d.id.text())
                && !conventional(d.id.name) ==> r is None
        }),
{
    the_first_is_meant(s, name, s.defs, i);
    counted_once_or_more(s.defs, s.defs[i].key());
}

/// Of a name that nothing is called by, the evidence says so and is no root.
pub proof fn an_unknown_name_is_told_so(s: ScanView, name: Seq<char>)
    requires
        forall|j: int|
            0 <= j < s.defs.len() ==> (#[trigger] s.defs[j]).id.name != name
                && s.defs[j].id.text() != name,
    ensures
        meant(s, name).len() == 0,
        key_of(s, name) == name,
        suppression_of(s, name) == Some("no definition found in the scanned crates"@),
        name != "main"@ ==> root_reason_of(s, name) == "not a root"@,
        name == "main"@ ==> root_reason_of(s, name) == "program entry point"@,
{
    none_before(s.defs, name);
}

/// Every caller in the graph is shown, as live where the program reaches it;
/// calls outside any function are those of the module.
pub proof fn callers_are_shown(s: ScanView, rows: Seq<Row>, key: Seq<char>, i: int)
    requires
        0 <= i < rows.len(),
        rows[i].1.contains(key),
    ensures
        rows[i].0.len() > 0 && alive(s).contains(rows[i].0) ==> shown_caller(
            s,
            rows,
            key,
            seq![rows[i].0, "1"@],
        ),
        rows[i].0.len() > 0 && !alive(s).contains(rows[i].0) ==> shown_caller(
            s,
            rows,
            key,
            seq![rows[i].0, "0"@],
        ),
        rows[i].0.len() == 0 ==> shown_caller(s, rows, key, seq!["<module level>"@, "1"@]),
{
    let from = rows[i].0;
    if from.len() == 0 {
        reveal_strlit("");
        assert(from =~= ""@);
        crate::graph::roots_are_reached(s.edges, production_names(s), from);
    }
    assert(shown_caller(s, rows, key, caller_key(caller_label(from), alive(s).contains(from))));
}

/// A call of the graph is a guess where nothing but tokens of macros show it.
pub proof fn guesses_rest_on_tokens_alone(
    defs: Seq<DefinitionView>,
    edges: Seq<EdgeView>,
    from: Seq<char>,
    to: Seq<char>,
)
    ensures
        crate::scan::guesses_from(defs, edges).contains((from, to)) <==> calls_from(
            defs,
            edges,
            true,
        ).contains((from, to)) && forall|i: int|
            0 <= i < edges.len() && (#[trigger] edges[i]).from.text() == from && credits(
                defs,
                edges[i].to,
                to,
            ) ==> edges[i].kind == EdgeKind::MacroToken,
{
    let shown = crate::scan::witnessed_from(defs, edges);
    if shown.contains((from, to)) {
        let i = choose|i: int|
            0 <= i < edges.len() && (#[trigger] edges[i]).kind.witnessed() && edges[i].from.text()
                == from && credits(defs, edges[i].to, to);
        assert(edges[i].kind != EdgeKind::MacroToken);
    }
    if !shown.contains((from, to)) {
        assert forall|i: int|
            0 <= i < edges.len() && (#[trigger] edges[i]).from.text() == from && credits(
                defs,
                edges[i].to,
                to,
            ) implies edges[i].kind == EdgeKind::MacroToken by {
            if edges[i].kind != EdgeKind::MacroToken {
                assert(edges[i].kind.witnessed());
            }
        }
    }
}

/// The places of a name are those of every definition that goes by it, in
/// order.
pub proof fn places_are_those_meant(s: ScanView, name: Seq<char>, d: DefinitionView, i: int)
    ensures
        meant(s, name).contains(d) <==> s.defs.contains(d) && (d.id.name == name || d.id.text()
            == name),
        crate::evidence::places(meant(s, name)).len() == meant(s, name).len(),
        0 <= i < meant(s, name).len() ==> crate::evidence::places(meant(s, name))[i] == (
            meant(s, name)[i].file,
            meant(s, name)[i].line,
        ),
{
    crate::seqs::filter_members(s.defs, |x: DefinitionView| answers_to(x, name), d);
}

/// A record agrees with what is reported: of a function that is, it says that
/// tests reach it and the program does not, and how often each calls it.
pub proof fn records_agree_with_the_findings(
    s: ScanView,
    name: Seq<char>,
    i: int,
    r: crate::evidence::Evidence,
)
    requires
        first_meant(s, name, i),
        crate::evidence::records(s, name, r),
    ensures
        ({
            let key = s.defs[i].id.text();
            &&& r.name@ == name
            &&& r.in_production_set == alive(s).contains(key)
            &&& r.in_test_set == tested(s).contains(key)
            &&& r.is_root == production_names(s).contains(key)
            &&& r.prod_call_sites == sites(s, key).prod
            &&& r.test_call_sites == sites(s, key).test
            &&& r.defined@.len() == meant(s, name).len()
            &&& r.suppressed is None ==> !s.defs[i].in_test && !s.defs[i].trait_impl
                && !s.defs[i].allowed_dead && !shared(s.defs, key)
        }),
{
    reasons_come_in_order(s, name, i);
    suppressions_come_in_order(s, name, i);
    assert(crate::evidence::place_views(r.defined@).len() == r.defined@.len());
}

/// The graph is laid out in the order in which calls are met: a caller keeps
/// its place, what it calls keeps its order, and what is new goes to the end.
pub proof fn calls_are_laid_out_as_they_are_met(
    rows: Seq<Row>,
    from: Seq<char>,
    to: Seq<char>,
    i: int,
)
    ensures
        ({
            let now = crate::graph::rows_with(rows, from, to);
            let known = exists|k: int| 0 <= k < rows.len() && (#[trigger] rows[k]).0 == from;
            &&& known ==> now.len() == rows.len()
            &&& !known ==> now == rows.push((from, seq![to]))
            &&& 0 <= i < rows.len() ==> now[i].0 == rows[i].0 && rows[i].1.is_prefix_of(now[i].1)
            &&& 0 <= i < rows.len() && rows[i].0 != from ==> now[i] == rows[i]
            &&& 0 <= i < rows.len() && rows[i].1.contains(to) ==> now[i] == rows[i]
        }),
    decreases rows.len(),
{
    let now = crate::graph::rows_with(rows, from, to);
    if rows.len() == 0 {
        assert(now =~= rows.push((from, seq![to])));
    } else if rows[0].0 == from {
        assert(now[0] == (from, crate::graph::with_name(rows[0].1, to)));
        if i > 0 && i < rows.len() {
            assert(now[i] == rows.skip(1)[i - 1]);
        }
    } else {
        let rest = rows.skip(1);
        calls_are_laid_out_as_they_are_met(rest, from, to, i - 1);
        let later = crate::graph::rows_with(rest, from, to);
        assert(now =~= seq![rows[0]] + later);
        if exists|k: int| 0 <= k < rows.len() && (#[trigger] rows[k]).0 == from {
            let k = choose|k: int| 0 <= k < rows.len() && (#[trigger] rows[k]).0 == from;
            assert(rest[k - 1].0 == from);
        }
        if exists|k: int| 0 <= k < rest.len() && (#[trigger] rest[k]).0 == from {
            let k = choose|k: int| 0 <= k < rest.len() && (#[trigger] rest[k]).0 == from;
            assert(rows[k + 1].0 == from);
        } else {
            assert(later =~= rest.push((from, seq![to])));
            assert(now =~= rows.push((from, seq![to])));
        }
        if i > 0 && i < rows.len() {
            assert(now[i] == later[i - 1]);
            assert(rows[i] == rest[i - 1]);
        }
    }
}

/// The keys that a bare name may mean are those of its definitions, in their
/// order, each once.
pub proof fn keys_are_listed_as_they_are_met(
    defs: Seq<DefinitionView>,
    d: DefinitionView,
    name: Seq<char>,
)
    ensures
        ({
            let before = crate::scan::keys_named(defs, name);
            let now = crate::scan::keys_named(defs.push(d), name);
            &&& d.id.name != name ==> now == before
            &&& d.id.name == name && before.contains(d.id.text()) ==> now == before
            &&& d.id.name == name && !before.contains(d.id.text()) ==> now == before.push(
                d.id.text(),
            )
        }),
        crate::scan::keys_named(seq![], name).len() == 0,
{
    assert(defs.push(d).drop_last() =~= defs);
    assert(defs.push(d).last() == d);
}

/// The rows of a scan are laid out edge by edge, and target by target.
pub proof fn rows_follow_the_edges(
    defs: Seq<DefinitionView>,
    edges: Seq<EdgeView>,
    e: EdgeView,
    strict: bool,
    rows: Seq<Row>,
    from: Seq<char>,
    tos: Seq<Seq<char>>,
    to: Seq<char>,
)
    ensures
        ({
            let before = crate::scan::rows_from(defs, edges, strict);
            let now = crate::scan::rows_from(defs, edges.push(e), strict);
            let left_out = strict && e.in_test && e.kind == EdgeKind::MacroToken;
            &&& left_out ==> now == before
            &&& !left_out ==> now == crate::scan::rows_with_all(
                before,
                e.from.text(),
                crate::scan::credited_keys(defs, e.to),
            )
        }),
        crate::scan::rows_with_all(rows, from, tos.push(to)) == crate::graph::rows_with(
            crate::scan::rows_with_all(rows, from, tos),
            from,
            to,
        ),
        crate::scan::rows_with_all(rows, from, seq![]) == rows,
        crate::scan::rows_from(defs, seq![], strict).len() == 0,
{
    assert(edges.push(e).drop_last() =~= edges);
    assert(edges.push(e).last() == e);
    assert(tos.push(to).drop_last() =~= tos);
}

} // verus!
