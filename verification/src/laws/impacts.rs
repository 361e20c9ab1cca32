//! Which tests a change calls for.

use vstd::prelude::*;

use crate::changes::changed_keys;
use crate::changes::unmapped_parts;
use crate::changes::Touched;
use crate::evidence::dot_call;
use crate::evidence::dot_node;
use crate::evidence::dot_nodes;
use crate::evidence::meant;
use crate::findings::alive;
use crate::graph::reach;
use crate::impact::boundary;
use crate::impact::encloses;
use crate::impact::key_at;
use crate::impact::must_run;
use crate::impact::tells;
use crate::impact::test_function;
use crate::impact::tests_of;
use crate::ir::DefinitionView;
use crate::scan::ScanView;

verus! {

/// Definition `i` is a test that goes by the key.
pub open spec fn a_test(s: ScanView, i: int, key: Seq<char>) -> bool {
    0 <= i < s.defs.len() && s.defs[i].is_test_fn && s.defs[i].id.text() == key
}

/// The body of definition `i` leaves the program.
pub open spec fn leaves(s: ScanView, i: int, key: Seq<char>) -> bool {
    0 <= i < s.defs.len() && s.defs[i].opaque && s.defs[i].id.text() == key
}

/// A test must run exactly where it reaches something that changed, over any
/// call that was seen, or something that leaves the program.
pub proof fn tests_run_for_what_they_reach(s: ScanView, changed: Set<Seq<char>>, key: Seq<char>)
    ensures
        must_run(s, changed, key) <==> (exists|i: int| #[trigger] a_test(s, i, key)) && exists|
            x: Seq<char>,
        |
            #[trigger] reach(s.all_edges, set![key]).contains(x) && (changed.contains(x) || exists|
                j: int,
            |
                #[trigger] leaves(s, j, x)),
{
    if exists|i: int| #[trigger] a_test(s, i, key) {
        let i = choose|i: int| #[trigger] a_test(s, i, key);
        assert(s.defs[i].is_test_fn && s.defs[i].key() == key);
    }
    if must_run(s, changed, key) {
        let i = choose|i: int|
            0 <= i < s.defs.len() && (#[trigger] s.defs[i]).is_test_fn && s.defs[i].key() == key;
        assert(a_test(s, i, key));
        if crate::impact::arrives(s, key, changed) {
            let x = choose|x: Seq<char>| #[trigger]
                changed.contains(x) && crate::graph::reaches(s.all_edges, set![key], x);
            assert(reach(s.all_edges, set![key]).contains(x));
        } else {
            let x = choose|x: Seq<char>| #[trigger]
                boundary(s).contains(x) && crate::graph::reaches(s.all_edges, set![key], x);
            assert(reach(s.all_edges, set![key]).contains(x));
            let j = choose|j: int|
                0 <= j < s.defs.len() && (#[trigger] s.defs[j]).opaque && s.defs[j].key() == x;
            assert(leaves(s, j, x));
        }
    }
    if exists|x: Seq<char>| #[trigger]
        reach(s.all_edges, set![key]).contains(x) && (changed.contains(x) || exists|j: int|
            #[trigger] leaves(s, j, x)) {
        let x = choose|x: Seq<char>| #[trigger]
            reach(s.all_edges, set![key]).contains(x) && (changed.contains(x) || exists|j: int|
                #[trigger] leaves(s, j, x));
        assert(crate::graph::reaches(s.all_edges, set![key], x));
        if !changed.contains(x) {
            let j = choose|j: int| #[trigger] leaves(s, j, x);
            assert(s.defs[j].opaque && s.defs[j].key() == x);
            assert(boundary(s).contains(x));
            assert(crate::impact::arrives(s, key, boundary(s)));
        } else {
            assert(crate::impact::arrives(s, key, changed));
        }
    }
}

/// A test that changed must run, and so must one that calls what changed.
pub proof fn tests_near_a_change_run(
    s: ScanView,
    changed: Set<Seq<char>>,
    i: int,
    key: Seq<char>,
    x: Seq<char>,
)
    requires
        a_test(s, i, key),
    ensures
        changed.contains(key) ==> must_run(s, changed, key),
        s.all_edges.contains((key, x)) && changed.contains(x) ==> must_run(s, changed, key),
        leaves(s, i, key) ==> must_run(s, changed, key),
{
    tests_run_for_what_they_reach(s, changed, key);
    assert(set![key].contains(key));
    crate::graph::roots_are_reached(s.all_edges, set![key], key);
    assert(reach(s.all_edges, set![key]).contains(key));
    if leaves(s, i, key) {
        assert(exists|j: int| #[trigger] leaves(s, j, key));
    }
    if s.all_edges.contains((key, x)) {
        crate::graph::reach_follows(s.all_edges, set![key], key, x);
    }
}

/// Every test is told, by its key and its place, and as one that always runs
/// exactly where it reaches what leaves the program.
pub proof fn tests_are_told(s: ScanView, d: DefinitionView)
    ensures
        tests_of(s).contains(d) <==> s.defs.contains(d) && d.is_test_fn,
        test_function(s, d).key == d.id.text(),
        test_function(s, d).file == d.file,
        test_function(s, d).line == d.line,
        test_function(s, d).opaque <==> exists|x: Seq<char>| #[trigger]
            reach(s.all_edges, set![d.id.text()]).contains(x) && exists|j: int|
                #[trigger] leaves(s, j, x),
{
    crate::seqs::filter_members(s.defs, |x: DefinitionView| x.is_test_fn, d);
    let key = d.id.text();
    if test_function(s, d).opaque {
        let x = choose|x: Seq<char>| #[trigger]
            boundary(s).contains(x) && crate::graph::reaches(s.all_edges, set![key], x);
        assert(reach(s.all_edges, set![key]).contains(x));
        let j = choose|j: int|
            0 <= j < s.defs.len() && (#[trigger] s.defs[j]).opaque && s.defs[j].key() == x;
        assert(leaves(s, j, x));
    }
    if exists|x: Seq<char>| #[trigger]
        reach(s.all_edges, set![key]).contains(x) && exists|j: int| #[trigger] leaves(s, j, x) {
        let x = choose|x: Seq<char>| #[trigger]
            reach(s.all_edges, set![key]).contains(x) && exists|j: int| #[trigger] leaves(s, j, x);
        let j = choose|j: int| #[trigger] leaves(s, j, x);
        assert(s.defs[j].opaque && s.defs[j].key() == x);
        assert(boundary(s).contains(x));
    }
}

/// A file of a diff is a file of the project where it is the same path, or the
/// end of it behind a `/`.
pub proof fn files_are_matched_by_their_ends(told: Seq<char>, dir: Seq<char>, c: char)
    requires
        c != '/',
    ensures
        tells(told, told),
        tells(told, dir + "/"@ + told),
        !tells(told, dir.push(c) + told) || told == dir.push(c) + told,
{
    reveal_strlit("/");
    let tail = "/"@ + told;
    assert(dir + "/"@ + told =~= dir + tail);
    crate::laws::texts::parts_are_found(dir, tail, tail);
    let other = dir.push(c) + told;
    if crate::text::ends(other, tail) {
        let k = other.len() - tail.len();
        assert(other.subrange(k, other.len() as int)[0] == other[k]);
        assert(other[k] == c);
    }
}

/// A line belongs to the function that starts last before it in its file: to
/// none that starts behind it, and to none that another one parts from it.
pub proof fn lines_belong_to_the_function_above(
    defs: Seq<DefinitionView>,
    file: Seq<char>,
    line: nat,
    i: int,
    j: int,
)
    ensures
        encloses(defs, file, line, i) ==> 0 <= i < defs.len() && defs[i].line <= line && tells(
            file,
            defs[i].file,
        ),
        encloses(defs, file, line, i) && 0 <= j < defs.len() && defs[j].file == defs[i].file
            && defs[j].line <= line ==> defs[j].line <= defs[i].line,
        0 <= i < defs.len() && tells(file, defs[i].file) && defs[i].line == line ==> encloses(
            defs,
            file,
            line,
            i,
        ),
        0 <= i < defs.len() && tells(file, defs[i].file) && defs[i].line <= line && (forall|k: int|
            0 <= k < defs.len() && (#[trigger] defs[k]).file == defs[i].file && k != i
                ==> defs[k].line > line || defs[k].line <= defs[i].line) ==> encloses(
            defs,
            file,
            line,
            i,
        ),
{
}

/// A key is touched where one of the lines belongs to its function.
pub proof fn touched_lines_touch_functions(
    defs: Seq<DefinitionView>,
    file: Seq<char>,
    lines: Seq<usize>,
    n: int,
    i: int,
)
    requires
        0 <= n < lines.len(),
        encloses(defs, file, lines[n] as nat, i),
    ensures
        key_at(defs, file, lines, defs[i].id.text()),
{
    assert(defs[i].key() == defs[i].id.text());
}

/// What is named and what is touched is changed, and nothing else.
pub proof fn what_is_changed(
    s: ScanView,
    symbols: Seq<Seq<char>>,
    files: Seq<Touched>,
    key: Seq<char>,
)
    ensures
        changed_keys(s, symbols, files).contains(key) <==> {
            ||| exists|i: int, n: int|
                0 <= i < s.defs.len() && 0 <= n < symbols.len() && ((#[trigger] s.defs[i]).id.name
                    == #[trigger] symbols[n] || s.defs[i].id.text() == symbols[n])
                    && s.defs[i].id.text() == key
            ||| exists|n: int|
                0 <= n < files.len() && key_at(s.defs, (#[trigger] files[n]).0, files[n].1, key)
        },
{
    if crate::changes::named_by(s, symbols, key) {
        let (i, n) = choose|i: int, n: int|
            0 <= i < s.defs.len() && 0 <= n < symbols.len() && crate::evidence::answers_to(
                #[trigger] s.defs[i],
                #[trigger] symbols[n],
            ) && s.defs[i].key() == key;
        assert(s.defs[i].id.name == symbols[n] || s.defs[i].id.text() == symbols[n]);
    }
    if exists|i: int, n: int|
        0 <= i < s.defs.len() && 0 <= n < symbols.len() && ((#[trigger] s.defs[i]).id.name
            == #[trigger] symbols[n] || s.defs[i].id.text() == symbols[n]) && s.defs[i].id.text()
            == key {
        let (i, n) = choose|i: int, n: int|
            0 <= i < s.defs.len() && 0 <= n < symbols.len() && ((#[trigger] s.defs[i]).id.name
                == #[trigger] symbols[n] || s.defs[i].id.text() == symbols[n])
                && s.defs[i].id.text() == key;
        assert(crate::evidence::answers_to(s.defs[i], symbols[n]) && s.defs[i].key() == key);
    }
}

/// What could not be put down to a function is told: every name that nothing
/// goes by, every file in which no function was touched, and all that could
/// not be read.
pub proof fn what_is_unmapped(
    s: ScanView,
    symbols: Seq<Seq<char>>,
    files: Seq<Touched>,
    skipped: Seq<Seq<char>>,
    n: int,
)
    ensures
        0 <= n < symbols.len() && (forall|j: int|
            0 <= j < s.defs.len() ==> (#[trigger] s.defs[j]).id.name != symbols[n]
                && s.defs[j].id.text() != symbols[n]) ==> unmapped_parts(
            s,
            symbols,
            files,
            skipped,
        ).contains(symbols[n]),
        0 <= n < files.len() && (forall|k: Seq<char>|
            !#[trigger] key_at(s.defs, files[n].0, files[n].1, k)) ==> unmapped_parts(
            s,
            symbols,
            files,
            skipped,
        ).contains(files[n].0 + " (no function matched)"@),
        0 <= n < skipped.len() ==> unmapped_parts(s, symbols, files, skipped).contains(skipped[n]),
{
    let unknown = |x: Seq<char>| meant(s, x).len() == 0;
    let lost = |t: Touched| crate::changes::unplaced(s, t);
    let told = |t: Touched| t.0 + " (no function matched)"@;
    let a = symbols.filter(unknown);
    let b = files.filter(lost).map_values(told);
    let all = unmapped_parts(s, symbols, files, skipped);
    assert(all =~= a + b + skipped);
    if 0 <= n < symbols.len() && (forall|j: int|
        0 <= j < s.defs.len() ==> (#[trigger] s.defs[j]).id.name != symbols[n]
            && s.defs[j].id.text() != symbols[n]) {
        crate::laws::judging::an_unknown_name_is_told_so(s, symbols[n]);
        assert(symbols.contains(symbols[n]));
        crate::seqs::filter_members(symbols, unknown, symbols[n]);
        let k = choose|k: int| 0 <= k < a.len() && a[k] == symbols[n];
        assert(all[k] == symbols[n]);
    }
    if 0 <= n < files.len() && (forall|k: Seq<char>|
        !#[trigger] key_at(s.defs, files[n].0, files[n].1, k)) {
        assert(crate::changes::unplaced(s, files[n]));
        assert(files.contains(files[n]));
        crate::seqs::filter_members(files, lost, files[n]);
        let kept = files.filter(lost);
        let k = choose|k: int| 0 <= k < kept.len() && kept[k] == files[n];
        assert(b[k] == told(files[n]));
        assert(all[a.len() + k] == b[k]);
    }
    if 0 <= n < skipped.len() {
        assert(all[a.len() + b.len() + n] == skipped[n]);
    }
}

/// The drawing has a box for every function of production, in the colour of
/// what the program reaches or in the other, and none for a test.
pub proof fn production_is_drawn(s: ScanView, defs: Seq<DefinitionView>, d: DefinitionView)
    ensures
        dot_nodes(s, defs.push(d)) == dot_nodes(s, defs) + dot_node(s, d),
        dot_nodes(s, seq![]) == Seq::<char>::empty(),
        d.in_test || d.is_test_fn ==> dot_node(s, d) == Seq::<char>::empty(),
        !d.in_test && !d.is_test_fn && alive(s).contains(d.id.text()) ==> dot_node(s, d) == "  \""@
            + d.id.text() + "\" [style=filled,fillcolor=\""@ + "#e8f0e8"@ + "\"];\n"@,
        !d.in_test && !d.is_test_fn && !alive(s).contains(d.id.text()) ==> dot_node(s, d) == "  \""@
            + d.id.text() + "\" [style=filled,fillcolor=\""@ + "#ffd6d6"@ + "\"];\n"@,
{
    assert(defs.push(d).drop_last() =~= defs);
    assert(defs.push(d).last() == d);
}

/// A call is drawn where production defines what it calls.
pub proof fn calls_of_production_are_drawn(s: ScanView, from: Seq<char>, to: Seq<char>, i: int)
    ensures
        0 <= i < s.defs.len() && !s.defs[i].in_test && s.defs[i].id.text() == to ==> dot_call(
            s,
            from,
            to,
        ) == "  \""@ + from + "\" -> \""@ + to + "\";\n"@,
        (forall|k: int|
            0 <= k < s.defs.len() ==> (#[trigger] s.defs[k]).in_test || s.defs[k].id.text() != to)
            ==> dot_call(s, from, to) == Seq::<char>::empty(),
{
    crate::laws::judging::counted_once_or_more(s.defs, to);
}

/// The calls are drawn row by row and one by one; those outside any function
/// are not drawn.
pub proof fn rows_are_drawn_in_order(
    s: ScanView,
    rows: Seq<crate::graph::Row>,
    from: Seq<char>,
    tos: Seq<Seq<char>>,
    to: Seq<char>,
)
    ensures
        crate::evidence::dot_calls(s, from, tos.push(to)) == crate::evidence::dot_calls(
            s,
            from,
            tos,
        ) + dot_call(s, from, to),
        from.len() > 0 ==> crate::evidence::dot_rows(s, rows.push((from, tos)))
            == crate::evidence::dot_rows(s, rows) + crate::evidence::dot_calls(s, from, tos),
        from.len() == 0 ==> crate::evidence::dot_rows(s, rows.push((from, tos)))
            == crate::evidence::dot_rows(s, rows),
{
    assert(tos.push(to).drop_last() =~= tos);
    let more = rows.push((from, tos));
    assert(more.drop_last() =~= rows);
    assert(more.last() == (from, tos));
    if from.len() == 0 {
        assert(crate::evidence::dot_rows(s, more) =~= crate::evidence::dot_rows(s, rows));
    }
}

/// The tests that always run are those that reach what leaves the program.
pub proof fn tests_that_always_run(s: ScanView, t: crate::impact::TestFunctionView)
    ensures
        crate::changes::always_run(s).contains(t) <==> t.opaque && exists|i: int|
            0 <= i < s.defs.len() && (#[trigger] s.defs[i]).is_test_fn && test_function(
                s,
                s.defs[i],
            ) == t,
{
    let told = |d: DefinitionView| test_function(s, d);
    let keep = |x: crate::impact::TestFunctionView| x.opaque;
    let is_test = |d: DefinitionView| d.is_test_fn;
    let all = tests_of(s).map_values(told);
    crate::seqs::filter_members(all, keep, t);
    crate::seqs::map_members(tests_of(s), told, t);
    if all.contains(t) {
        let k = choose|k: int| 0 <= k < tests_of(s).len() && told(#[trigger] tests_of(s)[k]) == t;
        let d = tests_of(s)[k];
        assert(tests_of(s).contains(d));
        crate::seqs::filter_members(s.defs, is_test, d);
        let i = choose|i: int| 0 <= i < s.defs.len() && s.defs[i] == d;
        assert(s.defs[i].is_test_fn && test_function(s, s.defs[i]) == t);
    }
    if exists|i: int|
        0 <= i < s.defs.len() && (#[trigger] s.defs[i]).is_test_fn && test_function(s, s.defs[i])
            == t {
        let i = choose|i: int|
            0 <= i < s.defs.len() && (#[trigger] s.defs[i]).is_test_fn && test_function(
                s,
                s.defs[i],
            ) == t;
        assert(s.defs.contains(s.defs[i]));
        crate::seqs::filter_members(s.defs, is_test, s.defs[i]);
        let k = choose|k: int| 0 <= k < tests_of(s).len() && tests_of(s)[k] == s.defs[i];
        assert(told(tests_of(s)[k]) == t);
        assert(all[k] == t);
    }
}

/// The graph that may accuse is the one without guesses from tests.
pub proof fn graphs_are_told_apart(s: ScanView)
    ensures
        crate::findings::calls_in(s, crate::scan::Graph::Accusable) == s.edges,
        crate::findings::calls_in(s, crate::scan::Graph::Everything) == s.all_edges,
{
}

/// An answer names what changed, the tests that must run for it, and how many
/// tests there are.
pub proof fn answers_name_the_tests_to_run(
    s: ScanView,
    symbols: Seq<Seq<char>>,
    files: Seq<Touched>,
    skipped: Seq<Seq<char>>,
    r: crate::changes::Impact,
)
    requires
        crate::changes::answers(s, symbols, files, skipped, r),
    ensures
        crate::text::texts(r.changed@) == crate::order::sorted_set(
            changed_keys(s, symbols, files),
        ),
        crate::text::texts(r.tests@) == crate::order::sorted_set(
            Set::new(|k: Seq<char>| must_run(s, changed_keys(s, symbols, files), k)),
        ),
        crate::text::texts(r.unmapped@) == unmapped_parts(s, symbols, files, skipped),
        r.all_tests == s.defs.filter(|d: DefinitionView| d.is_test_fn).len(),
        r.always <= r.all_tests,
{
    let told = |d: DefinitionView| test_function(s, d);
    let all = tests_of(s).map_values(told);
    fewer_are_kept(all, |t: crate::impact::TestFunctionView| t.opaque);
}

proof fn fewer_are_kept<T>(s: Seq<T>, p: spec_fn(T) -> bool)
    ensures
        s.filter(p).len() <= s.len(),
    decreases s.len(),
{
    reveal(Seq::filter);
    if s.len() > 0 {
        fewer_are_kept(s.drop_last(), p);
    }
}

} // verus!
