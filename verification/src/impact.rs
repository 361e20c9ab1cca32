//! Which tests a change calls for.

use vstd::prelude::*;

use crate::graph::reach;
use crate::graph::reaches;
use crate::graph::reversed;
use crate::ir::views;
use crate::ir::Definition;
use crate::ir::DefinitionView;
use crate::names::NameSet;
use crate::order::sort_texts;
use crate::order::sorted_set;
use crate::scan::Scan;
use crate::scan::ScanView;
use crate::text::cat2;
use crate::text::chars_of;
use crate::text::ends;
use crate::text::ends_with;
use crate::text::same;
use crate::text::texts;

verus! {

/// The keys of definitions that cross a boundary which no call edge crosses.
pub open spec fn boundary(s: ScanView) -> Set<Seq<char>> {
    Set::new(
        |k: Seq<char>|
            exists|i: int|
                0 <= i < s.defs.len() && (#[trigger] s.defs[i]).opaque && s.defs[i].key() == k,
    )
}

/// A chain of calls, guessed ones among them, leads from `key` into `goal`.
pub open spec fn arrives(s: ScanView, key: Seq<char>, goal: Set<Seq<char>>) -> bool {
    exists|x: Seq<char>| #[trigger] goal.contains(x) && reaches(s.all_edges, set![key], x)
}

/// What a test function is.
#[verifier::ext_equal]
pub struct TestFunctionView {
    pub key: Seq<char>,
    pub file: Seq<char>,
    pub line: nat,
    pub opaque: bool,
}

/// A test of the project.
#[derive(Debug)]
pub struct TestFunction {
    pub key: String,
    pub file: String,
    pub line: usize,
    /// It runs code through a boundary that no call edge crosses, itself or
    /// through a helper: what it exercises cannot be known.
    pub opaque: bool,
}

impl View for TestFunction {
    type V = TestFunctionView;

    open spec fn view(&self) -> TestFunctionView {
        TestFunctionView {
            key: self.key@,
            file: self.file@,
            line: self.line as nat,
            opaque: self.opaque,
        }
    }
}

pub open spec fn test_function(s: ScanView, d: DefinitionView) -> TestFunctionView {
    TestFunctionView {
        key: d.key(),
        file: d.file,
        line: d.line,
        opaque: arrives(s, d.key(), boundary(s)),
    }
}

/// The tests among the definitions.
pub open spec fn tests_of(s: ScanView) -> Seq<DefinitionView> {
    s.defs.filter(|d: DefinitionView| d.is_test_fn)
}

/// The key is that of a test that must run when `changed` changes: it reaches
/// the change, or what it reaches cannot be known.
pub open spec fn must_run(s: ScanView, changed: Set<Seq<char>>, key: Seq<char>) -> bool {
    &&& exists|i: int| 0 <= i < s.defs.len() && (#[trigger] s.defs[i]).is_test_fn && s.defs[i].key()
        == key
    &&& arrives(s, key, changed) || arrives(s, key, boundary(s))
}

/// The keys of all definitions that cross a boundary.
fn boundary_keys(scan: &Scan) -> (r: NameSet)
    ensures
        r@ == boundary(scan@),
{
    let ghost s = scan@;
    let mut r = NameSet::new();
    let mut i: usize = 0;
    while i < scan.defs.len()
        invariant
            0 <= i <= scan.defs@.len(),
            s == scan@,
            forall|k: Seq<char>| #[trigger]
                r@.contains(k) == exists|j: int|
                    0 <= j < i && (#[trigger] s.defs[j]).opaque && s.defs[j].key() == k,
        decreases scan.defs@.len() - i,
    {
        let d = &scan.defs[i];
        let ghost before = r@;
        assert(s.defs[i as int] == d@);
        if d.opaque {
            r.insert(d.key().as_str());
        }
        proof {
            assert forall|k: Seq<char>| #[trigger]
                r@.contains(k) == exists|j: int|
                    0 <= j < i + 1 && (#[trigger] s.defs[j]).opaque && s.defs[j].key() == k by {
                if before.contains(k) {
                    let j = choose|j: int|
                        0 <= j < i && (#[trigger] s.defs[j]).opaque && s.defs[j].key() == k;
                    assert(s.defs[j].opaque);
                }
                if r@.contains(k) && !before.contains(k) {
                    assert(s.defs[i as int].opaque);
                }
            }
        }
        i += 1;
    }
    assert(r@ =~= boundary(s));
    r
}

/// All that leads into `goal`.
fn leading_to(scan: &Scan, goal: &NameSet) -> (r: NameSet)
    ensures
        forall|k: Seq<char>| #[trigger] r@.contains(k) == arrives(scan@, k, goal@),
{
    let r = scan.all_edges.turned().reach_from(goal);
    proof {
        let calls = scan@.all_edges;
        let back = reversed(calls);
        assert forall|k: Seq<char>| #[trigger] r@.contains(k) == arrives(scan@, k, goal@) by {
            crate::graph::reach_from_one(back, goal@, k);
            if reaches(back, goal@, k) {
                let a = choose|a: Seq<char>| #[trigger]
                    goal@.contains(a) && reaches(back, set![a], k);
                crate::graph::reach_reversed(calls, k, a);
                assert(goal@.contains(a) && reaches(calls, set![k], a));
            }
            if arrives(scan@, k, goal@) {
                let x = choose|x: Seq<char>| #[trigger]
                    goal@.contains(x) && reaches(calls, set![k], x);
                crate::graph::reach_reversed(calls, k, x);
                assert(goal@.contains(x) && reaches(back, set![x], k));
            }
        }
    }
    r
}

/// The tests of the project, each with whether it always has to run.
pub fn test_functions(scan: &Scan) -> (r: Vec<TestFunction>)
    ensures
        views(r@) == tests_of(scan@).map_values(|d: DefinitionView| test_function(scan@, d)),
{
    let ghost s = scan@;
    let ghost is_test = |d: DefinitionView| d.is_test_fn;
    let ghost told = |d: DefinitionView| test_function(s, d);
    let blind = leading_to(scan, &boundary_keys(scan));
    let mut r: Vec<TestFunction> = Vec::new();
    let mut i: usize = 0;
    proof {
        reveal(Seq::filter);
        assert(views(r@) =~= s.defs.take(0).filter(is_test).map_values(told));
    }
    while i < scan.defs.len()
        invariant
            0 <= i <= scan.defs@.len(),
            s == scan@,
            is_test == (|d: DefinitionView| d.is_test_fn),
            told == (|d: DefinitionView| test_function(s, d)),
            forall|k: Seq<char>| #[trigger] blind@.contains(k) == arrives(s, k, boundary(s)),
            views(r@) == s.defs.take(i as int).filter(is_test).map_values(told),
        decreases scan.defs@.len() - i,
    {
        let d = &scan.defs[i];
        proof {
            assert(s.defs[i as int] == d@);
            crate::seqs::filter_step(s.defs, is_test, i as int);
        }
        if d.is_test_fn {
            let key = d.key();
            let opaque = blind.contains(key.as_str());
            let t = TestFunction { key, file: d.file.clone(), line: d.line, opaque };
            proof {
                crate::seqs::map_push(s.defs.take(i as int).filter(is_test), told, d@);
                crate::seqs::map_push(r@, |x: TestFunction| x@, t);
            }
            r.push(t);
        }
        i += 1;
    }
    assert(s.defs.take(s.defs.len() as int) =~= s.defs);
    r
}

/// The tests that a change of `changed` calls for, by key in order. A test
/// that crosses a process boundary is always among them.
pub fn tests_reaching(scan: &Scan, changed: &NameSet) -> (r: Vec<String>)
    ensures
        texts(r@) == sorted_set(
            Set::new(|k: Seq<char>| must_run(scan@, changed@, k)),
        ),
        forall|k: Seq<char>| #[trigger] texts(r@).contains(k) == must_run(scan@, changed@, k),
{
    let ghost s = scan@;
    let near = leading_to(scan, changed);
    let blind = leading_to(scan, &boundary_keys(scan));
    let mut found: Vec<String> = Vec::new();
    let mut i: usize = 0;
    while i < scan.defs.len()
        invariant
            0 <= i <= scan.defs@.len(),
            s == scan@,
            forall|k: Seq<char>| #[trigger] near@.contains(k) == arrives(s, k, changed@),
            forall|k: Seq<char>| #[trigger] blind@.contains(k) == arrives(s, k, boundary(s)),
            forall|k: Seq<char>| #[trigger]
                texts(found@).contains(k) == ((arrives(s, k, changed@) || arrives(
                    s,
                    k,
                    boundary(s),
                )) && exists|j: int|
                    0 <= j < i && (#[trigger] s.defs[j]).is_test_fn && s.defs[j].key() == k),
        decreases scan.defs@.len() - i,
    {
        let d = &scan.defs[i];
        let ghost before = texts(found@);
        assert(s.defs[i as int] == d@);
        if d.is_test_fn {
            let key = d.key();
            if near.contains(key.as_str()) || blind.contains(key.as_str()) {
                found.push(key);
                assert(texts(found@) =~= before.push(key@));
            }
        }
        proof {
            assert forall|k: Seq<char>| #[trigger]
                texts(found@).contains(k) == ((arrives(s, k, changed@) || arrives(
                    s,
                    k,
                    boundary(s),
                )) && exists|j: int|
                    0 <= j < i + 1 && (#[trigger] s.defs[j]).is_test_fn && s.defs[j].key() == k) by {
                crate::seqs::pushed_members(before, d@.key(), k);
                if before.contains(k) {
                    let j = choose|j: int|
                        0 <= j < i && (#[trigger] s.defs[j]).is_test_fn && s.defs[j].key() == k;
                    assert(s.defs[j].is_test_fn);
                }
                if d.is_test_fn && d@.key() == k {
                    assert(s.defs[i as int].is_test_fn);
                }
            }
        }
        i += 1;
    }
    let ghost chosen = Set::new(|k: Seq<char>| must_run(s, changed@, k));
    assert(texts(found@).to_set() =~= chosen);
    let r = sort_texts(found);
    proof {
        assert forall|k: Seq<char>| #[trigger]
            texts(r@).contains(k) == must_run(s, changed@, k) by {
            assert(texts(r@).to_set().contains(k) == chosen.contains(k));
        }
    }
    r
}

/// `told` is the path `file`, or the end of it from some directory on.
pub open spec fn tells(told: Seq<char>, file: Seq<char>) -> bool {
    file == told || ends(file, "/"@ + told)
}

/// The `i`th definition stands in the file that `file` tells and is the last
/// there that starts at or before `line`.
pub open spec fn encloses(
    defs: Seq<DefinitionView>,
    file: Seq<char>,
    line: nat,
    i: int,
) -> bool {
    &&& 0 <= i < defs.len()
    &&& tells(file, defs[i].file)
    &&& defs[i].line <= line
    &&& forall|j: int|
        0 <= j < defs.len() && (#[trigger] defs[j]).file == defs[i].file && defs[j].line <= line
            ==> defs[j].line <= defs[i].line
}

/// The key is that of a definition that encloses one of the lines.
pub open spec fn key_at(
    defs: Seq<DefinitionView>,
    file: Seq<char>,
    lines: Seq<usize>,
    key: Seq<char>,
) -> bool {
    exists|i: int, n: int|
        0 <= n < lines.len() && #[trigger] encloses(
            defs,
            file,
            #[trigger] lines[n] as nat,
            i,
        ) && defs[i].key() == key
}

/// Whether no other definition of its file starts between the `at`th one and
/// `line`.
fn is_last_before(defs: &Vec<Definition>, at: usize, line: usize) -> (r: bool)
    requires
        at < defs@.len(),
    ensures
        r == forall|j: int|
            0 <= j < defs@.len() && (#[trigger] views(defs@)[j]).file == views(
                defs@,
            )[at as int].file && views(defs@)[j].line <= line ==> views(defs@)[j].line <= views(
                defs@,
            )[at as int].line,
{
    let ghost all = views(defs@);
    let file = defs[at].file.as_str();
    let start = defs[at].line;
    let mut i: usize = 0;
    assert(all[at as int] == defs@[at as int]@);
    while i < defs.len()
        invariant
            0 <= i <= defs@.len(),
            at < defs@.len(),
            all == views(defs@),
            file@ == all[at as int].file,
            start as nat == all[at as int].line,
            forall|j: int|
                0 <= j < i && (#[trigger] all[j]).file == file@ && all[j].line <= line
                    ==> all[j].line <= start,
        decreases defs@.len() - i,
    {
        assert(all[i as int] == defs@[i as int]@);
        if defs[i].line <= line && defs[i].line > start && same(defs[i].file.as_str(), file) {
            return false;
        }
        i += 1;
    }
    true
}

fn is_told(told: &str, file: &str) -> (r: bool)
    ensures
        r == tells(told@, file@),
{
    let tail = cat2("/", told);
    let c = chars_of(file);
    same(file, told) || ends_with(&c, tail.as_str())
}

/// The keys of the definitions that enclose the given lines of a file. Where
/// several files end in the path, those of each.
pub fn defs_at(scan: &Scan, file: &str, lines: &Vec<usize>) -> (r: NameSet)
    ensures
        forall|k: Seq<char>| #[trigger] r@.contains(k) == key_at(scan@.defs, file@, lines@, k),
{
    let ghost all = scan@.defs;
    let mut r = NameSet::new();
    let mut n: usize = 0;
    while n < lines.len()
        invariant
            0 <= n <= lines@.len(),
            all == scan@.defs,
            forall|k: Seq<char>| #[trigger]
                r@.contains(k) == key_at(all, file@, lines@.take(n as int), k),
        decreases lines@.len() - n,
    {
        let line = lines[n];
        let ghost before = r@;
        let mut i: usize = 0;
        while i < scan.defs.len()
            invariant
                0 <= i <= scan.defs@.len(),
                all == scan@.defs,
                forall|k: Seq<char>| #[trigger]
                    r@.contains(k) == (before.contains(k) || exists|j: int|
                        j < i && #[trigger] encloses(all, file@, line as nat, j) && all[j].key()
                            == k),
            decreases scan.defs@.len() - i,
        {
            let d = &scan.defs[i];
            let ghost so_far = r@;
            proof {
                assert(all[i as int] == d@);
            }
            let here: bool = d.line <= line && is_told(file, d.file.as_str()) && is_last_before(
                &scan.defs,
                i,
                line,
            );
            if here {
                r.insert(d.key().as_str());
            }
            proof {
                assert(here == encloses(all, file@, line as nat, i as int));
                assert forall|k: Seq<char>| #[trigger]
                    r@.contains(k) == (before.contains(k) || exists|j: int|
                        j < i + 1 && #[trigger] encloses(all, file@, line as nat, j)
                            && all[j].key() == k) by {
                    if so_far.contains(k) && !before.contains(k) {
                        let j = choose|j: int|
                            j < i && #[trigger] encloses(all, file@, line as nat, j)
                                && all[j].key() == k;
                        assert(encloses(all, file@, line as nat, j));
                    }
                }
            }
            i += 1;
        }
        proof {
            let short = lines@.take(n as int);
            let long = lines@.take(n + 1);
            assert(long =~= short.push(line));
            assert forall|k: Seq<char>| #[trigger] r@.contains(k) == key_at(all, file@, long, k) by {
                if key_at(all, file@, short, k) {
                    let (i, m) = choose|i: int, m: int|
                        0 <= m < short.len() && #[trigger] encloses(
                            all,
                            file@,
                            #[trigger] short[m] as nat,
                            i,
                        ) && all[i].key() == k;
                    assert(encloses(all, file@, long[m] as nat, i));
                }
                if key_at(all, file@, long, k) {
                    let (i, m) = choose|i: int, m: int|
                        0 <= m < long.len() && #[trigger] encloses(
                            all,
                            file@,
                            #[trigger] long[m] as nat,
                            i,
                        ) && all[i].key() == k;
                    if m < n {
                        assert(encloses(all, file@, short[m] as nat, i));
                    } else {
                        assert(encloses(all, file@, line as nat, i));
                    }
                }
                if exists|j: int|
                    j < scan.defs@.len() && #[trigger] encloses(all, file@, line as nat, j)
                        && all[j].key() == k {
                    let j = choose|j: int|
                        j < scan.defs@.len() && #[trigger] encloses(all, file@, line as nat, j)
                            && all[j].key() == k;
                    assert(encloses(all, file@, long[n as int] as nat, j));
                }
            }
        }
        n += 1;
    }
    assert(lines@.take(lines@.len() as int) =~= lines@);
    r
}

// ---------------------------------------------------------------------------
// What holds of every selection
// ---------------------------------------------------------------------------

/// Whatever changes, a test that crosses a boundary has to run.
pub proof fn boundary_tests_always_run(s: ScanView, changed: Set<Seq<char>>, i: int)
    requires
        0 <= i < s.defs.len(),
        s.defs[i].is_test_fn,
        arrives(s, s.defs[i].key(), boundary(s)),
    ensures
        must_run(s, changed, s.defs[i].key()),
{
}

/// Crossing a boundary is handed up from a helper to all that call it.
pub proof fn opacity_travels_up(s: ScanView, a: Seq<char>, b: Seq<char>)
    requires
        s.all_edges.contains((a, b)),
        arrives(s, b, boundary(s)),
    ensures
        arrives(s, a, boundary(s)),
{
    let x = choose|x: Seq<char>| #[trigger]
        boundary(s).contains(x) && reaches(s.all_edges, set![b], x);
    crate::graph::roots_are_reached(s.all_edges, set![a], a);
    crate::graph::reach_follows(s.all_edges, set![a], a, b);
    let from_a = reach(s.all_edges, set![a]);
    assert forall|p: Seq<char>, q: Seq<char>|
        from_a.contains(p) && #[trigger] s.all_edges.contains((p, q)) implies from_a.contains(
        q,
    ) by {
        crate::graph::reach_follows(s.all_edges, set![a], p, q);
    }
    crate::graph::reach_is_least(s.all_edges, set![b], from_a, x);
    assert(boundary(s).contains(x) && reaches(s.all_edges, set![a], x));
}

/// A larger change calls for no fewer tests.
pub proof fn larger_changes_run_more(
    s: ScanView,
    some: Set<Seq<char>>,
    more: Set<Seq<char>>,
    key: Seq<char>,
)
    requires
        some.subset_of(more),
        must_run(s, some, key),
    ensures
        must_run(s, more, key),
{
    if arrives(s, key, some) {
        let x = choose|x: Seq<char>| #[trigger]
            some.contains(x) && reaches(s.all_edges, set![key], x);
        assert(more.contains(x) && reaches(s.all_edges, set![key], x));
    }
}

} // verus!
