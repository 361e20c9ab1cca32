//! Functions that shipped and that nothing but tests can reach.

use vstd::prelude::*;

use crate::config::any_fits;
use crate::config::glob;
use crate::config::ConfigView;
use crate::graph::reach;
use crate::graph::Call;
use crate::ir::views;
use crate::ir::Definition;
use crate::ir::DefinitionView;
use crate::ir::EdgeView;
use crate::ir::TEST_MODULE_ROOT;
use crate::names::NameMap;
use crate::names::NameSet;
use crate::order::arrange;
use crate::order::arranged;
use crate::order::Precedence;
use crate::scan::a_token_only_guesses;
use crate::scan::calls_from;
use crate::scan::calls_without_guesses;
use crate::scan::guesses_from;
use crate::scan::sites;
use crate::scan::sites_from;
use crate::scan::Graph;
use crate::scan::Scan;
use crate::scan::ScanView;
use crate::seqs::filter_step;
use crate::text::copy_all;
use crate::text::same;
use crate::text::texts;

verus! {

// ---------------------------------------------------------------------------
// What a finding is
// ---------------------------------------------------------------------------

/// How far a finding is to be trusted.
#[derive(Debug, Clone, Copy, PartialEq, Eq, Structural)]
pub enum Confidence {
    /// No production caller exists anywhere.
    High,
    /// Production callers exist, but each of them looks unreachable too: a
    /// dead subsystem, or a chain that the analysis failed to follow.
    Medium,
}

/// What a finding says.
#[verifier::ext_equal]
pub struct FindingView {
    pub name: Seq<char>,
    pub file: Seq<char>,
    pub line: nat,
    pub test_calls: nat,
    pub examples: Seq<Seq<char>>,
    pub confidence: Confidence,
    pub prod_calls: nat,
}

#[derive(Debug)]
pub struct Finding {
    pub name: String,
    pub file: String,
    pub line: usize,
    pub test_calls: usize,
    pub examples: Vec<String>,
    pub confidence: Confidence,
    /// Production call sites. Any means medium confidence.
    pub prod_calls: usize,
}

impl View for Finding {
    type V = FindingView;

    open spec fn view(&self) -> FindingView {
        FindingView {
            name: self.name@,
            file: self.file@,
            line: self.line as nat,
            test_calls: self.test_calls as nat,
            examples: texts(self.examples@),
            confidence: self.confidence,
            prod_calls: self.prod_calls as nat,
        }
    }
}

impl Finding {
    pub fn copy(&self) -> (r: Self)
        ensures
            r@ == self@,
    {
        Finding {
            name: self.name.clone(),
            file: self.file.clone(),
            line: self.line,
            test_calls: self.test_calls,
            examples: copy_all(&self.examples),
            confidence: self.confidence,
            prod_calls: self.prod_calls,
        }
    }
}

/// The finding that accuses a definition.
pub open spec fn finding_of(s: ScanView, d: DefinitionView) -> FindingView {
    let c = sites(s, d.key());
    FindingView {
        name: d.key(),
        file: d.file,
        line: d.line,
        test_calls: c.test,
        examples: c.examples,
        confidence: if c.prod == 0 {
            Confidence::High
        } else {
            Confidence::Medium
        },
        prod_calls: c.prod,
    }
}

/// Most test calls first.
pub open spec fn by_test_calls() -> spec_fn(FindingView, FindingView) -> bool {
    |a: FindingView, b: FindingView| a.test_calls > b.test_calls
}

/// Most test calls first.
pub struct ByTestCalls;

impl Precedence<Finding> for ByTestCalls {
    open spec fn ahead(&self, a: Finding, b: Finding) -> bool {
        a.test_calls > b.test_calls
    }

    fn goes_ahead(&self, a: &Finding, b: &Finding) -> (r: bool) {
        a.test_calls > b.test_calls
    }
}

fn most_called_first(found: Vec<Finding>) -> (r: Vec<Finding>)
    ensures
        views(r@) == arranged(views(found@), by_test_calls()),
{
    let r = arrange(found, &ByTestCalls);
    proof {
        crate::seqs::arranged_maps(
            found@,
            |x: Finding| x@,
            |a: Finding, b: Finding| ByTestCalls.ahead(a, b),
            by_test_calls(),
        );
    }
    r
}

// ---------------------------------------------------------------------------
// Names that are never judged
// ---------------------------------------------------------------------------

/// Names that are always reachable, or that nothing refers to by convention.
pub open spec fn always_live(name: Seq<char>) -> bool {
    ||| name == "main"@
    ||| name == "new"@
    ||| name == "default"@
    ||| name == "fmt"@
    ||| name == "from"@
    ||| name == "from_str"@
    ||| name == "try_from"@
    ||| name == "drop"@
    ||| name == "clone"@
    ||| name == "next"@
    ||| name == "poll"@
    ||| name == "deref"@
    ||| name == "deref_mut"@
    ||| name == "eq"@
    ||| name == "ne"@
    ||| name == "hash"@
    ||| name == "cmp"@
    ||| name == "partial_cmp"@
    ||| name == "serialize"@
    ||| name == "deserialize"@
    ||| name == "into"@
    ||| name == "as_ref"@
    ||| name == "borrow"@
}

/// Whether a name is always reachable by convention.
pub fn is_always_live(name: &str) -> (r: bool)
    ensures
        r == always_live(name@),
{
    same(name, "main") || same(name, "new") || same(name, "default") || same(name, "fmt") || same(
        name,
        "from",
    ) || same(name, "from_str") || same(name, "try_from") || same(name, "drop") || same(
        name,
        "clone",
    ) || same(name, "next") || same(name, "poll") || same(name, "deref") || same(name, "deref_mut")
        || same(name, "eq") || same(name, "ne") || same(name, "hash") || same(name, "cmp") || same(
        name,
        "partial_cmp",
    ) || same(name, "serialize") || same(name, "deserialize") || same(name, "into") || same(
        name,
        "as_ref",
    ) || same(name, "borrow")
}

/// How many definitions outside test code have the key.
pub open spec fn key_count(defs: Seq<DefinitionView>, key: Seq<char>) -> nat
    decreases defs.len(),
{
    if defs.len() == 0 {
        0
    } else {
        key_count(defs.drop_last(), key) + if defs.last().key() == key && !defs.last().in_test {
            1nat
        } else {
            0nat
        }
    }
}

/// The key does not tell production definitions apart, so nothing can be said
/// of any of them.
pub open spec fn ambiguous(s: ScanView, key: Seq<char>) -> bool {
    key_count(s.defs, key) > 1
}

proof fn key_count_bounded(defs: Seq<DefinitionView>, key: Seq<char>)
    ensures
        key_count(defs, key) <= defs.len(),
    decreases defs.len(),
{
    if defs.len() > 0 {
        key_count_bounded(defs.drop_last(), key);
    }
}

/// How many production definitions each key has.
pub struct KeyCounts {
    counts: NameMap<usize>,
}

impl KeyCounts {
    pub closed spec fn count(&self, key: Seq<char>) -> nat {
        if self.counts@.contains_key(key) {
            self.counts@[key] as nat
        } else {
            0
        }
    }

    pub fn of(defs: &Vec<Definition>) -> (r: Self)
        ensures
            forall|k: Seq<char>| #[trigger] r.count(k) == key_count(views(defs@), k),
    {
        let ghost all = views(defs@);
        let mut r = KeyCounts { counts: NameMap::new() };
        let mut i: usize = 0;
        while i < defs.len()
            invariant
                0 <= i <= defs@.len(),
                all == views(defs@),
                forall|k: Seq<char>| #[trigger] r.count(k) == key_count(all.take(i as int), k),
            decreases defs@.len() - i,
        {
            proof {
                assert(all.take(i + 1).drop_last() =~= all.take(i as int));
                assert(all.take(i + 1).last() == defs@[i as int]@);
            }
            if !defs[i].in_test {
                let key = defs[i].key();
                let ghost before = r;
                let n: usize = match r.counts.get(key.as_str()) {
                    Some(n) => *n,
                    None => 0,
                };
                proof {
                    assert(n == before.count(key@));
                    key_count_bounded(all.take(i as int), key@);
                }
                r.counts.exchange(key.as_str(), n + 1);
                proof {
                    assert forall|k: Seq<char>| #[trigger]
                        r.count(k) == key_count(all.take(i + 1), k) by {
                        assert(before.count(k) == key_count(all.take(i as int), k));
                    }
                }
            } else {
                proof {
                    assert forall|k: Seq<char>| #[trigger]
                        r.count(k) == key_count(all.take(i + 1), k) by {
                        assert(r.count(k) == key_count(all.take(i as int), k));
                    }
                }
            }
            i += 1;
        }
        assert(all.take(all.len() as int) =~= all);
        r
    }

    pub fn get(&self, key: &str) -> (r: usize)
        ensures
            r as nat == self.count(key@),
    {
        match self.counts.get(key) {
            Some(n) => *n,
            None => 0,
        }
    }
}

/// The sum over the definitions outside test code of those that `p` holds of.
pub open spec fn production_count(defs: Seq<DefinitionView>, p: spec_fn(Seq<char>) -> bool) -> nat
    decreases defs.len(),
{
    if defs.len() == 0 {
        0
    } else {
        production_count(defs.drop_last(), p) + if !defs.last().in_test && p(defs.last().key()) {
            1nat
        } else {
            0nat
        }
    }
}

/// How much of the code cannot be judged: how many production definitions
/// share their key with another, and how many there are.
pub fn ambiguity_report(scan: &Scan) -> (r: (usize, usize))
    ensures
        r.0 as nat == production_count(scan@.defs, |k: Seq<char>| ambiguous(scan@, k)),
        r.1 as nat == production_count(scan@.defs, |k: Seq<char>| true),
{
    let counts = KeyCounts::of(&scan.defs);
    let ghost all = scan@.defs;
    let ghost unclear = |k: Seq<char>| ambiguous(scan@, k);
    let ghost every = |k: Seq<char>| true;
    let mut shared: usize = 0;
    let mut total: usize = 0;
    let mut i: usize = 0;
    while i < scan.defs.len()
        invariant
            0 <= i <= scan.defs@.len(),
            all == scan@.defs,
            unclear == (|k: Seq<char>| ambiguous(scan@, k)),
            every == (|k: Seq<char>| true),
            forall|k: Seq<char>| #[trigger] counts.count(k) == key_count(all, k),
            shared as nat == production_count(all.take(i as int), unclear),
            total as nat == production_count(all.take(i as int), every),
            shared <= i,
            total <= i,
        decreases scan.defs@.len() - i,
    {
        proof {
            assert(all.take(i + 1).drop_last() =~= all.take(i as int));
            assert(all.take(i + 1).last() == scan.defs@[i as int]@);
        }
        if !scan.defs[i].in_test {
            total += 1;
            if counts.get(scan.defs[i].key().as_str()) > 1 {
                shared += 1;
            }
        }
        i += 1;
    }
    assert(all.take(all.len() as int) =~= all);
    (shared, total)
}

// ---------------------------------------------------------------------------
// The direct check: no production caller, some test caller
// ---------------------------------------------------------------------------

/// The definition is never accused, whoever calls it.
pub open spec fn exempt(s: ScanView, d: DefinitionView) -> bool {
    ||| d.in_test
    ||| d.trait_impl
    ||| d.allowed_dead
    ||| always_live(d.id.name)
    ||| s.reexported.contains(d.id.name)
    ||| any_fits(s.config.ignore, d.id.name)
    ||| ambiguous(s, d.key())
}

/// Whether the definition is never accused.
fn is_exempt(scan: &Scan, d: &Definition, counts: &KeyCounts) -> (r: bool)
    requires
        forall|k: Seq<char>| #[trigger] counts.count(k) == key_count(scan@.defs, k),
    ensures
        r == exempt(scan@, d@),
{
    d.in_test || d.trait_impl || d.allowed_dead || is_always_live(d.name())
        || scan.reexported.contains(d.name()) || scan.config.is_ignored(d.name()) || counts.get(
        d.key().as_str(),
    ) > 1
}

/// Tests call it, production code does not, and nothing enters there.
pub open spec fn test_only(s: ScanView, d: DefinitionView) -> bool {
    !exempt(s, d) && !roots_production(s, d) && sites(s, d.key()).prod == 0 && sites(
        s,
        d.key(),
    ).test > 0
}

/// What `never_run` reports.
pub open spec fn directly_dead(s: ScanView) -> Seq<FindingView> {
    arranged(
        s.defs.filter(|d: DefinitionView| test_only(s, d)).map_values(
            |d: DefinitionView| finding_of(s, d),
        ),
        by_test_calls(),
    )
}

/// The finding that accuses a definition.
fn accuse(scan: &Scan, d: &Definition) -> (r: Finding)
    ensures
        r@ == finding_of(scan@, d@),
{
    let key = d.key();
    match scan.calls.get(key.as_str()) {
        Some(c) => Finding {
            name: key,
            file: d.file.clone(),
            line: d.line,
            test_calls: c.test,
            examples: copy_all(&c.examples),
            confidence: if c.prod == 0 {
                Confidence::High
            } else {
                Confidence::Medium
            },
            prod_calls: c.prod,
        },
        None => {
            let r = Finding {
                name: key,
                file: d.file.clone(),
                line: d.line,
                test_calls: 0,
                examples: Vec::new(),
                confidence: Confidence::High,
                prod_calls: 0,
            };
            assert(r@ =~= finding_of(scan@, d@));
            r
        },
    }
}

/// Production functions whose only callers are tests: they shipped, but
/// nothing runs them.
pub fn never_run(scan: &Scan) -> (r: Vec<Finding>)
    ensures
        views(r@) == directly_dead(scan@),
{
    let ghost all = scan@.defs;
    let ghost dead = |d: DefinitionView| test_only(scan@, d);
    let ghost told = |d: DefinitionView| finding_of(scan@, d);
    let counts = KeyCounts::of(&scan.defs);
    let mut out: Vec<Finding> = Vec::new();
    let mut i: usize = 0;
    proof {
        reveal(Seq::filter);
        assert(views(out@) =~= all.take(0).filter(dead).map_values(told));
    }
    while i < scan.defs.len()
        invariant
            0 <= i <= scan.defs@.len(),
            all == scan@.defs,
            dead == (|d: DefinitionView| test_only(scan@, d)),
            told == (|d: DefinitionView| finding_of(scan@, d)),
            forall|k: Seq<char>| #[trigger] counts.count(k) == key_count(all, k),
            views(out@) == all.take(i as int).filter(dead).map_values(told),
        decreases scan.defs@.len() - i,
    {
        let d = &scan.defs[i];
        proof {
            assert(all[i as int] == d@);
            filter_step(all, dead, i as int);
        }
        if !is_exempt(scan, d, &counts) && !is_production_root(scan, d) {
            let f = accuse(scan, d);
            if f.prod_calls == 0 && f.test_calls > 0 {
                proof {
                    crate::seqs::map_push(all.take(i as int).filter(dead), told, d@);
                    crate::seqs::map_push(out@, |x: Finding| x@, f);
                }
                out.push(f);
            }
        }
        i += 1;
    }
    assert(all.take(all.len() as int) =~= all);
    most_called_first(out)
}

// ---------------------------------------------------------------------------
// Reachability
// ---------------------------------------------------------------------------

/// The definition can be entered from outside the code at hand. The public
/// surface of a library can, since its consumers are elsewhere; that of an
/// application cannot, since the application is its own consumer.
pub open spec fn entered_from_outside(s: ScanView, d: DefinitionView) -> bool {
    d.is_ffi || d.trait_impl || (!s.application && (d.is_pub || s.reexported.contains(d.id.name)))
}

/// The definition is a production root: declared so by the developer, entered
/// from outside, or exported by a file that a host loads.
pub open spec fn roots_production(s: ScanView, d: DefinitionView) -> bool {
    &&& !d.in_test
    &&& !d.is_test_fn
    &&& any_fits(s.config.roots, d.id.name) || entered_from_outside(s, d) || (d.is_pub
        && s.entry_files.contains(d.file))
}

/// The names that production starts from. The empty name stands for calls
/// made outside any function.
pub open spec fn production_names(s: ScanView) -> Set<Seq<char>> {
    Set::new(
        |k: Seq<char>|
            k == ""@ || k == "main"@ || s.entry_points.contains(k) || exists|i: int|
                0 <= i < s.defs.len() && roots_production(s, #[trigger] s.defs[i]) && s.defs[i].key()
                    == k,
    )
}

/// Whether the definition is a production root.
fn is_production_root(scan: &Scan, d: &Definition) -> (r: bool)
    ensures
        r == roots_production(scan@, d@),
{
    if d.in_test || d.is_test_fn {
        return false;
    }
    let declared = scan.config.is_root(d.name());
    let outside = d.is_ffi || d.trait_impl || (!scan.application && (d.is_pub
        || scan.reexported.contains(d.name())));
    let loaded = d.is_pub && crate::text::lists(&scan.entry_files, d.file.as_str());
    declared || outside || loaded
}

/// The roots of what the running program reaches. Generous: to treat a real
/// entry point as dead would accuse live code.
pub fn production_roots(scan: &Scan) -> (r: NameSet)
    ensures
        r@ == production_names(scan@),
{
    let ghost s = scan@;
    let mut roots = NameSet::of(&scan.entry_points);
    roots.insert("");
    roots.insert("main");
    let ghost fixed = roots@;
    let mut i: usize = 0;
    while i < scan.defs.len()
        invariant
            0 <= i <= scan.defs@.len(),
            s == scan@,
            forall|k: Seq<char>| #[trigger]
                fixed.contains(k) == (k == ""@ || k == "main"@ || s.entry_points.contains(k)),
            forall|k: Seq<char>| #[trigger]
                roots@.contains(k) == (fixed.contains(k) || exists|j: int|
                    0 <= j < i && roots_production(s, #[trigger] s.defs[j]) && s.defs[j].key()
                        == k),
        decreases scan.defs@.len() - i,
    {
        let d = &scan.defs[i];
        let ghost before = roots@;
        assert(s.defs[i as int] == d@);
        if is_production_root(scan, d) {
            roots.insert(d.key().as_str());
        }
        proof {
            assert forall|k: Seq<char>| #[trigger]
                roots@.contains(k) == (fixed.contains(k) || exists|j: int|
                    0 <= j < i + 1 && roots_production(s, #[trigger] s.defs[j]) && s.defs[j].key()
                        == k) by {
                if before.contains(k) && !fixed.contains(k) {
                    let j = choose|j: int|
                        0 <= j < i && roots_production(s, #[trigger] s.defs[j]) && s.defs[j].key()
                            == k;
                    assert(roots_production(s, s.defs[j]));
                }
                if roots@.contains(k) && !before.contains(k) {
                    assert(roots_production(s, s.defs[i as int]));
                }
            }
        }
        i += 1;
    }
    assert(roots@ =~= production_names(s));
    roots
}

/// Whether the scan was of an application, rather than of a library.
pub fn is_application(scan: &Scan) -> (r: bool)
    ensures
        r == scan@.application,
{
    scan.application
}

/// The definition is test code.
pub open spec fn roots_tests(d: DefinitionView) -> bool {
    d.is_test_fn || d.in_test
}

/// The names that tests start from.
pub open spec fn test_names(s: ScanView) -> Set<Seq<char>> {
    Set::new(
        |k: Seq<char>|
            k == TEST_MODULE_ROOT@ || exists|i: int|
                0 <= i < s.defs.len() && roots_tests(#[trigger] s.defs[i]) && s.defs[i].key() == k,
    )
}

/// The roots of what tests reach: every harness function, all that is defined
/// in test code, and the module level of test files.
pub fn test_roots(scan: &Scan) -> (r: NameSet)
    ensures
        r@ == test_names(scan@),
{
    let ghost s = scan@;
    let mut roots = NameSet::new();
    roots.insert(TEST_MODULE_ROOT);
    let mut i: usize = 0;
    while i < scan.defs.len()
        invariant
            0 <= i <= scan.defs@.len(),
            s == scan@,
            forall|k: Seq<char>| #[trigger]
                roots@.contains(k) == (k == TEST_MODULE_ROOT@ || exists|j: int|
                    0 <= j < i && roots_tests(#[trigger] s.defs[j]) && s.defs[j].key() == k),
        decreases scan.defs@.len() - i,
    {
        let d = &scan.defs[i];
        let ghost before = roots@;
        assert(s.defs[i as int] == d@);
        if d.is_test_fn || d.in_test {
            roots.insert(d.key().as_str());
        }
        proof {
            assert forall|k: Seq<char>| #[trigger]
                roots@.contains(k) == (k == TEST_MODULE_ROOT@ || exists|j: int|
                    0 <= j < i + 1 && roots_tests(#[trigger] s.defs[j]) && s.defs[j].key() == k) by {
                if before.contains(k) && k != TEST_MODULE_ROOT@ {
                    let j = choose|j: int|
                        0 <= j < i && roots_tests(#[trigger] s.defs[j]) && s.defs[j].key() == k;
                    assert(roots_tests(s.defs[j]));
                }
                if roots@.contains(k) && !before.contains(k) {
                    assert(roots_tests(s.defs[i as int]));
                }
            }
        }
        i += 1;
    }
    assert(roots@ =~= test_names(s));
    roots
}

/// The calls of one graph.
pub open spec fn calls_in(s: ScanView, graph: Graph) -> Set<Call> {
    match graph {
        Graph::Accusable => s.edges,
        Graph::Everything => s.all_edges,
    }
}

/// Everything that can be reached from `roots` over the calls of `graph`.
pub fn reachable_over(scan: &Scan, roots: &NameSet, graph: Graph) -> (r: NameSet)
    ensures
        r@ == reach(calls_in(scan@, graph), roots@),
{
    match graph {
        Graph::Accusable => scan.edges.reach_from(roots),
        Graph::Everything => scan.all_edges.reach_from(roots),
    }
}

/// Everything that can be reached from `roots`.
pub fn reachable(scan: &Scan, roots: &NameSet) -> (r: NameSet)
    ensures
        r@ == reach(scan@.edges, roots@),
{
    reachable_over(scan, roots, Graph::Accusable)
}

/// What the running program can reach.
pub open spec fn alive(s: ScanView) -> Set<Seq<char>> {
    reach(s.edges, production_names(s))
}

/// What tests can reach, over calls that are no guess: a guess may keep a
/// function out of the report and never bring one in.
pub open spec fn tested(s: ScanView) -> Set<Seq<char>> {
    reach(s.edges.difference(s.guessed), test_names(s))
}

/// What tests can reach, over calls that are no guess.
pub fn reached_by_tests(scan: &Scan) -> (r: NameSet)
    ensures
        r@ == tested(scan@),
{
    scan.edges.without(&scan.guessed).reach_from(&test_roots(scan))
}

/// Tests can reach it and the running program cannot.
pub open spec fn unreachable(s: ScanView, d: DefinitionView) -> bool {
    &&& !exempt(s, d)
    &&& !d.is_test_fn
    &&& !d.is_ffi
    &&& !alive(s).contains(d.key())
    &&& tested(s).contains(d.key())
}

/// What `never_run_graph` reports.
pub open spec fn unreachable_code(s: ScanView) -> Seq<FindingView> {
    arranged(
        s.defs.filter(|d: DefinitionView| unreachable(s, d)).map_values(
            |d: DefinitionView| finding_of(s, d),
        ),
        by_test_calls(),
    )
}

/// Functions that tests can reach but the running program cannot. This finds
/// a whole dead subsystem, not merely its outermost function: a helper that
/// only a dead function calls has a production caller, and is unreachable.
pub fn never_run_graph(scan: &Scan) -> (r: Vec<Finding>)
    ensures
        views(r@) == unreachable_code(scan@),
{
    let prod = reachable(scan, &production_roots(scan));
    let test = reached_by_tests(scan);
    let ghost all = scan@.defs;
    let ghost dead = |d: DefinitionView| unreachable(scan@, d);
    let ghost told = |d: DefinitionView| finding_of(scan@, d);
    let counts = KeyCounts::of(&scan.defs);
    let mut out: Vec<Finding> = Vec::new();
    let mut i: usize = 0;
    proof {
        reveal(Seq::filter);
        assert(views(out@) =~= all.take(0).filter(dead).map_values(told));
    }
    while i < scan.defs.len()
        invariant
            0 <= i <= scan.defs@.len(),
            all == scan@.defs,
            prod@ == alive(scan@),
            test@ == tested(scan@),
            dead == (|d: DefinitionView| unreachable(scan@, d)),
            told == (|d: DefinitionView| finding_of(scan@, d)),
            forall|k: Seq<char>| #[trigger] counts.count(k) == key_count(all, k),
            views(out@) == all.take(i as int).filter(dead).map_values(told),
        decreases scan.defs@.len() - i,
    {
        let d = &scan.defs[i];
        proof {
            assert(all[i as int] == d@);
            filter_step(all, dead, i as int);
        }
        if !d.is_test_fn && !d.is_ffi && !is_exempt(scan, d, &counts) {
            let key = d.key();
            if !prod.contains(key.as_str()) && test.contains(key.as_str()) {
                let f = accuse(scan, d);
                proof {
                    crate::seqs::map_push(all.take(i as int).filter(dead), told, d@);
                    crate::seqs::map_push(out@, |x: Finding| x@, f);
                }
                out.push(f);
            }
        }
        i += 1;
    }
    assert(all.take(all.len() as int) =~= all);
    most_called_first(out)
}

// ---------------------------------------------------------------------------
// What holds of every report
// ---------------------------------------------------------------------------

/// What a report holds comes from the definitions that it accuses, and every
/// one of them is in it.
pub proof fn report_members(
    s: ScanView,
    accused: spec_fn(DefinitionView) -> bool,
    f: FindingView,
)
    ensures
        arranged(
            s.defs.filter(accused).map_values(|d: DefinitionView| finding_of(s, d)),
            by_test_calls(),
        ).contains(f) == exists|i: int|
            0 <= i < s.defs.len() && accused(#[trigger] s.defs[i]) && finding_of(s, s.defs[i]) == f,
{
    let told = |d: DefinitionView| finding_of(s, d);
    let kept = s.defs.filter(accused);
    crate::seqs::arranged_members(kept.map_values(told), by_test_calls(), f);
    crate::seqs::map_members(kept, told, f);
    if exists|i: int| 0 <= i < kept.len() && told(#[trigger] kept[i]) == f {
        let i = choose|i: int| 0 <= i < kept.len() && told(#[trigger] kept[i]) == f;
        assert(kept.contains(kept[i]));
        crate::seqs::filter_members(s.defs, accused, kept[i]);
        let j = choose|j: int| 0 <= j < s.defs.len() && s.defs[j] == kept[i];
        assert(accused(s.defs[j]) && finding_of(s, s.defs[j]) == f);
    }
    if exists|i: int|
        0 <= i < s.defs.len() && accused(#[trigger] s.defs[i]) && finding_of(s, s.defs[i]) == f {
        let i = choose|i: int|
            0 <= i < s.defs.len() && accused(#[trigger] s.defs[i]) && finding_of(s, s.defs[i])
                == f;
        assert(s.defs.contains(s.defs[i]));
        crate::seqs::filter_members(s.defs, accused, s.defs[i]);
        let j = choose|j: int| 0 <= j < kept.len() && kept[j] == s.defs[i];
        assert(told(kept[j]) == f);
    }
}

/// A finding of the graph is out of the program's reach and within that of
/// the tests, and no exempt definition stands behind it.
pub proof fn findings_are_unreachable(s: ScanView, f: FindingView)
    requires
        unreachable_code(s).contains(f),
    ensures
        !alive(s).contains(f.name),
        tested(s).contains(f.name),
        exists|i: int|
            0 <= i < s.defs.len() && !exempt(s, #[trigger] s.defs[i]) && s.defs[i].key() == f.name
                && finding_of(s, s.defs[i]) == f,
{
    report_members(s, |d: DefinitionView| unreachable(s, d), f);
    let i = choose|i: int|
        0 <= i < s.defs.len() && unreachable(s, #[trigger] s.defs[i]) && finding_of(s, s.defs[i])
            == f;
    assert(!exempt(s, s.defs[i]));
}

/// Confidence is high exactly where no production caller exists.
pub proof fn high_means_no_caller(s: ScanView, d: DefinitionView)
    ensures
        (finding_of(s, d).confidence == Confidence::High) == (finding_of(s, d).prod_calls == 0),
        finding_of(s, d).prod_calls == sites(s, d.key()).prod,
{
}

/// A root that the developer declares is live, and so is all that it reaches:
/// none of it is reported.
pub proof fn declared_roots_are_live(s: ScanView, i: int, key: Seq<char>)
    requires
        0 <= i < s.defs.len(),
        !s.defs[i].in_test,
        !s.defs[i].is_test_fn,
        any_fits(s.config.roots, s.defs[i].id.name),
        reach(s.edges, set![s.defs[i].key()]).contains(key),
    ensures
        alive(s).contains(key),
        forall|f: FindingView| #[trigger] unreachable_code(s).contains(f) ==> f.name != key,
{
    assert(roots_production(s, s.defs[i]));
    assert(production_names(s).contains(s.defs[i].key()));
    crate::graph::reach_grows(
        s.edges,
        s.edges,
        set![s.defs[i].key()],
        production_names(s),
    );
    assert(alive(s).contains(key));
    assert forall|f: FindingView| #[trigger] unreachable_code(s).contains(f) implies f.name
        != key by {
        findings_are_unreachable(s, f);
    }
}

/// Why a definition is left alone, whoever calls it.
pub open spec fn left_alone(s: ScanView, d: DefinitionView) -> bool {
    ||| d.in_test
    ||| d.trait_impl
    ||| d.allowed_dead
    ||| any_fits(s.config.ignore, d.id.name)
    ||| s.reexported.contains(d.id.name)
    ||| ambiguous(s, d.key())
    ||| !d.is_test_fn && any_fits(s.config.roots, d.id.name)
    ||| !d.is_test_fn && d.is_ffi
    ||| !d.is_test_fn && d.is_pub && !s.application
}

/// No report speaks of test code, of a method of a trait impl, of what its
/// author allows to be dead, of what the configuration ignores or declares to
/// be a root, of what another language can call, of the public surface of a
/// library, or of a key that several definitions share.
pub proof fn reports_stay_quiet(s: ScanView, f: FindingView)
    requires
        unreachable_code(s).contains(f) || directly_dead(s).contains(f),
    ensures
        exists|i: int|
            0 <= i < s.defs.len() && finding_of(s, #[trigger] s.defs[i]) == f && !left_alone(
                s,
                s.defs[i],
            ),
        !ambiguous(s, f.name),
{
    if unreachable_code(s).contains(f) {
        report_members(s, |d: DefinitionView| unreachable(s, d), f);
        let i = choose|i: int|
            0 <= i < s.defs.len() && unreachable(s, #[trigger] s.defs[i]) && finding_of(
                s,
                s.defs[i],
            ) == f;
        let d = s.defs[i];
        if roots_production(s, d) {
            assert(production_names(s).contains(d.key()));
            crate::graph::roots_are_reached(s.edges, production_names(s), d.key());
        }
        assert(!left_alone(s, d));
    } else {
        report_members(s, |d: DefinitionView| test_only(s, d), f);
        let i = choose|i: int|
            0 <= i < s.defs.len() && test_only(s, #[trigger] s.defs[i]) && finding_of(s, s.defs[i])
                == f;
        assert(!left_alone(s, s.defs[i]));
    }
}

/// A dead subsystem is reported whole: what a reported function calls is
/// reported too, wherever the call is no guess, the program does not reach it
/// and nothing exempts it.
pub proof fn dead_subsystems_are_reported_whole(s: ScanView, f: FindingView, i: int)
    requires
        unreachable_code(s).contains(f),
        0 <= i < s.defs.len(),
        s.edges.contains((f.name, s.defs[i].key())),
        !s.guessed.contains((f.name, s.defs[i].key())),
        !alive(s).contains(s.defs[i].key()),
        !exempt(s, s.defs[i]),
        !s.defs[i].is_test_fn,
        !s.defs[i].is_ffi,
    ensures
        unreachable_code(s).contains(finding_of(s, s.defs[i])),
{
    findings_are_unreachable(s, f);
    crate::graph::reach_follows(
        s.edges.difference(s.guessed),
        test_names(s),
        f.name,
        s.defs[i].key(),
    );
    assert(unreachable(s, s.defs[i]));
    report_members(s, |d: DefinitionView| unreachable(s, d), finding_of(s, s.defs[i]));
}

/// Calls made at the module level of a test file start from a name of their
/// own, which is a root of what tests reach and none of what the program
/// does.
pub proof fn test_modules_are_no_entry(s: ScanView)
    requires
        !s.entry_points.contains(TEST_MODULE_ROOT@),
        forall|i: int| 0 <= i < s.defs.len() ==> (#[trigger] s.defs[i]).key() != TEST_MODULE_ROOT@,
    ensures
        test_names(s).contains(TEST_MODULE_ROOT@),
        !production_names(s).contains(TEST_MODULE_ROOT@),
{
    reveal_strlit("<test module>");
    reveal_strlit("main");
    reveal_strlit("");
    assert(TEST_MODULE_ROOT@.len() == 13);
}

/// Two scans of the same definitions, under the same settings.
pub open spec fn same_project(s: ScanView, t: ScanView) -> bool {
    &&& s.defs == t.defs
    &&& s.reexported == t.reexported
    &&& s.config == t.config
    &&& s.application == t.application
    &&& s.entry_points == t.entry_points
    &&& s.entry_files == t.entry_files
}

/// To see more production calls than there are accuses nobody: the direct
/// check reports no function that it did not report without them.
pub proof fn over_counting_only_silences(s: ScanView, t: ScanView, d: DefinitionView)
    requires
        same_project(s, t),
        forall|k: Seq<char>| #[trigger]
            sites(t, k).prod >= sites(s, k).prod && sites(t, k).test == sites(s, k).test,
    ensures
        test_only(t, d) ==> test_only(s, d),
{
    assert(sites(t, d.key()).prod >= sites(s, d.key()).prod);
    assert(roots_production(t, d) == roots_production(s, d));
    assert(exempt(t, d) == exempt(s, d));
}

/// What the program reaches it still reaches when more calls are seen, so
/// none of it is reported.
pub proof fn live_code_stays_live(s: ScanView, t: ScanView, key: Seq<char>)
    requires
        same_project(s, t),
        s.edges.subset_of(t.edges),
        alive(s).contains(key),
    ensures
        alive(t).contains(key),
        forall|f: FindingView| #[trigger] unreachable_code(t).contains(f) ==> f.name != key,
{
    assert forall|i: int| 0 <= i < s.defs.len() implies roots_production(s, #[trigger] s.defs[i])
        == roots_production(t, t.defs[i]) by {}
    assert(production_names(s).subset_of(production_names(t))) by {
        assert forall|k: Seq<char>| production_names(s).contains(k) implies production_names(
            t,
        ).contains(k) by {
            if !(k == ""@ || k == "main"@ || s.entry_points.contains(k)) {
                let i = choose|i: int|
                    0 <= i < s.defs.len() && roots_production(s, #[trigger] s.defs[i])
                        && s.defs[i].key() == k;
                assert(roots_production(t, t.defs[i]));
            }
        }
    }
    crate::graph::reach_grows(s.edges, t.edges, production_names(s), production_names(t));
    assert forall|f: FindingView| #[trigger] unreachable_code(t).contains(f) implies f.name
        != key by {
        findings_are_unreachable(t, f);
    }
}

/// A guess adds no finding. With one more token of a macro, wherever it stands,
/// neither check reports a definition that it did not report without.
pub proof fn a_token_adds_no_finding(
    s: ScanView,
    t: ScanView,
    edges: Seq<EdgeView>,
    e: EdgeView,
    d: DefinitionView,
)
    requires
        !e.kind.witnessed(),
        same_project(s, t),
        s.edges == calls_from(s.defs, edges, true),
        s.guessed == guesses_from(s.defs, edges),
        forall|k: Seq<char>| #[trigger] sites(s, k) == sites_from(s.defs, edges, k),
        t.edges == calls_from(s.defs, edges.push(e), true),
        t.guessed == guesses_from(s.defs, edges.push(e)),
        forall|k: Seq<char>| #[trigger] sites(t, k) == sites_from(s.defs, edges.push(e), k),
    ensures
        unreachable(t, d) ==> unreachable(s, d),
        test_only(t, d) ==> test_only(s, d),
        forall|f: FindingView| #[trigger]
            unreachable_code(t).contains(f) ==> names_a_finding(unreachable_code(s), f.name),
{
    assert forall|k: Seq<char>| #[trigger]
        sites(t, k).prod >= sites(s, k).prod && sites(t, k).test == sites(s, k).test by {
        a_token_only_guesses(s.defs, edges, e, k);
    }
    over_counting_only_silences(s, t, d);
    a_token_only_guesses(s.defs, edges, e, d.key());
    calls_without_guesses(s.defs, edges);
    calls_without_guesses(s.defs, edges.push(e));
    assert(test_names(t) =~= test_names(s));
    assert(tested(t) == tested(s));
    assert forall|x: DefinitionView| unreachable(t, x) implies unreachable(s, x) by {
        assert(exempt(t, x) == exempt(s, x));
        if alive(s).contains(x.key()) {
            live_code_stays_live(s, t, x.key());
        }
    }
    assert forall|f: FindingView| #[trigger] unreachable_code(t).contains(f) implies names_a_finding(
        unreachable_code(s),
        f.name,
    ) by {
        report_members(t, |x: DefinitionView| unreachable(t, x), f);
        let i = choose|i: int|
            0 <= i < t.defs.len() && unreachable(t, #[trigger] t.defs[i]) && finding_of(
                t,
                t.defs[i],
            ) == f;
        let g = finding_of(s, s.defs[i]);
        assert(unreachable(s, s.defs[i]));
        report_members(s, |x: DefinitionView| unreachable(s, x), g);
        assert(unreachable_code(s).contains(g));
        let k = choose|k: int| 0 <= k < unreachable_code(s).len() && unreachable_code(s)[k] == g;
        assert(unreachable_code(s)[k].name == f.name);
    }
}

/// Some finding has the name.
pub open spec fn names_a_finding(found: Seq<FindingView>, name: Seq<char>) -> bool {
    exists|k: int| 0 <= k < found.len() && (#[trigger] found[k]).name == name
}

/// The scan with one more pattern of what to ignore.
pub open spec fn ignoring(s: ScanView, p: Seq<char>) -> ScanView {
    ScanView { config: ConfigView { ignore: s.config.ignore.push(p), ..s.config }, ..s }
}

/// The scan with one more pattern of roots.
pub open spec fn rooted(s: ScanView, p: Seq<char>) -> ScanView {
    ScanView { config: ConfigView { roots: s.config.roots.push(p), ..s.config }, ..s }
}

/// The pattern fits the name of a definition that the finding may accuse.
pub open spec fn meets(s: ScanView, p: Seq<char>, f: FindingView) -> bool {
    exists|i: int|
        0 <= i < s.defs.len() && !(#[trigger] s.defs[i]).in_test && s.defs[i].key() == f.name
            && glob(p, s.defs[i].id.name)
}

/// Every definition is keyed by its bare name, as syntax alone keys it.
pub open spec fn keyed_by_name(s: ScanView) -> bool {
    forall|i: int| 0 <= i < s.defs.len() ==> (#[trigger] s.defs[i]).key() == s.defs[i].id.name
}

proof fn one_more_pattern(patterns: Seq<Seq<char>>, p: Seq<char>, name: Seq<char>)
    ensures
        any_fits(patterns.push(p), name) == (any_fits(patterns, name) || glob(p, name)),
{
    let more = patterns.push(p);
    assert(more[patterns.len() as int] == p);
    if any_fits(patterns, name) {
        let i = choose|i: int| 0 <= i < patterns.len() && glob(#[trigger] patterns[i], name);
        assert(glob(more[i], name));
    }
    if any_fits(more, name) {
        let i = choose|i: int| 0 <= i < more.len() && glob(#[trigger] more[i], name);
        if i < patterns.len() {
            assert(glob(patterns[i], name));
        }
    }
}

/// A key that tells production definitions apart is that of one alone.
pub proof fn clear_keys_have_one_owner(defs: Seq<DefinitionView>, i: int, j: int)
    requires
        0 <= i < j < defs.len(),
        defs[i].key() == defs[j].key(),
        !defs[i].in_test,
        !defs[j].in_test,
    ensures
        key_count(defs, defs[i].key()) > 1,
    decreases defs.len(),
{
    let key = defs[i].key();
    let less = defs.drop_last();
    assert(less[i] == defs[i]);
    if j == defs.len() - 1 {
        key_counted(less, i);
    } else {
        assert(less[j] == defs[j]);
        clear_keys_have_one_owner(less, i, j);
    }
}

proof fn key_counted(defs: Seq<DefinitionView>, i: int)
    requires
        0 <= i < defs.len(),
        !defs[i].in_test,
    ensures
        key_count(defs, defs[i].key()) > 0,
    decreases defs.len(),
{
    if i < defs.len() - 1 {
        assert(defs.drop_last()[i] == defs[i]);
        key_counted(defs.drop_last(), i);
    }
}

/// One more pattern to ignore takes away exactly the findings that it fits,
/// and leaves the others as they stood.
pub proof fn an_ignore_silences_what_it_fits(s: ScanView, p: Seq<char>)
    ensures
        unreachable_code(ignoring(s, p)) == unreachable_code(s).filter(
            |f: FindingView| !meets(s, p, f),
        ),
        keyed_by_name(s) ==> unreachable_code(ignoring(s, p)) == unreachable_code(s).filter(
            |f: FindingView| !glob(p, f.name),
        ),
{
    let t = ignoring(s, p);
    let told = |d: DefinitionView| finding_of(s, d);
    let dead = |d: DefinitionView| unreachable(s, d);
    let other = |d: DefinitionView| !glob(p, d.id.name);
    let unmet = |f: FindingView| !meets(s, p, f);
    assert forall|d: DefinitionView| roots_production(t, d) == roots_production(s, d) by {}
    assert(production_names(t) =~= production_names(s));
    assert(test_names(t) =~= test_names(s));
    assert forall|d: DefinitionView| #[trigger] unreachable(t, d) == (dead(d) && other(d)) by {
        one_more_pattern(s.config.ignore, p, d.id.name);
    }
    assert forall|d: DefinitionView| #[trigger] finding_of(t, d) == told(d) by {}
    assert forall|i: int| 0 <= i < s.defs.len() && dead(#[trigger] s.defs[i]) implies unmet(
        told(s.defs[i]),
    ) == other(s.defs[i]) by {
        let d = s.defs[i];
        if meets(s, p, told(d)) {
            let j = choose|j: int|
                0 <= j < s.defs.len() && !(#[trigger] s.defs[j]).in_test && s.defs[j].key()
                    == told(d).name && glob(p, s.defs[j].id.name);
            if i < j {
                clear_keys_have_one_owner(s.defs, i, j);
            } else if j < i {
                clear_keys_have_one_owner(s.defs, j, i);
            }
        }
        if glob(p, d.id.name) {
            assert(!s.defs[i].in_test);
        }
    }
    crate::seqs::filter_then_map(s.defs, dead, other, told, unmet);
    let both = |d: DefinitionView| dead(d) && other(d);
    assert((|d: DefinitionView| unreachable(t, d)) =~= both);
    assert((|d: DefinitionView| finding_of(t, d)) =~= told);
    assert(crate::order::weak_order(by_test_calls()));
    let kept = s.defs.filter(dead).map_values(told);
    crate::seqs::arranged_filtered(kept, by_test_calls(), unmet);
    assert(unreachable_code(t) == unreachable_code(s).filter(unmet));
    if keyed_by_name(s) {
        let unfit = |f: FindingView| !glob(p, f.name);
        assert forall|i: int| 0 <= i < s.defs.len() && dead(#[trigger] s.defs[i]) implies unfit(
            told(s.defs[i]),
        ) == other(s.defs[i]) by {}
        crate::seqs::filter_then_map(s.defs, dead, other, told, unfit);
        crate::seqs::arranged_filtered(kept, by_test_calls(), unfit);
    }
}

/// One more pattern of roots adds no finding and keeps the order of those that
/// stay: they are the ones that the program still does not reach. None of them
/// fits the pattern, and none is reached from a definition that does.
pub proof fn a_root_only_silences(s: ScanView, p: Seq<char>)
    ensures
        unreachable_code(rooted(s, p)) == unreachable_code(s).filter(
            |f: FindingView| !alive(rooted(s, p)).contains(f.name),
        ),
        forall|f: FindingView, i: int|
            #![trigger unreachable_code(rooted(s, p)).contains(f), s.defs[i]]
            unreachable_code(rooted(s, p)).contains(f) && 0 <= i < s.defs.len()
                && !s.defs[i].in_test && !s.defs[i].is_test_fn && glob(p, s.defs[i].id.name)
                ==> !reach(s.edges, set![s.defs[i].key()]).contains(f.name),
        keyed_by_name(s) ==> forall|f: FindingView| #[trigger]
            unreachable_code(rooted(s, p)).contains(f) ==> !glob(p, f.name),
{
    let t = rooted(s, p);
    let told = |d: DefinitionView| finding_of(s, d);
    let dead = |d: DefinitionView| unreachable(s, d);
    let beyond = |d: DefinitionView| !alive(t).contains(d.key());
    let lost = |f: FindingView| !alive(t).contains(f.name);
    assert forall|d: DefinitionView| #[trigger] roots_production(s, d) implies roots_production(
        t,
        d,
    ) by {
        one_more_pattern(s.config.roots, p, d.id.name);
    }
    assert(production_names(s).subset_of(production_names(t))) by {
        assert forall|k: Seq<char>| production_names(s).contains(k) implies production_names(
            t,
        ).contains(k) by {
            if !(k == ""@ || k == "main"@ || s.entry_points.contains(k)) {
                let i = choose|i: int|
                    0 <= i < s.defs.len() && roots_production(s, #[trigger] s.defs[i])
                        && s.defs[i].key() == k;
                assert(roots_production(t, t.defs[i]));
            }
        }
    }
    crate::graph::reach_grows(s.edges, s.edges, production_names(s), production_names(t));
    assert(test_names(t) =~= test_names(s));
    assert forall|d: DefinitionView| #[trigger] unreachable(t, d) == (dead(d) && beyond(d)) by {
        assert(exempt(t, d) == exempt(s, d));
    }
    assert forall|d: DefinitionView| #[trigger] finding_of(t, d) == told(d) by {}
    crate::seqs::filter_then_map(s.defs, dead, beyond, told, lost);
    let both = |d: DefinitionView| dead(d) && beyond(d);
    assert((|d: DefinitionView| unreachable(t, d)) =~= both);
    assert((|d: DefinitionView| finding_of(t, d)) =~= told);
    assert(crate::order::weak_order(by_test_calls()));
    crate::seqs::arranged_filtered(
        s.defs.filter(dead).map_values(told),
        by_test_calls(),
        lost,
    );
    assert forall|f: FindingView, i: int|
        #![trigger unreachable_code(t).contains(f), s.defs[i]]
        unreachable_code(t).contains(f) && 0 <= i < s.defs.len() && !s.defs[i].in_test
            && !s.defs[i].is_test_fn && glob(p, s.defs[i].id.name) implies !reach(
        s.edges,
        set![s.defs[i].key()],
    ).contains(f.name) by {
        if reach(s.edges, set![s.defs[i].key()]).contains(f.name) {
            one_more_pattern(s.config.roots, p, s.defs[i].id.name);
            declared_roots_are_live(t, i, f.name);
        }
    }
    if keyed_by_name(s) {
        assert forall|f: FindingView| #[trigger] unreachable_code(t).contains(f) implies !glob(
            p,
            f.name,
        ) by {
            report_members(t, |d: DefinitionView| unreachable(t, d), f);
            let i = choose|i: int|
                0 <= i < t.defs.len() && unreachable(t, #[trigger] t.defs[i]) && finding_of(
                    t,
                    t.defs[i],
                ) == f;
            if glob(p, f.name) {
                assert(s.defs[i].key() == s.defs[i].id.name);
                crate::graph::roots_are_reached(s.edges, set![f.name], f.name);
                one_more_pattern(s.config.roots, p, s.defs[i].id.name);
                declared_roots_are_live(t, i, f.name);
            }
        }
    }
}

} // verus!
