//! The call graph of a project and what it says: which functions shipped, and
//! which of them nothing but tests can reach.

use vstd::prelude::*;

use crate::config::Config;
use crate::config::ConfigView;
use crate::graph::calls_of;
use crate::graph::each_once;
use crate::graph::rows_with;
use crate::graph::with_name;
use crate::graph::Call;
use crate::graph::CallGraph;
use crate::graph::Row;
use crate::ir::views;
use crate::ir::Definition;
use crate::ir::DefinitionView;
use crate::ir::Edge;
use crate::ir::EdgeView;
use crate::ir::Extract;
use crate::ir::SymbolId;
use crate::ir::SymbolView;
use crate::names::NameMap;
use crate::names::NameSet;
use crate::number::decimal;
use crate::number::decimal_of;
use crate::text::texts;

pub use crate::evidence::evidence;
pub use crate::evidence::to_dot;
pub use crate::evidence::Evidence;
pub use crate::findings::ambiguity_report;
pub use crate::findings::is_application;
pub use crate::findings::never_run;
pub use crate::findings::never_run_graph;
pub use crate::findings::Confidence;
pub use crate::findings::Finding;
pub use crate::impact::defs_at;
pub use crate::impact::test_functions;
pub use crate::impact::tests_reaching;
pub use crate::impact::TestFunction;
pub use crate::project::resolve_roots;
pub use crate::regions::dead_regions;
pub use crate::regions::Region;
pub use crate::scanner::scan_crate;
pub use crate::scanner::scan_crate_as;

verus! {

/// A definition as the analysis keeps it.
pub type FnDef = Definition;

/// What is known of the calls of one symbol.
#[verifier::ext_equal]
pub struct CallSitesView {
    pub prod: nat,
    pub test: nat,
    pub examples: Seq<Seq<char>>,
}

#[derive(Debug)]
pub struct CallSites {
    pub prod: usize,
    pub test: usize,
    /// Up to three places where a test calls it.
    pub examples: Vec<String>,
}

impl View for CallSites {
    type V = CallSitesView;

    open spec fn view(&self) -> CallSitesView {
        CallSitesView {
            prod: self.prod as nat,
            test: self.test as nat,
            examples: texts(self.examples@),
        }
    }
}

/// Never called.
pub open spec fn no_sites() -> CallSitesView {
    CallSitesView { prod: 0, test: 0, examples: seq![] }
}

/// What a scan knows.
#[verifier::ext_equal]
pub struct ScanView {
    pub defs: Seq<DefinitionView>,
    pub calls: Map<Seq<char>, CallSitesView>,
    /// Calls, but for guesses from tokens of macros in test code.
    pub edges: Set<Call>,
    /// Those of them that nothing but tokens show.
    pub guessed: Set<Call>,
    /// All calls, guesses from tokens of macros in test code too.
    pub all_edges: Set<Call>,
    pub reexported: Set<Seq<char>>,
    pub config: ConfigView,
    pub application: bool,
    pub entry_points: Seq<Seq<char>>,
    pub entry_files: Seq<Seq<char>>,
}

/// Which calls to follow.
#[derive(Debug, Clone, Copy, PartialEq, Eq, Structural)]
pub enum Graph {
    /// All but guesses from tokens in test code.
    Accusable,
    /// All of them, guesses from tokens in test code too.
    Everything,
}

pub struct Scan {
    pub defs: Vec<FnDef>,
    pub calls: NameMap<CallSites>,
    /// The call graph, without guesses from tokens of macros in test code.
    /// Calls made outside any function are made by the name `""`.
    pub edges: CallGraph,
    /// The calls of it that nothing but tokens show. They keep a function from
    /// being reported, and do not count where tests reach one.
    pub guessed: CallGraph,
    /// The call graph with the guesses from tokens of macros in test code.
    pub all_edges: CallGraph,
    /// Source directories that were read.
    pub crate_roots: Vec<String>,
    /// Something in the project runs on its own.
    pub application: bool,
    /// Names that are entered from outside, by convention of the language.
    pub entry_points: Vec<String>,
    /// Files that a host loads: what they export is entered from outside.
    pub entry_files: Vec<String>,
    pub config: Config,
    /// Names re-exported at a crate root.
    pub reexported: NameSet,
    /// How many findings the default tier has, on a precise scan.
    pub nominal_findings: Option<usize>,
    /// How the project was read.
    pub project_description: String,
}

impl View for Scan {
    type V = ScanView;

    open spec fn view(&self) -> ScanView {
        ScanView {
            defs: views(self.defs@),
            calls: self.calls@.map_values(|c: CallSites| c@),
            edges: self.edges@,
            guessed: self.guessed@,
            all_edges: self.all_edges@,
            reexported: self.reexported@,
            config: self.config@,
            application: self.application,
            entry_points: texts(self.entry_points@),
            entry_files: texts(self.entry_files@),
        }
    }
}

/// What a project says of itself, beside its code.
pub struct Facts {
    pub application: bool,
    pub entry_points: Vec<String>,
    pub entry_files: Vec<String>,
    pub config: Config,
    pub description: String,
}

// ---------------------------------------------------------------------------
// From what a frontend read
// ---------------------------------------------------------------------------

/// Some definition has the key.
pub open spec fn defined(defs: Seq<DefinitionView>, key: Seq<char>) -> bool {
    exists|i: int| 0 <= i < defs.len() && (#[trigger] defs[i]).key() == key
}

/// Some definition has the name.
pub open spec fn named(defs: Seq<DefinitionView>, name: Seq<char>) -> bool {
    exists|i: int| 0 <= i < defs.len() && (#[trigger] defs[i]).id.name == name
}

/// A definition with this name has this key.
pub open spec fn named_key(defs: Seq<DefinitionView>, name: Seq<char>, key: Seq<char>) -> bool {
    exists|i: int|
        0 <= i < defs.len() && (#[trigger] defs[i]).id.name == name && defs[i].key() == key
}

/// A call of `to` is a call of the definition with `key`. A name that is
/// written without its type or module, and that no definition has as its key,
/// may mean any definition of that name: each is credited.
pub open spec fn credits(defs: Seq<DefinitionView>, to: SymbolView, key: Seq<char>) -> bool {
    if !to.qualified() && !defined(defs, to.text()) && named(defs, to.name) {
        named_key(defs, to.name, key)
    } else {
        key == to.text()
    }
}

/// The keys of the definitions of this name, first come first.
pub open spec fn keys_named(defs: Seq<DefinitionView>, name: Seq<char>) -> Seq<Seq<char>>
    decreases defs.len(),
{
    if defs.len() == 0 {
        seq![]
    } else {
        let before = keys_named(defs.drop_last(), name);
        if defs.last().id.name == name {
            with_name(before, defs.last().key())
        } else {
            before
        }
    }
}

/// The keys that a call of `to` credits, in order.
pub open spec fn credited_keys(defs: Seq<DefinitionView>, to: SymbolView) -> Seq<Seq<char>> {
    if !to.qualified() && !defined(defs, to.text()) && named(defs, to.name) {
        keys_named(defs, to.name)
    } else {
        seq![to.text()]
    }
}

/// `rows` with the call of each of `tos` by `from`.
pub open spec fn rows_with_all(rows: Seq<Row>, from: Seq<char>, tos: Seq<Seq<char>>) -> Seq<Row>
    decreases tos.len(),
{
    if tos.len() == 0 {
        rows
    } else {
        rows_with(rows_with_all(rows, from, tos.drop_last()), from, tos.last())
    }
}

/// The rows of the graph that `edges` amount to; only of those that count where
/// `strict`.
pub open spec fn rows_from(
    defs: Seq<DefinitionView>,
    edges: Seq<EdgeView>,
    strict: bool,
) -> Seq<Row>
    decreases edges.len(),
{
    if edges.len() == 0 {
        seq![]
    } else {
        let before = rows_from(defs, edges.drop_last(), strict);
        let e = edges.last();
        if strict && !counts(e) {
            before
        } else {
            rows_with_all(before, e.from.text(), credited_keys(defs, e.to))
        }
    }
}

/// The edge may count as evidence that a test reaches something.
pub open spec fn counts(e: EdgeView) -> bool {
    !e.in_test || e.kind.witnessed()
}

/// The calls that `edges` amount to; only those that count where `strict`.
pub open spec fn calls_from(
    defs: Seq<DefinitionView>,
    edges: Seq<EdgeView>,
    strict: bool,
) -> Set<Call> {
    Set::new(
        |c: Call|
            exists|i: int|
                0 <= i < edges.len() && (#[trigger] edges[i]).from.text() == c.0 && credits(
                    defs,
                    edges[i].to,
                    c.1,
                ) && (strict ==> counts(edges[i])),
    )
}

/// The calls that `edges` show otherwise than by tokens.
pub open spec fn witnessed_from(defs: Seq<DefinitionView>, edges: Seq<EdgeView>) -> Set<Call> {
    Set::new(
        |c: Call|
            exists|i: int|
                0 <= i < edges.len() && (#[trigger] edges[i]).kind.witnessed()
                    && edges[i].from.text() == c.0 && credits(defs, edges[i].to, c.1),
    )
}

/// The calls of production code that nothing but tokens show.
pub open spec fn guesses_from(defs: Seq<DefinitionView>, edges: Seq<EdgeView>) -> Set<Call> {
    calls_from(defs, edges, true).difference(witnessed_from(defs, edges))
}

/// Where an edge stands: its file and line.
pub open spec fn place_of(e: EdgeView) -> Seq<char> {
    e.file + ":"@ + decimal(e.line)
}

/// `sites` with one more call.
pub open spec fn with_call(sites: CallSitesView, e: EdgeView) -> CallSitesView {
    if e.in_test {
        CallSitesView {
            test: sites.test + 1,
            examples: if sites.examples.len() < 3 {
                sites.examples.push(place_of(e))
            } else {
                sites.examples
            },
            ..sites
        }
    } else {
        CallSitesView { prod: sites.prod + 1, ..sites }
    }
}

/// The calls of `key` that `edges` amount to, in their order.
pub open spec fn sites_from(
    defs: Seq<DefinitionView>,
    edges: Seq<EdgeView>,
    key: Seq<char>,
) -> CallSitesView
    decreases edges.len(),
{
    if edges.len() == 0 {
        no_sites()
    } else {
        let before = sites_from(defs, edges.drop_last(), key);
        if counts(edges.last()) && credits(defs, edges.last().to, key) {
            with_call(before, edges.last())
        } else {
            before
        }
    }
}

/// The calls of `key` that the scan knows of.
pub open spec fn sites(s: ScanView, key: Seq<char>) -> CallSitesView {
    if s.calls.contains_key(key) {
        s.calls[key]
    } else {
        no_sites()
    }
}

proof fn sites_bounded(defs: Seq<DefinitionView>, edges: Seq<EdgeView>, key: Seq<char>)
    ensures
        sites_from(defs, edges, key).prod <= edges.len(),
        sites_from(defs, edges, key).test <= edges.len(),
    decreases edges.len(),
{
    if edges.len() > 0 {
        sites_bounded(defs, edges.drop_last(), key);
    }
}

/// The definitions by key and by name.
struct Index {
    keys: NameSet,
    by_name: NameMap<NameSet>,
}

impl Index {
    spec fn of_defs(&self, defs: Seq<DefinitionView>) -> bool {
        &&& forall|k: Seq<char>| #[trigger] self.keys@.contains(k) == defined(defs, k)
        &&& forall|n: Seq<char>| #[trigger] self.by_name@.contains_key(n) == named(defs, n)
        &&& forall|n: Seq<char>| #[trigger]
            self.by_name@.contains_key(n) ==> self.by_name@[n].list() == keys_named(defs, n)
        &&& forall|n: Seq<char>, k: Seq<char>|
            self.by_name@.contains_key(n) ==> #[trigger] self.by_name@[n]@.contains(k)
                == named_key(defs, n, k)
    }

    fn build(defs: &Vec<Definition>) -> (r: Self)
        ensures
            r.of_defs(views(defs@)),
    {
        let mut r = Index { keys: NameSet::new(), by_name: NameMap::new() };
        let ghost all = views(defs@);
        let mut i: usize = 0;
        while i < defs.len()
            invariant
                0 <= i <= defs@.len(),
                all == views(defs@),
                r.of_defs(all.take(i as int)),
            decreases defs@.len() - i,
        {
            let name = defs[i].name();
            let key = defs[i].key();
            let ghost before = r;
            r.keys.insert(key.as_str());
            let mut keys = match r.by_name.exchange(name, NameSet::new()) {
                Some(keys) => keys,
                None => NameSet::new(),
            };
            let ghost so_far = keys.list();
            keys.insert(key.as_str());
            let ghost row = keys;
            r.by_name.exchange(name, keys);
            proof {
                let short = all.take(i as int);
                let long = all.take(i + 1);
                assert(long =~= short.push(all[i as int]));
                assert(r.by_name@ =~= before.by_name@.insert(name@, row));
                assert(long.drop_last() =~= short);
                assert(row.list() == with_name(so_far, key@));
                assert(so_far == keys_named(short, name@)) by {
                    if !before.by_name@.contains_key(name@) {
                        assert(!named(short, name@));
                        none_named(short, name@);
                    }
                }
                assert forall|n: Seq<char>| #[trigger]
                    r.by_name@.contains_key(n) implies r.by_name@[n].list() == keys_named(
                    long,
                    n,
                ) by {
                    if n != name@ {
                        assert(before.by_name@.contains_key(n));
                    }
                }
                assert forall|k: Seq<char>| defined(long, k) == (defined(short, k) || k == key@) by {
                    index_step(short, all[i as int], name@, k);
                }
                assert forall|n: Seq<char>| named(long, n) == (named(short, n) || n == name@) by {
                    index_step(short, all[i as int], n, key@);
                }
                assert forall|n: Seq<char>, k: Seq<char>|
                    named_key(long, n, k) == (named_key(short, n, k) || (n == name@ && k
                        == key@)) by {
                    index_step(short, all[i as int], n, k);
                }
                assert forall|n: Seq<char>, k: Seq<char>|
                    r.by_name@.contains_key(n) implies #[trigger] r.by_name@[n]@.contains(k)
                    == named_key(long, n, k) by {
                    if n == name@ {
                        if before.by_name@.contains_key(n) {
                            assert(before.by_name@[n]@.contains(k) == named_key(short, n, k));
                        } else {
                            assert(!named(short, n));
                        }
                    } else {
                        assert(before.by_name@[n]@.contains(k) == named_key(short, n, k));
                    }
                }
            }
            i += 1;
        }
        assert(all.take(all.len() as int) =~= all);
        r
    }

    /// The keys that a call of `to` credits.
    fn credited(&self, to: &SymbolId, Ghost(defs): Ghost<Seq<DefinitionView>>) -> (r: NameSet)
        requires
            self.of_defs(defs),
        ensures
            forall|k: Seq<char>| #[trigger] r@.contains(k) == credits(defs, to@, k),
            r.list() == credited_keys(defs, to@),
    {
        let key = to.to_string();
        if !to.is_qualified() && !self.keys.contains(key.as_str()) {
            if let Some(keys) = self.by_name.get(to.name.as_str()) {
                return keys.copy();
            }
        }
        let mut r = NameSet::new();
        r.insert(key.as_str());
        assert(r.list() =~= seq![key@]);
        r
    }
}

proof fn none_named(defs: Seq<DefinitionView>, name: Seq<char>)
    requires
        !named(defs, name),
    ensures
        keys_named(defs, name) == Seq::<Seq<char>>::empty(),
    decreases defs.len(),
{
    if defs.len() > 0 {
        let less = defs.drop_last();
        assert(defs[defs.len() - 1].id.name != name);
        if named(less, name) {
            let i = choose|i: int| 0 <= i < less.len() && (#[trigger] less[i]).id.name == name;
            assert(defs[i].id.name == name);
        }
        none_named(less, name);
    }
}

proof fn index_step(short: Seq<DefinitionView>, d: DefinitionView, n: Seq<char>, k: Seq<char>)
    ensures
        defined(short.push(d), k) == (defined(short, k) || k == d.key()),
        named(short.push(d), n) == (named(short, n) || n == d.id.name),
        named_key(short.push(d), n, k) == (named_key(short, n, k) || (n == d.id.name && k
            == d.key())),
{
    let long = short.push(d);
    let last = short.len() as int;
    assert(long[last] == d);
    assert forall|i: int| 0 <= i < short.len() implies #[trigger] long[i] == short[i] by {}
    if defined(short, k) {
        let i = choose|i: int| 0 <= i < short.len() && (#[trigger] short[i]).key() == k;
        assert(long[i].key() == k);
    }
    if named(short, n) {
        let i = choose|i: int| 0 <= i < short.len() && (#[trigger] short[i]).id.name == n;
        assert(long[i].id.name == n);
    }
    if named_key(short, n, k) {
        let i = choose|i: int|
            0 <= i < short.len() && (#[trigger] short[i]).id.name == n && short[i].key() == k;
        assert(long[i].id.name == n);
    }
}

/// The calls of `key` that `calls` hold.
spec fn sites_in(calls: Map<Seq<char>, CallSites>, key: Seq<char>) -> CallSitesView {
    if calls.contains_key(key) {
        calls[key]@
    } else {
        no_sites()
    }
}

/// Adds the call of each of `targets` by `from`.
fn record(graph: &mut CallGraph, from: &str, targets: &NameSet)
    ensures
        forall|c: Call| #[trigger]
            final(graph)@.contains(c) == (old(graph)@.contains(c) || (c.0 == from@
                && targets@.contains(c.1))),
        final(graph).rows() == rows_with_all(old(graph).rows(), from@, targets.list()),
{
    let ghost start = graph@;
    let ghost rows = graph.rows();
    let names = targets.items();
    let ghost all = texts(names@);
    let mut i: usize = 0;
    while i < names.len()
        invariant
            0 <= i <= names@.len(),
            all == texts(names@),
            graph.rows() == rows_with_all(rows, from@, all.take(i as int)),
            forall|c: Call| #[trigger]
                graph@.contains(c) == (start.contains(c) || (c.0 == from@ && all.take(
                    i as int,
                ).contains(c.1))),
        decreases names@.len() - i,
    {
        let ghost before = graph@;
        graph.add_call(from, names[i].as_str());
        proof {
            assert(all.take(i + 1) =~= all.take(i as int).push(all[i as int]));
            assert(all.take(i + 1).drop_last() =~= all.take(i as int));
            crate::names::pushed_set(all.take(i as int), all[i as int]);
            assert forall|c: Call| #[trigger]
                graph@.contains(c) == (start.contains(c) || (c.0 == from@ && all.take(
                    i + 1,
                ).contains(c.1))) by {
                assert(before.contains(c) == (start.contains(c) || (c.0 == from@ && all.take(
                    i as int,
                ).contains(c.1))));
                assert(all.take(i + 1).to_set().contains(c.1) == all.take(i + 1).contains(c.1));
                assert(all.take(i as int).to_set().contains(c.1) == all.take(i as int).contains(
                    c.1,
                ));
            }
        }
        i += 1;
    }
    assert(all.take(all.len() as int) =~= all);
}

/// The place of an edge as text.
fn place(e: &Edge) -> (r: String)
    ensures
        r@ == place_of(e@),
{
    let mut out = e.file.clone();
    out.append(":");
    out.append(decimal_of(e.line).as_str());
    assert(out@ =~= place_of(e@));
    out
}

/// Counts one call of each of `targets`.
fn tally(calls: &mut NameMap<CallSites>, targets: &NameSet, e: &Edge)
    requires
        forall|k: Seq<char>| #[trigger] targets@.contains(k) ==> sites_in(old(calls)@, k).prod
            < usize::MAX && sites_in(old(calls)@, k).test < usize::MAX,
    ensures
        forall|k: Seq<char>| #[trigger]
            sites_in(final(calls)@, k) == (if targets@.contains(k) {
                with_call(sites_in(old(calls)@, k), e@)
            } else {
                sites_in(old(calls)@, k)
            }),
{
    let ghost start = calls@;
    let names = targets.items();
    let ghost all = texts(names@);
    let mut i: usize = 0;
    while i < names.len()
        invariant
            0 <= i <= names@.len(),
            all == texts(names@),
            all == targets.list(),
            all.no_duplicates(),
            forall|k: Seq<char>| #[trigger] targets@.contains(k) ==> sites_in(start, k).prod
                < usize::MAX && sites_in(start, k).test < usize::MAX,
            forall|k: Seq<char>| #[trigger]
                sites_in(calls@, k) == (if all.take(i as int).contains(k) {
                    with_call(sites_in(start, k), e@)
                } else {
                    sites_in(start, k)
                }),
        decreases names@.len() - i,
    {
        let name = names[i].as_str();
        let ghost before = calls@;
        proof {
            assert(targets@.contains(all[i as int]));
            assert(!all.take(i as int).contains(name@)) by {
                if all.take(i as int).contains(name@) {
                    let j = choose|j: int| 0 <= j < i && all.take(i as int)[j] == name@;
                    assert(all[j] == all[i as int]);
                }
            }
        }
        let mut c = match calls.exchange(
            name,
            CallSites { prod: 0, test: 0, examples: Vec::new() },
        ) {
            Some(c) => c,
            None => {
                let fresh = CallSites { prod: 0, test: 0, examples: Vec::new() };
                assert(texts(fresh.examples@) =~= seq![]);
                fresh
            },
        };
        assert(c@ =~= sites_in(before, name@));
        assert(c@ == sites_in(start, name@));
        if e.in_test {
            c.test = c.test + 1;
            if c.examples.len() < 3 {
                let ghost old_examples = c.examples@;
                c.examples.push(place(e));
                assert(texts(c.examples@) =~= texts(old_examples).push(place_of(e@)));
            }
        } else {
            c.prod = c.prod + 1;
        }
        assert(c@ =~= with_call(sites_in(start, name@), e@));
        let ghost now = c;
        calls.exchange(name, c);
        proof {
            assert(calls@ =~= before.insert(name@, now));
            assert(all.take(i + 1) =~= all.take(i as int).push(all[i as int]));
            crate::names::pushed_set(all.take(i as int), all[i as int]);
            assert forall|k: Seq<char>| #[trigger]
                sites_in(calls@, k) == (if all.take(i + 1).contains(k) {
                    with_call(sites_in(start, k), e@)
                } else {
                    sites_in(start, k)
                }) by {
                assert(all.take(i + 1).to_set().contains(k) == all.take(i + 1).contains(k));
                assert(all.take(i as int).to_set().contains(k) == all.take(i as int).contains(k));
                assert(sites_in(before, k) == (if all.take(i as int).contains(k) {
                    with_call(sites_in(start, k), e@)
                } else {
                    sites_in(start, k)
                }));
            }
        }
        i += 1;
    }
    assert(all.take(all.len() as int) =~= all);
}

proof fn calls_step(
    defs: Seq<DefinitionView>,
    edges: Seq<EdgeView>,
    i: int,
    strict: bool,
    c: Call,
)
    requires
        0 <= i < edges.len(),
    ensures
        calls_from(defs, edges.take(i + 1), strict).contains(c) == (calls_from(
            defs,
            edges.take(i),
            strict,
        ).contains(c) || (edges[i].from.text() == c.0 && credits(defs, edges[i].to, c.1) && (strict
            ==> counts(edges[i])))),
{
    let short = edges.take(i);
    let long = edges.take(i + 1);
    if calls_from(defs, long, strict).contains(c) {
        let k = choose|k: int|
            0 <= k < long.len() && (#[trigger] long[k]).from.text() == c.0 && credits(
                defs,
                long[k].to,
                c.1,
            ) && (strict ==> counts(long[k]));
        if k < i {
            assert(short[k].from.text() == c.0);
        }
    }
    if calls_from(defs, short, strict).contains(c) {
        let k = choose|k: int|
            0 <= k < short.len() && (#[trigger] short[k]).from.text() == c.0 && credits(
                defs,
                short[k].to,
                c.1,
            ) && (strict ==> counts(short[k]));
        assert(long[k].from.text() == c.0);
    }
    assert(long[i] == edges[i]);
}

proof fn witnessed_step(defs: Seq<DefinitionView>, edges: Seq<EdgeView>, i: int, c: Call)
    requires
        0 <= i < edges.len(),
    ensures
        witnessed_from(defs, edges.take(i + 1)).contains(c) == (witnessed_from(
            defs,
            edges.take(i),
        ).contains(c) || (edges[i].kind.witnessed() && edges[i].from.text() == c.0 && credits(
            defs,
            edges[i].to,
            c.1,
        ))),
{
    let short = edges.take(i);
    let long = edges.take(i + 1);
    if witnessed_from(defs, long).contains(c) {
        let k = choose|k: int|
            0 <= k < long.len() && (#[trigger] long[k]).kind.witnessed() && long[k].from.text()
                == c.0 && credits(defs, long[k].to, c.1);
        if k < i {
            assert(short[k].kind.witnessed());
        }
    }
    if witnessed_from(defs, short).contains(c) {
        let k = choose|k: int|
            0 <= k < short.len() && (#[trigger] short[k]).kind.witnessed() && short[k].from.text()
                == c.0 && credits(defs, short[k].to, c.1);
        assert(long[k].kind.witnessed());
    }
    assert(long[i] == edges[i]);
}

// ---------------------------------------------------------------------------
// What holds of every scan
// ---------------------------------------------------------------------------

/// What is left of the calls without the guesses is what is shown otherwise
/// than by tokens.
pub proof fn calls_without_guesses(defs: Seq<DefinitionView>, edges: Seq<EdgeView>)
    ensures
        calls_from(defs, edges, true).difference(guesses_from(defs, edges)) == witnessed_from(
            defs,
            edges,
        ),
{
    assert forall|c: Call| witnessed_from(defs, edges).contains(c) implies calls_from(
        defs,
        edges,
        true,
    ).contains(c) by {
        let k = choose|k: int|
            0 <= k < edges.len() && (#[trigger] edges[k]).kind.witnessed() && edges[k].from.text()
                == c.0 && credits(defs, edges[k].to, c.1);
        assert(edges[k].from.text() == c.0);
    }
    assert(calls_from(defs, edges, true).difference(guesses_from(defs, edges))
        =~= witnessed_from(defs, edges));
}

/// A token of a macro, in whatever code, shows no call otherwise than by
/// tokens, takes no call away, and counts as no call of a test.
pub proof fn a_token_only_guesses(
    defs: Seq<DefinitionView>,
    edges: Seq<EdgeView>,
    e: EdgeView,
    key: Seq<char>,
)
    requires
        !e.kind.witnessed(),
    ensures
        calls_from(defs, edges, true).subset_of(calls_from(defs, edges.push(e), true)),
        witnessed_from(defs, edges.push(e)) == witnessed_from(defs, edges),
        sites_from(defs, edges.push(e), key).prod >= sites_from(defs, edges, key).prod,
        sites_from(defs, edges.push(e), key).test == sites_from(defs, edges, key).test,
{
    let longer = edges.push(e);
    let n = edges.len() as int;
    assert(longer.drop_last() =~= edges);
    assert(longer.take(n) =~= edges);
    assert(longer.take(n + 1) =~= longer);
    assert forall|c: Call| calls_from(defs, edges, true).contains(c) implies calls_from(
        defs,
        longer,
        true,
    ).contains(c) by {
        calls_step(defs, longer, n, true, c);
    }
    assert forall|c: Call|
        witnessed_from(defs, longer).contains(c) == witnessed_from(defs, edges).contains(c) by {
        witnessed_step(defs, longer, n, c);
    }
    assert(witnessed_from(defs, longer) =~= witnessed_from(defs, edges));
}

/// The graph that may accuse holds no call that the other lacks.
pub proof fn accusable_within_everything(defs: Seq<DefinitionView>, edges: Seq<EdgeView>)
    ensures
        calls_from(defs, edges, true).subset_of(calls_from(defs, edges, false)),
{
}

/// The rows of a scan name each caller once and each of its callees once, and
/// list exactly its calls.
pub proof fn rows_are_the_calls(defs: Seq<DefinitionView>, edges: Seq<EdgeView>, strict: bool)
    ensures
        each_once(rows_from(defs, edges, strict)),
        calls_of(rows_from(defs, edges, strict)) == calls_from(defs, edges, strict),
    decreases edges.len(),
{
    let rows = rows_from(defs, edges, strict);
    if edges.len() == 0 {
        assert(calls_of(rows) =~= calls_from(defs, edges, strict));
    } else {
        let n = edges.len() - 1;
        let less = edges.drop_last();
        let e = edges.last();
        rows_are_the_calls(defs, less, strict);
        assert(edges.take(n) =~= less);
        assert(edges.take(n + 1) =~= edges);
        let before = rows_from(defs, less, strict);
        let tos = credited_keys(defs, e.to);
        all_listed_once(before, e.from.text(), tos);
        assert forall|c: Call|
            calls_of(rows).contains(c) == calls_from(defs, edges, strict).contains(c) by {
            calls_step(defs, edges, n, strict, c);
            credited_members(defs, e.to, c.1);
        }
        assert(calls_of(rows) =~= calls_from(defs, edges, strict));
    }
}

proof fn all_listed_once(rows: Seq<Row>, from: Seq<char>, tos: Seq<Seq<char>>)
    requires
        each_once(rows),
    ensures
        each_once(rows_with_all(rows, from, tos)),
        forall|c: Call| #[trigger]
            calls_of(rows_with_all(rows, from, tos)).contains(c) == (calls_of(rows).contains(c) || (
            c.0 == from && tos.contains(c.1))),
    decreases tos.len(),
{
    if tos.len() > 0 {
        let less = tos.drop_last();
        all_listed_once(rows, from, less);
        let before = rows_with_all(rows, from, less);
        crate::graph::calls_are_listed_once(before, from, tos.last());
        assert(tos =~= less.push(tos.last()));
        assert forall|c: Call| #[trigger]
            calls_of(rows_with_all(rows, from, tos)).contains(c) == (calls_of(rows).contains(c) || (
            c.0 == from && tos.contains(c.1))) by {
            crate::seqs::pushed_members(less, tos.last(), c.1);
            assert(calls_of(before).contains(c) == (calls_of(rows).contains(c) || (c.0 == from
                && less.contains(c.1))));
        }
    }
}

/// The keys that are credited are those listed.
proof fn credited_members(defs: Seq<DefinitionView>, to: SymbolView, key: Seq<char>)
    ensures
        credited_keys(defs, to).contains(key) == credits(defs, to, key),
{
    names_listed(defs, to.name, key);
    assert(seq![to.text()][0] == to.text());
}

proof fn names_listed(defs: Seq<DefinitionView>, name: Seq<char>, key: Seq<char>)
    ensures
        keys_named(defs, name).contains(key) == named_key(defs, name, key),
    decreases defs.len(),
{
    if defs.len() > 0 {
        let less = defs.drop_last();
        names_listed(less, name, key);
        index_step(less, defs.last(), name, key);
        assert(defs =~= less.push(defs.last()));
        crate::seqs::pushed_members(keys_named(less, name), defs.last().key(), key);
    }
}

/// A token of a macro in test code adds no call to the graph that may accuse
/// and counts as no call site, so it can never create a finding.
pub proof fn test_tokens_accuse_nobody(
    defs: Seq<DefinitionView>,
    edges: Seq<EdgeView>,
    e: EdgeView,
    key: Seq<char>,
)
    requires
        e.in_test,
        !e.kind.witnessed(),
    ensures
        calls_from(defs, edges.push(e), true) == calls_from(defs, edges, true),
        sites_from(defs, edges.push(e), key) == sites_from(defs, edges, key),
{
    let longer = edges.push(e);
    assert(longer.drop_last() =~= edges);
    assert forall|c: Call|
        calls_from(defs, longer, true).contains(c) == calls_from(defs, edges, true).contains(c) by {
        calls_step(defs, longer, edges.len() as int, true, c);
        assert(longer.take(edges.len() as int) =~= edges);
        assert(longer.take(edges.len() as int + 1) =~= longer);
    }
    assert(calls_from(defs, longer, true) =~= calls_from(defs, edges, true));
}

/// A call that production code makes is always seen, from a token too: it
/// joins the graph and counts as a production call site.
pub proof fn production_calls_are_seen(
    defs: Seq<DefinitionView>,
    edges: Seq<EdgeView>,
    i: int,
    key: Seq<char>,
)
    requires
        0 <= i < edges.len(),
        !edges[i].in_test,
        credits(defs, edges[i].to, key),
    ensures
        calls_from(defs, edges, true).contains((edges[i].from.text(), key)),
        sites_from(defs, edges, key).prod > 0,
    decreases edges.len(),
{
    assert(edges[i].from.text() == (edges[i].from.text(), key).0);
    if i < edges.len() - 1 {
        let short = edges.drop_last();
        assert(short[i] == edges[i]);
        production_calls_are_seen(defs, short, i, key);
    }
}

/// One more production call, be it a token of a macro, adds calls to the
/// graph and production call sites, and no test call site.
pub proof fn a_production_call_only_adds(
    defs: Seq<DefinitionView>,
    edges: Seq<EdgeView>,
    e: EdgeView,
    key: Seq<char>,
)
    requires
        !e.in_test,
    ensures
        calls_from(defs, edges, true).subset_of(calls_from(defs, edges.push(e), true)),
        sites_from(defs, edges.push(e), key).prod >= sites_from(defs, edges, key).prod,
        sites_from(defs, edges.push(e), key).test == sites_from(defs, edges, key).test,
{
    let longer = edges.push(e);
    assert(longer.drop_last() =~= edges);
    assert forall|c: Call| calls_from(defs, edges, true).contains(c) implies calls_from(
        defs,
        longer,
        true,
    ).contains(c) by {
        calls_step(defs, longer, edges.len() as int, true, c);
        assert(longer.take(edges.len() as int) =~= edges);
        assert(longer.take(edges.len() as int + 1) =~= longer);
    }
}

impl Scan {
    /// The scan of what a frontend read, with what the project says of
    /// itself.
    pub fn from_extract(extract: Extract, facts: Facts) -> (r: Scan)
        ensures
            r@.defs == extract@.definitions,
            r@.edges == calls_from(extract@.definitions, extract@.edges, true),
            r@.guessed == guesses_from(extract@.definitions, extract@.edges),
            r@.all_edges == calls_from(extract@.definitions, extract@.edges, false),
            r.edges.rows() == rows_from(extract@.definitions, extract@.edges, true),
            r.all_edges.rows() == rows_from(extract@.definitions, extract@.edges, false),
            forall|k: Seq<char>| #[trigger]
                sites(r@, k) == sites_from(extract@.definitions, extract@.edges, k),
            r@.reexported == extract@.reexported,
            r@.config == facts.config@,
            r@.application == facts.application,
            r@.entry_points == texts(facts.entry_points@),
            r@.entry_files == texts(facts.entry_files@),
            r.crate_roots == extract.crate_roots,
            r.nominal_findings is None,
            r.project_description == facts.description,
    {
        let ghost defs = extract@.definitions;
        let ghost all = extract@.edges;
        let index = Index::build(&extract.definitions);
        let mut edges = CallGraph::new();
        let mut witnessed = CallGraph::new();
        let mut all_edges = CallGraph::new();
        let mut calls: NameMap<CallSites> = NameMap::new();
        let list = &extract.edges;
        let mut i: usize = 0;
        while i < list.len()
            invariant
                0 <= i <= list@.len(),
                all == views(list@),
                index.of_defs(defs),
                edges.rows() == rows_from(defs, all.take(i as int), true),
                all_edges.rows() == rows_from(defs, all.take(i as int), false),
                forall|c: Call| #[trigger]
                    edges@.contains(c) == calls_from(defs, all.take(i as int), true).contains(c),
                forall|c: Call| #[trigger]
                    witnessed@.contains(c) == witnessed_from(defs, all.take(i as int)).contains(c),
                forall|c: Call| #[trigger]
                    all_edges@.contains(c) == calls_from(
                        defs,
                        all.take(i as int),
                        false,
                    ).contains(c),
                forall|k: Seq<char>| #[trigger]
                    sites_in(calls@, k) == sites_from(defs, all.take(i as int), k),
            decreases list@.len() - i,
        {
            let e = &list[i];
            let targets = index.credited(&e.to, Ghost(defs));
            let from = e.from.to_string();
            proof {
                assert(all[i as int] == e@);
                assert(all.take(i + 1).drop_last() =~= all.take(i as int));
                assert forall|k: Seq<char>| #[trigger] targets@.contains(k) implies sites_in(
                    calls@,
                    k,
                ).prod < usize::MAX && sites_in(calls@, k).test < usize::MAX by {
                    sites_bounded(defs, all.take(i as int), k);
                }
            }
            let ghost strict = edges@;
            let ghost shown = witnessed@;
            let ghost loose = all_edges@;
            record(&mut all_edges, from.as_str(), &targets);
            if e.kind.can_create_finding() {
                record(&mut witnessed, from.as_str(), &targets);
            }
            if !e.in_test || e.kind.can_create_finding() {
                record(&mut edges, from.as_str(), &targets);
                tally(&mut calls, &targets, e);
            }
            proof {
                assert forall|c: Call| #[trigger]
                    edges@.contains(c) == calls_from(defs, all.take(i + 1), true).contains(c) by {
                    calls_step(defs, all, i as int, true, c);
                    assert(strict.contains(c) == calls_from(
                        defs,
                        all.take(i as int),
                        true,
                    ).contains(c));
                }
                assert forall|c: Call| #[trigger]
                    witnessed@.contains(c) == witnessed_from(defs, all.take(i + 1)).contains(
                    c,
                ) by {
                    witnessed_step(defs, all, i as int, c);
                    assert(shown.contains(c) == witnessed_from(
                        defs,
                        all.take(i as int),
                    ).contains(c));
                }
                assert forall|c: Call| #[trigger]
                    all_edges@.contains(c) == calls_from(
                        defs,
                        all.take(i + 1),
                        false,
                    ).contains(c) by {
                    calls_step(defs, all, i as int, false, c);
                    assert(loose.contains(c) == calls_from(
                        defs,
                        all.take(i as int),
                        false,
                    ).contains(c));
                }
            }
            i += 1;
        }
        proof {
            assert(all.take(all.len() as int) =~= all);
            assert(edges@ =~= calls_from(defs, all, true));
            assert(witnessed@ =~= witnessed_from(defs, all));
            assert(all_edges@ =~= calls_from(defs, all, false));
        }
        let guessed = edges.without(&witnessed);
        let r = Scan {
            defs: extract.definitions,
            calls,
            edges,
            guessed,
            all_edges,
            crate_roots: extract.crate_roots,
            application: facts.application,
            entry_points: facts.entry_points,
            entry_files: facts.entry_files,
            config: facts.config,
            reexported: extract.reexported,
            nominal_findings: None,
            project_description: facts.description,
        };
        proof {
            assert forall|k: Seq<char>| #[trigger]
                sites(r@, k) == sites_from(defs, all, k) by {
                assert(sites_in(calls@, k) == sites_from(defs, all, k));
            }
        }
        r
    }
}

} // verus!
