//! Why the analysis concluded what it did of one function, and the whole
//! graph as a picture.

use vstd::prelude::*;

use crate::findings::alive;
use crate::findings::always_live;
use crate::findings::clear_keys_have_one_owner;
use crate::findings::finding_of;
use crate::findings::is_always_live;
use crate::findings::key_count;
use crate::findings::production_names;
use crate::findings::production_roots;
use crate::findings::reachable;
use crate::findings::reached_by_tests;
use crate::findings::report_members;
use crate::findings::tested;
use crate::findings::unreachable_code;
use crate::findings::FindingView;
use crate::findings::KeyCounts;
use crate::graph::Row;
use crate::ir::Definition;
use crate::ir::DefinitionView;
use crate::names::NameSet;
use crate::order::keyed;
use crate::order::less;
use crate::order::rising;
use crate::order::sorted_unique;
use crate::order::text_less;
use crate::order::texts_less;
use crate::order::Keyed;
use crate::scan::sites;
use crate::scan::Scan;
use crate::scan::ScanView;
use crate::text::same;
use crate::text::texts;

verus! {

// ---------------------------------------------------------------------------
// The picture
// ---------------------------------------------------------------------------

/// The line that draws one definition.
pub open spec fn dot_node(s: ScanView, d: DefinitionView) -> Seq<char> {
    if d.in_test || d.is_test_fn {
        seq![]
    } else {
        "  \""@ + d.key() + "\" [style=filled,fillcolor=\""@ + (if alive(s).contains(d.key()) {
            "#e8f0e8"@
        } else {
            "#ffd6d6"@
        }) + "\"];\n"@
    }
}

pub open spec fn dot_nodes(s: ScanView, defs: Seq<DefinitionView>) -> Seq<char>
    decreases defs.len(),
{
    if defs.len() == 0 {
        seq![]
    } else {
        dot_nodes(s, defs.drop_last()) + dot_node(s, defs.last())
    }
}

/// The line that draws one call, of a production definition.
pub open spec fn dot_call(s: ScanView, from: Seq<char>, to: Seq<char>) -> Seq<char> {
    if key_count(s.defs, to) > 0 {
        "  \""@ + from + "\" -> \""@ + to + "\";\n"@
    } else {
        seq![]
    }
}

pub open spec fn dot_calls(s: ScanView, from: Seq<char>, tos: Seq<Seq<char>>) -> Seq<char>
    decreases tos.len(),
{
    if tos.len() == 0 {
        seq![]
    } else {
        dot_calls(s, from, tos.drop_last()) + dot_call(s, from, tos.last())
    }
}

pub open spec fn dot_rows(s: ScanView, rows: Seq<Row>) -> Seq<char>
    decreases rows.len(),
{
    if rows.len() == 0 {
        seq![]
    } else {
        dot_rows(s, rows.drop_last()) + (if rows.last().0.len() == 0 {
            seq![]
        } else {
            dot_calls(s, rows.last().0, rows.last().1)
        })
    }
}

/// The call graph in the DOT language, unreachable definitions marked.
pub fn to_dot(scan: &Scan) -> (r: String)
    ensures
        r@ == "digraph calls {\n  rankdir=LR;\n  node [shape=box,fontsize=10];\n"@ + dot_nodes(
            scan@,
            scan@.defs,
        ) + dot_rows(scan@, scan.edges.rows()) + "}\n"@,
{
    let prod = reachable(scan, &production_roots(scan));
    let counts = KeyCounts::of(&scan.defs);
    let mut out = "digraph calls {\n  rankdir=LR;\n  node [shape=box,fontsize=10];\n".to_owned();
    let ghost s = scan@;
    let ghost head = out@;
    let mut i: usize = 0;
    while i < scan.defs.len()
        invariant
            0 <= i <= scan.defs@.len(),
            s == scan@,
            prod@ == alive(s),
            out@ == head + dot_nodes(s, s.defs.take(i as int)),
        decreases scan.defs@.len() - i,
    {
        let d = &scan.defs[i];
        let ghost before = out@;
        proof {
            assert(s.defs[i as int] == d@);
            assert(s.defs.take(i + 1).drop_last() =~= s.defs.take(i as int));
        }
        if !d.in_test && !d.is_test_fn {
            let key = d.key();
            out.append("  \"");
            out.append(key.as_str());
            out.append("\" [style=filled,fillcolor=\"");
            if prod.contains(key.as_str()) {
                out.append("#e8f0e8");
            } else {
                out.append("#ffd6d6");
            }
            out.append("\"];\n");
        }
        assert(out@ =~= before + dot_node(s, d@));
        i += 1;
    }
    assert(s.defs.take(s.defs.len() as int) =~= s.defs);
    let ghost nodes = out@;
    let ghost rows = scan.edges.rows();
    let n: usize = scan.edges.len();
    let mut k: usize = 0;
    while k < n
        invariant
            0 <= k <= n,
            n == rows.len(),
            rows == scan.edges.rows(),
            s == scan@,
            forall|key: Seq<char>| #[trigger] counts.count(key) == key_count(s.defs, key),
            out@ == nodes + dot_rows(s, rows.take(k as int)),
        decreases n - k,
    {
        let (from, tos) = scan.edges.row(k);
        let ghost before = out@;
        proof {
            assert(rows.take(k + 1).drop_last() =~= rows.take(k as int));
        }
        if !same(from.as_str(), "") {
            let ghost list = texts(tos@);
            let mut j: usize = 0;
            while j < tos.len()
                invariant
                    0 <= j <= tos@.len(),
                    list == texts(tos@),
                    s == scan@,
                    forall|key: Seq<char>| #[trigger] counts.count(key) == key_count(s.defs, key),
                    out@ == before + dot_calls(s, from@, list.take(j as int)),
                decreases tos@.len() - j,
            {
                let to = &tos[j];
                let ghost so_far = out@;
                proof {
                    assert(list.take(j + 1).drop_last() =~= list.take(j as int));
                }
                if counts.get(to.as_str()) > 0 {
                    out.append("  \"");
                    out.append(from.as_str());
                    out.append("\" -> \"");
                    out.append(to.as_str());
                    out.append("\";\n");
                }
                assert(out@ =~= so_far + dot_call(s, from@, to@));
                assert(out@ =~= before + dot_calls(s, from@, list.take(j + 1)));
                j += 1;
            }
            assert(list.take(list.len() as int) =~= list);
        }
        proof {
            reveal_strlit("");
            assert(from@.len() == 0 ==> from@ =~= ""@);
            assert(out@ =~= nodes + dot_rows(s, rows.take(k + 1)));
        }
        k += 1;
    }
    assert(rows.take(rows.len() as int) =~= rows);
    out.append("}\n");
    out
}

// ---------------------------------------------------------------------------
// Evidence
// ---------------------------------------------------------------------------

/// Someone who calls the function, and whether the program reaches them.
#[derive(Debug)]
pub struct Caller {
    pub name: String,
    pub live: bool,
}

/// A caller as the text that it is ordered by.
pub open spec fn caller_key(name: Seq<char>, live: bool) -> Seq<Seq<char>> {
    seq![
        name,
        if live {
            "1"@
        } else {
            "0"@
        },
    ]
}

impl Keyed for Caller {
    open spec fn key(&self) -> Seq<Seq<char>> {
        caller_key(self.name@, self.live)
    }

    fn before(&self, other: &Self) -> (r: bool) {
        proof {
            reveal_with_fuel(texts_less, 3);
            reveal_with_fuel(text_less, 2);
            reveal_strlit("0");
            reveal_strlit("1");
            crate::order::text_less_irreflexive(self.name@);
            crate::order::text_less_irreflexive("0"@);
            crate::order::text_less_irreflexive("1"@);
            let a = self.key();
            let b = other.key();
            assert(a.skip(1)[0] == a[1] && b.skip(1)[0] == b[1]);
        }
        less(self.name.as_str(), other.name.as_str()) || (same(
            self.name.as_str(),
            other.name.as_str(),
        ) && !self.live && other.live)
    }
}

/// Why the analysis concluded what it did of one function.
pub struct Evidence {
    pub name: String,
    /// Where it is defined: file and line.
    pub defined: Vec<(String, usize)>,
    pub in_production_set: bool,
    pub in_test_set: bool,
    pub is_root: bool,
    pub root_reason: &'static str,
    /// Who calls it, in order.
    pub callers: Vec<Caller>,
    pub prod_call_sites: usize,
    pub test_call_sites: usize,
    pub suppressed: Option<&'static str>,
}

/// `name` is the bare name or the key of the definition.
pub open spec fn answers_to(d: DefinitionView, name: Seq<char>) -> bool {
    d.id.name == name || d.key() == name
}

/// The definitions that `name` may mean.
pub open spec fn meant(s: ScanView, name: Seq<char>) -> Seq<DefinitionView> {
    s.defs.filter(|d: DefinitionView| answers_to(d, name))
}

/// The key under which the graph knows `name`: that of the first definition
/// that it may mean, or the name itself.
pub open spec fn key_of(s: ScanView, name: Seq<char>) -> Seq<char> {
    let defs = meant(s, name);
    if defs.len() > 0 {
        defs[0].key()
    } else {
        name
    }
}

/// How a caller is named.
pub open spec fn caller_label(from: Seq<char>) -> Seq<char> {
    if from.len() == 0 {
        "<module level>"@
    } else {
        from
    }
}

/// Why a function counts as a root, or that it does not.
pub open spec fn root_reason_of(s: ScanView, name: Seq<char>) -> Seq<char> {
    let defs = meant(s, name);
    if defs.len() > 0 && defs[0].is_ffi {
        "#[no_mangle] / extern"@
    } else if defs.len() > 0 && defs[0].trait_impl {
        "trait impl method (dynamic dispatch)"@
    } else if defs.len() > 0 && s.reexported.contains(defs[0].id.name) {
        "re-exported at crate root"@
    } else if defs.len() > 0 && defs[0].is_pub && !s.application {
        "public API of a library crate"@
    } else if name == "main"@ {
        "program entry point"@
    } else {
        "not a root"@
    }
}

/// Why a function was not judged, where it was not.
pub open spec fn suppression_of(s: ScanView, name: Seq<char>) -> Option<Seq<char>> {
    let defs = meant(s, name);
    if defs.len() == 0 {
        Some("no definition found in the scanned crates"@)
    } else if defs[0].in_test {
        Some("defined in test code"@)
    } else if defs[0].allowed_dead {
        Some("#[allow(dead_code)]"@)
    } else if defs[0].trait_impl {
        Some("trait impl method — dispatch is invisible here"@)
    } else if key_count(s.defs, key_of(s, name)) > 1 {
        Some("name is not unique in production; edges cannot be attributed"@)
    } else if always_live(defs[0].id.name) {
        Some("conventional entry point"@)
    } else {
        None
    }
}

/// The text behind an optional literal.
pub open spec fn opt_lit(s: Option<&'static str>) -> Option<Seq<char>> {
    match s {
        Some(t) => Some(t@),
        None => None,
    }
}

/// Where definitions stand.
pub open spec fn places(defs: Seq<DefinitionView>) -> Seq<(Seq<char>, nat)> {
    defs.map_values(|d: DefinitionView| (d.file, d.line))
}

/// The model of a list of places.
pub open spec fn place_views(v: Seq<(String, usize)>) -> Seq<(Seq<char>, nat)> {
    v.map_values(|p: (String, usize)| (p.0@, p.1 as nat))
}

/// Some row of the graph has `key` among its calls, and its caller is shown
/// with the given label and life.
pub open spec fn shown_caller(
    s: ScanView,
    rows: Seq<Row>,
    key: Seq<char>,
    k: Seq<Seq<char>>,
) -> bool {
    exists|i: int|
        0 <= i < rows.len() && (#[trigger] rows[i]).1.contains(key) && caller_key(
            caller_label(rows[i].0),
            alive(s).contains(rows[i].0),
        ) == k
}

fn root_reason(scan: &Scan, d: Option<&Definition>, name: &str) -> (r: &'static str)
    requires
        d is None ==> meant(scan@, name@).len() == 0,
        d is Some ==> meant(scan@, name@).len() > 0 && meant(scan@, name@)[0] == d->0@,
    ensures
        r@ == root_reason_of(scan@, name@),
{
    if let Some(d) = d {
        if d.is_ffi {
            return "#[no_mangle] / extern";
        }
        if d.trait_impl {
            return "trait impl method (dynamic dispatch)";
        }
        if scan.reexported.contains(d.name()) {
            return "re-exported at crate root";
        }
        if d.is_pub && !scan.application {
            return "public API of a library crate";
        }
    }
    if same(name, "main") {
        "program entry point"
    } else {
        "not a root"
    }
}

fn suppression(scan: &Scan, d: Option<&Definition>, key: &str, name: &str) -> (r: Option<
    &'static str,
>)
    requires
        d is None ==> meant(scan@, name@).len() == 0,
        d is Some ==> meant(scan@, name@).len() > 0 && meant(scan@, name@)[0] == d->0@,
        key@ == key_of(scan@, name@),
    ensures
        opt_lit(r) == suppression_of(scan@, name@),
{
    match d {
        None => Some("no definition found in the scanned crates"),
        Some(d) => if d.in_test {
            Some("defined in test code")
        } else if d.allowed_dead {
            Some("#[allow(dead_code)]")
        } else if d.trait_impl {
            Some("trait impl method — dispatch is invisible here")
        } else if KeyCounts::of(&scan.defs).get(key) > 1 {
            Some("name is not unique in production; edges cannot be attributed")
        } else if is_always_live(d.name()) {
            Some("conventional entry point")
        } else {
            None
        },
    }
}

fn callers_of(scan: &Scan, prod: &NameSet, key: &str) -> (r: Vec<Caller>)
    requires
        prod@ == alive(scan@),
    ensures
        rising(r@),
        forall|k: Seq<Seq<char>>| #[trigger]
            keyed(r@, k) == shown_caller(scan@, scan.edges.rows(), key@, k),
{
    let ghost s = scan@;
    let ghost rows = scan.edges.rows();
    let mut found: Vec<Caller> = Vec::new();
    let n: usize = scan.edges.len();
    let mut i: usize = 0;
    while i < n
        invariant
            0 <= i <= n,
            n == rows.len(),
            rows == scan.edges.rows(),
            s == scan@,
            prod@ == alive(s),
            forall|k: Seq<Seq<char>>| #[trigger]
                keyed(found@, k) == shown_caller(s, rows.take(i as int), key@, k),
        decreases n - i,
    {
        let (from, tos) = scan.edges.row(i);
        let ghost before = found@;
        if crate::text::lists(tos, key) {
            let live = prod.contains(from.as_str());
            let name = if same(from.as_str(), "") {
                "<module level>".to_owned()
            } else {
                from.clone()
            };
            proof {
                reveal_strlit("");
                assert(from@.len() == 0 ==> from@ =~= ""@);
            }
            found.push(Caller { name, live });
        }
        proof {
            assert forall|k: Seq<Seq<char>>| #[trigger]
                keyed(found@, k) == shown_caller(s, rows.take(i + 1), key@, k) by {
                assert(keyed(before, k) == shown_caller(s, rows.take(i as int), key@, k));
                shown_step(s, rows, key@, k, i as int);
                if rows[i as int].1.contains(key@) {
                    let last = found@.len() - 1;
                    assert(found@[last].key() == caller_key(
                        caller_label(rows[i as int].0),
                        alive(s).contains(rows[i as int].0),
                    ));
                    if keyed(before, k) {
                        let j = choose|j: int|
                            0 <= j < before.len() && (#[trigger] before[j]).key() == k;
                        assert(found@[j].key() == k);
                    }
                    if keyed(found@, k) {
                        let j = choose|j: int|
                            0 <= j < found@.len() && (#[trigger] found@[j]).key() == k;
                        if j < last {
                            assert(before[j].key() == k);
                        }
                    }
                }
            }
        }
        i += 1;
    }
    assert(rows.take(rows.len() as int) =~= rows);
    sorted_unique(found)
}

proof fn shown_step(s: ScanView, rows: Seq<Row>, key: Seq<char>, k: Seq<Seq<char>>, i: int)
    requires
        0 <= i < rows.len(),
    ensures
        shown_caller(s, rows.take(i + 1), key, k) == (shown_caller(s, rows.take(i), key, k) || (
        rows[i].1.contains(key) && caller_key(
            caller_label(rows[i].0),
            alive(s).contains(rows[i].0),
        ) == k)),
{
    let short = rows.take(i);
    let long = rows.take(i + 1);
    assert(long[i] == rows[i]);
    if shown_caller(s, short, key, k) {
        let j = choose|j: int|
            0 <= j < short.len() && (#[trigger] short[j]).1.contains(key) && caller_key(
                caller_label(short[j].0),
                alive(s).contains(short[j].0),
            ) == k;
        assert(long[j].1.contains(key));
    }
    if shown_caller(s, long, key, k) {
        let j = choose|j: int|
            0 <= j < long.len() && (#[trigger] long[j]).1.contains(key) && caller_key(
                caller_label(long[j].0),
                alive(s).contains(long[j].0),
            ) == k;
        if j < i {
            assert(short[j].1.contains(key));
        }
    }
}

/// The record says of the name what the scan knows of it.
pub open spec fn records(s: ScanView, name: Seq<char>, r: Evidence) -> bool {
    &&& r.name@ == name
    &&& place_views(r.defined@) == places(meant(s, name))
    &&& r.in_production_set == alive(s).contains(key_of(s, name))
    &&& r.in_test_set == tested(s).contains(key_of(s, name))
    &&& r.is_root == production_names(s).contains(key_of(s, name))
    &&& r.root_reason@ == root_reason_of(s, name)
    &&& r.prod_call_sites as nat == sites(s, key_of(s, name)).prod
    &&& r.test_call_sites as nat == sites(s, key_of(s, name)).test
    &&& opt_lit(r.suppressed) == suppression_of(s, name)
}

/// The record that a developer needs to confirm or refute what the analysis
/// says of `name`.
pub fn evidence(scan: &Scan, name: &str) -> (r: Evidence)
    ensures
        records(scan@, name@, r),
        r.name@ == name@,
        place_views(r.defined@) == places(meant(scan@, name@)),
        r.in_production_set == alive(scan@).contains(key_of(scan@, name@)),
        r.in_test_set == tested(scan@).contains(key_of(scan@, name@)),
        r.is_root == production_names(scan@).contains(key_of(scan@, name@)),
        r.root_reason@ == root_reason_of(scan@, name@),
        rising(r.callers@),
        forall|k: Seq<Seq<char>>| #[trigger]
            keyed(r.callers@, k) == shown_caller(
                scan@,
                scan.edges.rows(),
                key_of(scan@, name@),
                k,
            ),
        r.prod_call_sites as nat == sites(scan@, key_of(scan@, name@)).prod,
        r.test_call_sites as nat == sites(scan@, key_of(scan@, name@)).test,
        opt_lit(r.suppressed) == suppression_of(scan@, name@),
{
    let ghost s = scan@;
    let ghost asked = |d: DefinitionView| answers_to(d, name@);
    let roots = production_roots(scan);
    let prod = reachable(scan, &roots);
    let test = reached_by_tests(scan);
    let mut defined: Vec<(String, usize)> = Vec::new();
    let mut first: Option<&Definition> = None;
    let mut key = name.to_owned();
    let mut i: usize = 0;
    proof {
        reveal(Seq::filter);
        assert(place_views(defined@) =~= places(s.defs.take(0).filter(asked)));
    }
    while i < scan.defs.len()
        invariant
            0 <= i <= scan.defs@.len(),
            s == scan@,
            asked == (|d: DefinitionView| answers_to(d, name@)),
            place_views(defined@) == places(s.defs.take(i as int).filter(asked)),
            match first {
                None => s.defs.take(i as int).filter(asked).len() == 0 && key@ == name@,
                Some(d) => s.defs.take(i as int).filter(asked).len() > 0 && s.defs.take(
                    i as int,
                ).filter(asked)[0] == d@ && key@ == d@.key(),
            },
        decreases scan.defs@.len() - i,
    {
        let d = &scan.defs[i];
        proof {
            assert(s.defs[i as int] == d@);
            crate::seqs::filter_step(s.defs, asked, i as int);
        }
        let own = d.key();
        if same(d.name(), name) || same(own.as_str(), name) {
            proof {
                crate::seqs::map_push(
                    s.defs.take(i as int).filter(asked),
                    |x: DefinitionView| (x.file, x.line),
                    d@,
                );
            }
            let ghost before = defined@;
            let place = (d.file.clone(), d.line);
            defined.push(place);
            proof {
                crate::seqs::map_push(before, |p: (String, usize)| (p.0@, p.1 as nat), place);
            }
            if first.is_none() {
                first = Some(d);
                key = own;
            }
        }
        i += 1;
    }
    assert(s.defs.take(s.defs.len() as int) =~= s.defs);
    let mut prod_call_sites: usize = 0;
    let mut test_call_sites: usize = 0;
    if let Some(c) = scan.calls.get(key.as_str()) {
        prod_call_sites = c.prod;
        test_call_sites = c.test;
    }
    Evidence {
        name: name.to_owned(),
        in_production_set: prod.contains(key.as_str()),
        in_test_set: test.contains(key.as_str()),
        is_root: roots.contains(key.as_str()),
        root_reason: root_reason(scan, first, name),
        callers: callers_of(scan, &prod, key.as_str()),
        prod_call_sites,
        test_call_sites,
        suppressed: suppression(scan, first, key.as_str(), name),
        defined,
    }
}

/// What the evidence says of a name agrees with the findings, wherever all
/// that the name may mean is production code under one key: of what is reported
/// it says that nothing suppresses it, that tests reach it and the program does
/// not, and how often it is called; what it calls suppressed is not reported;
/// and what it calls a root the program reaches.
pub proof fn evidence_agrees_with_findings(s: ScanView, name: Seq<char>, f: FindingView)
    requires
        forall|i: int|
            0 <= i < s.defs.len() && answers_to(#[trigger] s.defs[i], name) ==> !s.defs[i].in_test
                && s.defs[i].key() == key_of(s, name),
    ensures
        unreachable_code(s).contains(f) && f.name == name ==> {
            &&& suppression_of(s, name) is None
            &&& !alive(s).contains(key_of(s, name))
            &&& tested(s).contains(key_of(s, name))
            &&& sites(s, key_of(s, name)).prod == f.prod_calls
            &&& sites(s, key_of(s, name)).test == f.test_calls
        },
        suppression_of(s, name) is Some ==> !(unreachable_code(s).contains(f) && f.name == name),
        production_names(s).contains(key_of(s, name)) ==> alive(s).contains(key_of(s, name)),
{
    let key = key_of(s, name);
    if production_names(s).contains(key) {
        crate::graph::roots_are_reached(s.edges, production_names(s), key);
    }
    if unreachable_code(s).contains(f) && f.name == name {
        let asked = |d: DefinitionView| answers_to(d, name);
        report_members(s, |d: DefinitionView| crate::findings::unreachable(s, d), f);
        let i = choose|i: int|
            0 <= i < s.defs.len() && crate::findings::unreachable(s, #[trigger] s.defs[i])
                && finding_of(s, s.defs[i]) == f;
        let d = s.defs[i];
        assert(answers_to(d, name));
        assert(s.defs.contains(d));
        crate::seqs::filter_members(s.defs, asked, d);
        let defs = meant(s, name);
        assert(defs.contains(d));
        let first = defs[0];
        assert(defs.contains(first));
        crate::seqs::filter_members(s.defs, asked, first);
        let j = choose|j: int| 0 <= j < s.defs.len() && s.defs[j] == first;
        assert(answers_to(s.defs[j], name));
        if i < j {
            clear_keys_have_one_owner(s.defs, i, j);
        } else if j < i {
            clear_keys_have_one_owner(s.defs, j, i);
        }
        assert(first == d);
    }
}

} // verus!
