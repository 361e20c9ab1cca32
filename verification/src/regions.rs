//! Unreachable functions grouped into regions.
//!
//! Forty single functions are noise; three subsystems with a way in each are
//! a work item. A region is a connected part of the call graph on what is
//! unreachable.

use vstd::prelude::*;

use crate::findings::never_run_graph;
use crate::findings::unreachable_code;
use crate::findings::Confidence;
use crate::findings::Finding;
use crate::findings::FindingView;
use crate::graph::distance;
use crate::graph::linked;
use crate::graph::reach;
use crate::graph::reaches;
use crate::graph::Call;
use crate::graph::CallGraph;
use crate::ir::views;
use crate::names::NameMap;
use crate::names::NameSet;
use crate::order::arrange;
use crate::order::arranged;
use crate::order::less;
use crate::order::sort_texts;
use crate::order::sorted_set;
use crate::order::text_less;
use crate::order::Precedence;
use crate::scan::Scan;
use crate::scan::ScanView;
use crate::text::same;
use crate::text::texts;

verus! {

/// What a region is.
#[verifier::ext_equal]
pub struct RegionView {
    pub entry: FindingView,
    pub members: Seq<FindingView>,
    pub size: nat,
    pub files: Seq<Seq<char>>,
    pub confidence: Confidence,
}

/// A connected group of unreachable functions.
#[derive(Debug)]
pub struct Region {
    /// The frontier, where production reachability breaks: the function to
    /// look at. The rest becomes reachable, or goes, with it.
    pub entry: Finding,
    /// The other functions, nearest to the entry first; at the same distance
    /// those that tests call most come first, then the names decide.
    pub members: Vec<Finding>,
    pub size: usize,
    /// The files that the region spans.
    pub files: Vec<String>,
    /// How far the way in is to be trusted as dead.
    pub confidence: Confidence,
}

impl View for Region {
    type V = RegionView;

    open spec fn view(&self) -> RegionView {
        RegionView {
            entry: self.entry@,
            members: views(self.members@),
            size: self.size as nat,
            files: texts(self.files@),
            confidence: self.confidence,
        }
    }
}

/// The names of findings.
pub open spec fn names_of(found: Seq<FindingView>) -> Seq<Seq<char>> {
    found.map_values(|f: FindingView| f.name)
}

/// The files of findings.
pub open spec fn files_of(found: Seq<FindingView>) -> Seq<Seq<char>> {
    found.map_values(|f: FindingView| f.file)
}

/// Most test calls first, then by name.
pub open spec fn by_calls_then_name() -> spec_fn(FindingView, FindingView) -> bool {
    |a: FindingView, b: FindingView|
        a.test_calls > b.test_calls || (a.test_calls == b.test_calls && text_less(a.name, b.name))
}

/// Most test calls first, then by name.
pub struct ByCallsThenName;

impl Precedence<Finding> for ByCallsThenName {
    open spec fn ahead(&self, a: Finding, b: Finding) -> bool {
        by_calls_then_name()(a@, b@)
    }

    fn goes_ahead(&self, a: &Finding, b: &Finding) -> (r: bool) {
        a.test_calls > b.test_calls || (a.test_calls == b.test_calls && less(
            a.name.as_str(),
            b.name.as_str(),
        ))
    }
}

/// Nearest to `entry` first.
pub open spec fn by_distance(links: Set<Call>, entry: Seq<char>) -> spec_fn(
    FindingView,
    FindingView,
) -> bool {
    |a: FindingView, b: FindingView|
        distance(links, entry, a.name) < distance(links, entry, b.name)
}

/// Nearest first, as `far` tells it.
pub struct ByDistance {
    pub far: NameMap<usize>,
}

/// How far `name` is away, as `far` tells it.
pub open spec fn told_distance(far: Map<Seq<char>, usize>, name: Seq<char>) -> usize {
    if far.contains_key(name) {
        far[name]
    } else {
        usize::MAX
    }
}

impl ByDistance {
    fn distance_of(&self, name: &str) -> (r: usize)
        ensures
            r == told_distance(self.far@, name@),
    {
        match self.far.get(name) {
            Some(n) => *n,
            None => usize::MAX,
        }
    }
}

impl Precedence<Finding> for ByDistance {
    open spec fn ahead(&self, a: Finding, b: Finding) -> bool {
        told_distance(self.far@, a.name@) < told_distance(self.far@, b.name@)
    }

    fn goes_ahead(&self, a: &Finding, b: &Finding) -> (r: bool) {
        self.distance_of(a.name.as_str()) < self.distance_of(b.name.as_str())
    }
}

/// Largest region first.
pub open spec fn by_size() -> spec_fn(RegionView, RegionView) -> bool {
    |a: RegionView, b: RegionView| a.size > b.size
}

/// Largest region first.
pub struct BySize;

impl Precedence<Region> for BySize {
    open spec fn ahead(&self, a: Region, b: Region) -> bool {
        a.size > b.size
    }

    fn goes_ahead(&self, a: &Region, b: &Region) -> (r: bool) {
        a.size > b.size
    }
}

/// No other unreachable function calls `name`.
pub open spec fn frontier(calls: Set<Call>, dead: Set<Seq<char>>, name: Seq<char>) -> bool {
    forall|a: Seq<char>|
        #![trigger calls.contains((a, name))]
        dead.contains(a) && a != name ==> !calls.contains((a, name))
}

/// The first of `ranked` that is at the frontier, or 0 where none is: then
/// they call each other in a cycle.
pub open spec fn way_in(calls: Set<Call>, dead: Set<Seq<char>>, ranked: Seq<FindingView>) -> int
    decreases ranked.len(),
{
    if ranked.len() == 0 {
        0
    } else {
        let before = ranked.drop_last();
        let i = way_in(calls, dead, before);
        if 0 <= i < before.len() && frontier(calls, dead, before[i].name) {
            i
        } else if frontier(calls, dead, ranked.last().name) {
            ranked.len() - 1
        } else {
            0
        }
    }
}

/// The findings of a group, in order of rank.
pub open spec fn ranked(found: Seq<FindingView>, group: Set<Seq<char>>) -> Seq<FindingView> {
    arranged(found.filter(|f: FindingView| group.contains(f.name)), by_calls_then_name())
}

/// The region that a group of unreachable functions makes: the way in, then
/// the others, nearest to it first; those equally near stay in order of rank.
pub open spec fn region_of(
    calls: Set<Call>,
    found: Seq<FindingView>,
    group: Set<Seq<char>>,
) -> RegionView {
    let dead = names_of(found).to_set();
    let all = ranked(found, group);
    let i = way_in(calls, dead, all);
    RegionView {
        entry: all[i],
        members: arranged(all.remove(i), by_distance(linked(calls, dead), all[i].name)),
        size: all.len(),
        files: sorted_set(files_of(all).to_set()),
        confidence: all[i].confidence,
    }
}

/// What is connected with one of `names`, group by group, without those
/// already seen.
pub open spec fn groups(
    names: Seq<Seq<char>>,
    links: Set<Call>,
    seen: Set<Seq<char>>,
) -> Seq<Set<Seq<char>>>
    decreases names.len(),
{
    if names.len() == 0 {
        seq![]
    } else if seen.contains(names[0]) {
        groups(names.skip(1), links, seen)
    } else {
        let group = reach(links, set![names[0]]);
        seq![group] + groups(names.skip(1), links, seen.union(group))
    }
}

/// The groups of connected unreachable functions, in the order of their first
/// names.
pub open spec fn groups_of(s: ScanView) -> Seq<Set<Seq<char>>> {
    let dead = names_of(unreachable_code(s)).to_set();
    groups(sorted_set(dead), linked(s.edges, dead), Set::empty())
}

/// What `dead_regions` reports.
pub open spec fn regions_of(s: ScanView) -> Seq<RegionView> {
    arranged(
        groups_of(s).map_values(
            |g: Set<Seq<char>>| region_of(s.edges, unreachable_code(s), g),
        ),
        by_size(),
    )
}

proof fn way_in_none(calls: Set<Call>, dead: Set<Seq<char>>, ranked: Seq<FindingView>)
    requires
        forall|k: int|
            0 <= k < ranked.len() ==> !frontier(calls, dead, (#[trigger] ranked[k]).name),
    ensures
        way_in(calls, dead, ranked) == 0,
    decreases ranked.len(),
{
    if ranked.len() > 0 {
        let before = ranked.drop_last();
        assert forall|k: int| 0 <= k < before.len() implies !frontier(
            calls,
            dead,
            (#[trigger] before[k]).name,
        ) by {
            assert(before[k] == ranked[k]);
        }
        way_in_none(calls, dead, before);
        if before.len() > 0 {
            assert(before[0] == ranked[0]);
        }
        assert(ranked.last() == ranked[ranked.len() - 1]);
    }
}

proof fn way_in_first(
    calls: Set<Call>,
    dead: Set<Seq<char>>,
    ranked: Seq<FindingView>,
    i: int,
)
    requires
        0 <= i < ranked.len(),
        frontier(calls, dead, ranked[i].name),
        forall|k: int| 0 <= k < i ==> !frontier(calls, dead, (#[trigger] ranked[k]).name),
    ensures
        way_in(calls, dead, ranked) == i,
    decreases ranked.len(),
{
    let before = ranked.drop_last();
    if i == ranked.len() - 1 {
        assert forall|k: int| 0 <= k < before.len() implies !frontier(
            calls,
            dead,
            (#[trigger] before[k]).name,
        ) by {
            assert(before[k] == ranked[k]);
        }
        way_in_none(calls, dead, before);
        if before.len() > 0 {
            assert(before[0] == ranked[0]);
        }
    } else {
        assert forall|k: int| 0 <= k < i implies !frontier(
            calls,
            dead,
            (#[trigger] before[k]).name,
        ) by {
            assert(before[k] == ranked[k]);
        }
        assert(before[i] == ranked[i]);
        way_in_first(calls, dead, before, i);
    }
}

fn is_frontier(graph: &CallGraph, dead: &NameSet, name: &str) -> (r: bool)
    ensures
        r == frontier(graph@, dead@, name@),
{
    let names = dead.items();
    let ghost all = texts(names@);
    let mut i: usize = 0;
    while i < names.len()
        invariant
            0 <= i <= names@.len(),
            all == texts(names@),
            all == dead.list(),
            forall|k: int|
                0 <= k < i && #[trigger] all[k] != name@ ==> !graph@.contains((all[k], name@)),
        decreases names@.len() - i,
    {
        let a = names[i].as_str();
        if !same(a, name) && graph.calls(a, name) {
            proof {
                assert(dead@.contains(all[i as int]));
                assert(graph@.contains((a@, name@)));
            }
            return false;
        }
        i += 1;
    }
    proof {
        assert forall|a: Seq<char>|
            #![trigger graph@.contains((a, name@))]
            dead@.contains(a) && a != name@ implies !graph@.contains((a, name@)) by {
            let k = choose|k: int| 0 <= k < all.len() && all[k] == a;
            assert(all[k] != name@);
        }
    }
    true
}

fn find_way_in(graph: &CallGraph, dead: &NameSet, ranked: &Vec<Finding>) -> (r: usize)
    requires
        ranked@.len() > 0,
    ensures
        r < ranked@.len(),
        r == way_in(graph@, dead@, views(ranked@)),
{
    let ghost all = views(ranked@);
    let mut i: usize = 0;
    while i < ranked.len()
        invariant
            0 <= i <= ranked@.len(),
            all == views(ranked@),
            forall|k: int| 0 <= k < i ==> !frontier(graph@, dead@, (#[trigger] all[k]).name),
        decreases ranked@.len() - i,
    {
        assert(all[i as int].name == ranked@[i as int].name@);
        if is_frontier(graph, dead, ranked[i].name.as_str()) {
            proof {
                way_in_first(graph@, dead@, all, i as int);
            }
            return i;
        }
        i += 1;
    }
    proof {
        way_in_none(graph@, dead@, all);
    }
    0
}

/// The findings of a group, in order of rank.
fn rank(found: &Vec<Finding>, group: &NameSet) -> (r: Vec<Finding>)
    ensures
        views(r@) == ranked(views(found@), group@),
{
    let ghost all = views(found@);
    let ghost inside = |f: FindingView| group@.contains(f.name);
    let mut kept: Vec<Finding> = Vec::new();
    let mut i: usize = 0;
    proof {
        reveal(Seq::filter);
        assert(views(kept@) =~= all.take(0).filter(inside));
    }
    while i < found.len()
        invariant
            0 <= i <= found@.len(),
            all == views(found@),
            inside == (|f: FindingView| group@.contains(f.name)),
            views(kept@) == all.take(i as int).filter(inside),
        decreases found@.len() - i,
    {
        proof {
            assert(all[i as int] == found@[i as int]@);
            crate::seqs::filter_step(all, inside, i as int);
        }
        if group.contains(found[i].name.as_str()) {
            let f = found[i].copy();
            proof {
                crate::seqs::map_push(kept@, |x: Finding| x@, f);
            }
            kept.push(f);
        }
        i += 1;
    }
    assert(all.take(all.len() as int) =~= all);
    let r = arrange(kept, &ByCallsThenName);
    proof {
        crate::seqs::arranged_maps(
            kept@,
            |x: Finding| x@,
            |a: Finding, b: Finding| ByCallsThenName.ahead(a, b),
            by_calls_then_name(),
        );
    }
    r
}

fn region(
    graph: &CallGraph,
    links: &CallGraph,
    dead: &NameSet,
    found: &Vec<Finding>,
    group: &NameSet,
) -> (r: Region)
    requires
        dead@ == names_of(views(found@)).to_set(),
        links@ == linked(graph@, dead@),
        ranked(views(found@), group@).len() > 0,
        forall|a: Seq<char>, b: Seq<char>|
            group@.contains(a) && group@.contains(b) ==> #[trigger] reaches(links@, set![a], b),
    ensures
        r@ == region_of(graph@, views(found@), group@),
{
    let mut all = rank(found, group);
    let ghost whole = views(all@);
    let at: usize = find_way_in(graph, dead, &all);
    let mut files: Vec<String> = Vec::new();
    let mut i: usize = 0;
    while i < all.len()
        invariant
            0 <= i <= all@.len(),
            whole == views(all@),
            texts(files@) == files_of(whole).take(i as int),
        decreases all@.len() - i,
    {
        let ghost before = files@;
        files.push(all[i].file.clone());
        proof {
            assert(texts(files@) =~= texts(before).push(all@[i as int].file@));
            assert(files_of(whole).take(i + 1) =~= files_of(whole).take(i as int).push(
                all@[i as int].file@,
            ));
        }
        i += 1;
    }
    assert(files_of(whole).take(whole.len() as int) =~= files_of(whole));
    let files = sort_texts(files);
    let size: usize = all.len();
    let ghost before = all@;
    let entry = all.remove(at);
    let ghost rest = whole.remove(at as int);
    proof {
        assert(views(all@) =~= rest);
    }
    let nearest = ByDistance { far: links.distances(entry.name.as_str()) };
    let ghost others = all@;
    let members = arrange(all, &nearest);
    proof {
        let e = entry.name@;
        assert(e == whole[at as int].name);
        assert forall|x: FindingView| #[trigger] rest.contains(x) implies told_distance(
            nearest.far@,
            x.name,
        ) == distance(links@, e, x.name) by {
            let k = choose|k: int| 0 <= k < rest.len() && rest[k] == x;
            assert(whole[if k < at { k } else { k + 1 }] == x);
            in_group(views(found@), group@, x);
            assert(whole.contains(whole[at as int]));
            in_group(views(found@), group@, whole[at as int]);
            assert(reaches(links@, set![e], x.name));
            assert(nearest.far@.dom().contains(x.name));
        }
        let told = |a: FindingView, b: FindingView|
            told_distance(nearest.far@, a.name) < told_distance(nearest.far@, b.name);
        crate::seqs::arranged_maps(
            others,
            |x: Finding| x@,
            |a: Finding, b: Finding| nearest.ahead(a, b),
            told,
        );
        crate::seqs::arranged_alike(rest, told, by_distance(links@, e));
    }
    let confidence = entry.confidence;
    Region { entry, members, size, files, confidence }
}

/// What stands in the rank of a group is of the group.
proof fn in_group(found: Seq<FindingView>, group: Set<Seq<char>>, f: FindingView)
    ensures
        ranked(found, group).contains(f) == (found.contains(f) && group.contains(f.name)),
{
    let inside = |f: FindingView| group.contains(f.name);
    crate::seqs::filter_members(found, inside, f);
    crate::seqs::arranged_members(found.filter(inside), by_calls_then_name(), f);
}

fn names_in(found: &Vec<Finding>) -> (r: Vec<String>)
    ensures
        texts(r@) == names_of(views(found@)),
{
    let ghost all = names_of(views(found@));
    let mut r: Vec<String> = Vec::new();
    let mut i: usize = 0;
    while i < found.len()
        invariant
            0 <= i <= found@.len(),
            all == names_of(views(found@)),
            texts(r@) == all.take(i as int),
        decreases found@.len() - i,
    {
        let ghost before = r@;
        r.push(found[i].name.clone());
        proof {
            assert(texts(r@) =~= texts(before).push(found@[i as int].name@));
            assert(all.take(i + 1) =~= all.take(i as int).push(found@[i as int].name@));
        }
        i += 1;
    }
    assert(all.take(all.len() as int) =~= all);
    r
}

/// What a group around a finding's name holds is never nothing.
proof fn group_has_rank(found: Seq<FindingView>, links: Set<Call>, name: Seq<char>)
    requires
        names_of(found).contains(name),
    ensures
        ranked(found, reach(links, set![name])).len() > 0,
{
    let group = reach(links, set![name]);
    crate::graph::roots_are_reached(links, set![name], name);
    let inside = |f: FindingView| group.contains(f.name);
    let i = choose|i: int| 0 <= i < found.len() && names_of(found)[i] == name;
    assert(found.contains(found[i]));
    crate::seqs::filter_members(found, inside, found[i]);
    crate::seqs::arranged_members(found.filter(inside), by_calls_then_name(), found[i]);
    assert(ranked(found, group).contains(found[i]));
}

/// The unreachable functions in connected regions, each with its frontier,
/// largest region first.
pub fn dead_regions(scan: &Scan) -> (r: Vec<Region>)
    ensures
        views(r@) == regions_of(scan@),
        total_size(views(r@)) <= usize::MAX,
{
    let found = never_run_graph(scan);
    proof {
        regions_count_findings(scan@);
        assert(found.len() == views(found@).len());
    }
    let ghost all = unreachable_code(scan@);
    let names = names_in(&found);
    let dead = NameSet::of(&names);
    let links = scan.edges.both_ways(&dead);
    let sorted = sort_texts(names);
    let ghost list = texts(sorted@);
    let ghost told = |g: Set<Seq<char>>| region_of(scan@.edges, all, g);
    let mut seen = NameSet::new();
    let mut out: Vec<Region> = Vec::new();
    let mut i: usize = 0;
    proof {
        assert(list.skip(0) =~= list);
        assert(views(out@) + groups(list, links@, Set::empty()).map_values(told) =~= groups(
            list,
            links@,
            Set::empty(),
        ).map_values(told));
    }
    while i < sorted.len()
        invariant
            0 <= i <= sorted@.len(),
            list == texts(sorted@),
            all == unreachable_code(scan@),
            views(found@) == all,
            dead@ == names_of(all).to_set(),
            list.to_set() == dead@,
            links@ == linked(scan@.edges, dead@),
            told == (|g: Set<Seq<char>>| region_of(scan@.edges, all, g)),
            views(out@) + groups(list.skip(i as int), links@, seen@).map_values(told) == groups(
                list,
                links@,
                Set::empty(),
            ).map_values(told),
        decreases sorted@.len() - i,
    {
        let start = sorted[i].as_str();
        let ghost rest = list.skip(i as int);
        let ghost before = seen@;
        proof {
            assert(rest[0] == start@);
            assert(rest.skip(1) =~= list.skip(i + 1));
        }
        if !seen.contains(start) {
            let mut one = NameSet::new();
            one.insert(start);
            assert(one@ =~= set![start@]);
            let group = links.reach_from(&one);
            proof {
                assert(list.to_set().contains(list[i as int]));
                group_has_rank(all, links@, start@);
                linked_both_ways(scan@.edges, dead@);
                assert forall|a: Seq<char>, b: Seq<char>|
                    group@.contains(a) && group@.contains(b) implies #[trigger] reaches(
                    links@,
                    set![a],
                    b,
                ) by {
                    connected(links@, start@, a, b);
                }
            }
            let g = region(&scan.edges, &links, &dead, &found, &group);
            seen.extend(&group);
            let ghost so_far = out@;
            proof {
                crate::seqs::map_push(out@, |x: Region| x@, g);
                let tail = groups(list.skip(i + 1), links@, seen@);
                assert((seq![group@] + tail).map_values(told) =~= seq![told(group@)]
                    + tail.map_values(told));
                assert(views(so_far).push(g@) + tail.map_values(told) =~= views(so_far) + (seq![
                    told(group@),
                ] + tail.map_values(told)));
            }
            out.push(g);
        }
        i += 1;
    }
    proof {
        assert(list.skip(list.len() as int) =~= Seq::<Seq<char>>::empty());
        let none = groups(list.skip(list.len() as int), links@, seen@).map_values(told);
        assert(none =~= Seq::<RegionView>::empty());
        assert(views(out@) + none =~= views(out@));
    }
    let r = arrange(out, &BySize);
    proof {
        crate::seqs::arranged_maps(
            out@,
            |x: Region| x@,
            |a: Region, b: Region| BySize.ahead(a, b),
            by_size(),
        );
    }
    r
}

// ---------------------------------------------------------------------------
// What holds of the regions
// ---------------------------------------------------------------------------

/// Exactly one of `gs` holds `x`.
pub open spec fn in_one_group(gs: Seq<Set<Seq<char>>>, x: Seq<char>) -> bool {
    exists|i: int|
        0 <= i < gs.len() && (#[trigger] gs[i]).contains(x) && forall|j: int|
            0 <= j < gs.len() && (#[trigger] gs[j]).contains(x) ==> j == i
}

proof fn linked_both_ways(calls: Set<Call>, dead: Set<Seq<char>>)
    ensures
        crate::graph::reversed(linked(calls, dead)) == linked(calls, dead),
{
    assert(crate::graph::reversed(linked(calls, dead)) =~= linked(calls, dead));
}

/// What lies in one group is connected.
proof fn connected(links: Set<Call>, n: Seq<char>, a: Seq<char>, b: Seq<char>)
    requires
        crate::graph::reversed(links) == links,
        reaches(links, set![n], a),
        reaches(links, set![n], b),
    ensures
        reaches(links, set![a], b),
{
    crate::graph::reach_reversed(links, n, a);
    let from_a = reach(links, set![a]);
    assert forall|x: Seq<char>, y: Seq<char>|
        from_a.contains(x) && #[trigger] links.contains((x, y)) implies from_a.contains(y) by {
        crate::graph::reach_follows(links, set![a], x, y);
    }
    crate::graph::reach_is_least(links, set![n], from_a, b);
}

proof fn groups_partition(
    names: Seq<Seq<char>>,
    links: Set<Call>,
    seen: Set<Seq<char>>,
    x: Seq<char>,
)
    requires
        crate::graph::reversed(links) == links,
        crate::graph::closed_under(links, seen),
    ensures
        seen.contains(x) ==> forall|i: int|
            0 <= i < groups(names, links, seen).len() ==> !(#[trigger] groups(
                names,
                links,
                seen,
            )[i]).contains(x),
        !seen.contains(x) && names.contains(x) ==> in_one_group(groups(names, links, seen), x),
        forall|i: int, j: int|
            0 <= i < groups(names, links, seen).len() && 0 <= j < groups(names, links, seen).len()
                && (#[trigger] groups(names, links, seen)[i]).contains(x) && (#[trigger] groups(
                names,
                links,
                seen,
            )[j]).contains(x) ==> i == j,
    decreases names.len(),
{
    if names.len() > 0 {
        let n = names[0];
        let rest = names.skip(1);
        if names.contains(x) && x != n {
            let k = choose|k: int| 0 <= k < names.len() && names[k] == x;
            assert(rest[k - 1] == x);
        }
        if seen.contains(n) {
            groups_partition(rest, links, seen, x);
            assert(groups(names, links, seen) == groups(rest, links, seen));
        } else {
            let group = reach(links, set![n]);
            let wider = seen.union(group);
            assert forall|a: Seq<char>, b: Seq<char>|
                wider.contains(a) && #[trigger] links.contains((a, b)) implies wider.contains(
                b,
            ) by {
                if group.contains(a) {
                    crate::graph::reach_follows(links, set![n], a, b);
                }
            }
            groups_partition(rest, links, wider, x);
            let tail = groups(rest, links, wider);
            let all = groups(names, links, seen);
            assert(all =~= seq![group] + tail);
            if seen.contains(x) && group.contains(x) {
                crate::graph::reach_reversed(links, n, x);
                crate::graph::reach_is_least(links, set![x], seen, n);
            }
            assert forall|i: int| 0 < i < all.len() implies #[trigger] all[i] == tail[i - 1] by {}
            if seen.contains(x) {
                assert forall|i: int| 0 <= i < all.len() implies !(#[trigger] all[i]).contains(
                    x,
                ) by {
                    if i > 0 {
                        assert(!tail[i - 1].contains(x));
                    }
                }
            }
            if group.contains(x) {
                assert(all[0].contains(x));
                assert forall|j: int|
                    0 <= j < all.len() && (#[trigger] all[j]).contains(x) implies j == 0 by {
                    if j > 0 {
                        assert(tail[j - 1].contains(x));
                    }
                }
            } else if !seen.contains(x) && names.contains(x) {
                if x == n {
                    crate::graph::roots_are_reached(links, set![n], n);
                }
                let i = choose|i: int|
                    0 <= i < tail.len() && (#[trigger] tail[i]).contains(x) && forall|j: int|
                        0 <= j < tail.len() && (#[trigger] tail[j]).contains(x) ==> j == i;
                assert(all[i + 1].contains(x));
                assert forall|j: int|
                    0 <= j < all.len() && (#[trigger] all[j]).contains(x) implies j == i + 1 by {
                    if j > 0 {
                        assert(tail[j - 1].contains(x));
                    }
                }
            }
            assert forall|i: int, j: int|
                0 <= i < all.len() && 0 <= j < all.len() && (#[trigger] all[i]).contains(x) && (
                #[trigger] all[j]).contains(x) implies i == j by {
                if i > 0 && j > 0 {
                    assert(tail[i - 1].contains(x) && tail[j - 1].contains(x));
                } else if i > 0 {
                    assert(tail[i - 1].contains(x));
                } else if j > 0 {
                    assert(tail[j - 1].contains(x));
                }
            }
        }
    } else {
        assert(groups(names, links, seen).len() == 0);
    }
}

/// Every unreachable function stands in exactly one region.
pub proof fn regions_partition_findings(s: ScanView, f: FindingView)
    requires
        unreachable_code(s).contains(f),
    ensures
        in_one_group(groups_of(s), f.name),
{
    let found = unreachable_code(s);
    let dead = names_of(found).to_set();
    let links = linked(s.edges, dead);
    vstd::seq_lib::seq_to_set_is_finite(names_of(found));
    crate::order::sorted_set_exists(dead);
    let i = choose|i: int| 0 <= i < found.len() && found[i] == f;
    assert(names_of(found)[i] == f.name);
    assert(dead.contains(f.name));
    assert(sorted_set(dead).to_set().contains(f.name));
    linked_both_ways(s.edges, dead);
    groups_partition(sorted_set(dead), links, Set::empty(), f.name);
}

/// A region holds nothing that is reachable: every name in it is that of a
/// finding.
pub proof fn regions_hold_only_findings(s: ScanView, i: int, x: Seq<char>)
    requires
        0 <= i < groups_of(s).len(),
        groups_of(s)[i].contains(x),
    ensures
        names_of(unreachable_code(s)).contains(x),
{
    let found = unreachable_code(s);
    let dead = names_of(found).to_set();
    let links = linked(s.edges, dead);
    vstd::seq_lib::seq_to_set_is_finite(names_of(found));
    crate::order::sorted_set_exists(dead);
    let list = sorted_set(dead);
    assert forall|k: int| 0 <= k < list.len() implies dead.contains(#[trigger] list[k]) by {
        assert(list.to_set().contains(list[k]));
    }
    groups_within(list, links, Set::empty(), dead, i, x);
    assert(dead.contains(x));
}

proof fn groups_within(
    names: Seq<Seq<char>>,
    links: Set<Call>,
    seen: Set<Seq<char>>,
    dead: Set<Seq<char>>,
    i: int,
    x: Seq<char>,
)
    requires
        crate::graph::closed_under(links, dead),
        forall|k: int| 0 <= k < names.len() ==> dead.contains(#[trigger] names[k]),
        0 <= i < groups(names, links, seen).len(),
        groups(names, links, seen)[i].contains(x),
    ensures
        dead.contains(x),
    decreases names.len(),
{
    if names.len() > 0 {
        let rest = names.skip(1);
        assert forall|k: int| 0 <= k < rest.len() implies dead.contains(#[trigger] rest[k]) by {
            assert(rest[k] == names[k + 1]);
        }
        if seen.contains(names[0]) {
            groups_within(rest, links, seen, dead, i, x);
        } else {
            let group = reach(links, set![names[0]]);
            let tail = groups(rest, links, seen.union(group));
            if i == 0 {
                assert(groups(names, links, seen)[0] == group);
                crate::graph::reach_is_least(links, set![names[0]], dead, x);
            } else {
                assert(groups(names, links, seen)[i] == tail[i - 1]);
                groups_within(rest, links, seen.union(group), dead, i - 1, x);
            }
        }
    }
}

/// The functions of all regions, counted together.
pub open spec fn total_size(rs: Seq<RegionView>) -> nat
    decreases rs.len(),
{
    if rs.len() == 0 {
        0
    } else {
        rs[0].size + total_size(rs.skip(1))
    }
}

proof fn placed_total(rs: Seq<RegionView>, x: RegionView)
    ensures
        total_size(crate::order::placed(rs, x, by_size())) == x.size + total_size(rs),
    decreases rs.len(),
{
    let r = crate::order::placed(rs, x, by_size());
    if rs.len() == 0 || !by_size()(rs[0], x) {
        assert(r.skip(1) =~= rs);
    } else {
        placed_total(rs.skip(1), x);
        assert(r.skip(1) =~= crate::order::placed(rs.skip(1), x, by_size()));
    }
}

proof fn arranged_total(rs: Seq<RegionView>)
    ensures
        total_size(arranged(rs, by_size())) == total_size(rs),
    decreases rs.len(),
{
    if rs.len() > 0 {
        arranged_total(rs.skip(1));
        placed_total(arranged(rs.skip(1), by_size()), rs[0]);
    }
}

spec fn tally(gs: Seq<Set<Seq<char>>>, found: Seq<FindingView>) -> nat
    decreases gs.len(),
{
    if gs.len() == 0 {
        0
    } else {
        found.filter(|f: FindingView| gs[0].contains(f.name)).len() + tally(gs.skip(1), found)
    }
}

spec fn holders(gs: Seq<Set<Seq<char>>>, x: Seq<char>) -> nat
    decreases gs.len(),
{
    if gs.len() == 0 {
        0
    } else {
        (if gs[0].contains(x) {
            1nat
        } else {
            0
        }) + holders(gs.skip(1), x)
    }
}

proof fn no_holder(gs: Seq<Set<Seq<char>>>, x: Seq<char>)
    requires
        forall|j: int| 0 <= j < gs.len() ==> !(#[trigger] gs[j]).contains(x),
    ensures
        holders(gs, x) == 0,
    decreases gs.len(),
{
    if gs.len() > 0 {
        let rest = gs.skip(1);
        assert forall|j: int| 0 <= j < rest.len() implies !(#[trigger] rest[j]).contains(x) by {
            assert(rest[j] == gs[j + 1]);
        }
        no_holder(rest, x);
    }
}

proof fn one_holder(gs: Seq<Set<Seq<char>>>, x: Seq<char>)
    requires
        in_one_group(gs, x),
    ensures
        holders(gs, x) == 1,
    decreases gs.len(),
{
    let i = choose|i: int|
        0 <= i < gs.len() && (#[trigger] gs[i]).contains(x) && forall|j: int|
            0 <= j < gs.len() && (#[trigger] gs[j]).contains(x) ==> j == i;
    let rest = gs.skip(1);
    assert forall|j: int| 0 <= j < rest.len() implies #[trigger] rest[j] == gs[j + 1] by {}
    if i == 0 {
        no_holder(rest, x);
    } else {
        assert(rest[i - 1].contains(x));
        one_holder(rest, x);
    }
}

proof fn tally_step(gs: Seq<Set<Seq<char>>>, found: Seq<FindingView>, f: FindingView)
    ensures
        tally(gs, found.push(f)) == tally(gs, found) + holders(gs, f.name),
    decreases gs.len(),
{
    if gs.len() > 0 {
        reveal(Seq::filter);
        tally_step(gs.skip(1), found, f);
        assert(found.push(f).drop_last() =~= found);
    }
}

proof fn tally_all(gs: Seq<Set<Seq<char>>>, found: Seq<FindingView>)
    requires
        forall|i: int| 0 <= i < found.len() ==> in_one_group(gs, (#[trigger] found[i]).name),
    ensures
        tally(gs, found) == found.len(),
    decreases found.len(),
{
    if found.len() == 0 {
        tally_none(gs, found);
    } else {
        let less = found.drop_last();
        assert forall|i: int| 0 <= i < less.len() implies in_one_group(
            gs,
            (#[trigger] less[i]).name,
        ) by {
            assert(less[i] == found[i]);
        }
        tally_all(gs, less);
        tally_step(gs, less, found.last());
        one_holder(gs, found.last().name);
        assert(less.push(found.last()) =~= found);
    }
}

proof fn tally_none(gs: Seq<Set<Seq<char>>>, found: Seq<FindingView>)
    requires
        found.len() == 0,
    ensures
        tally(gs, found) == 0,
    decreases gs.len(),
{
    reveal(Seq::filter);
    if gs.len() > 0 {
        tally_none(gs.skip(1), found);
    }
}

proof fn sizes_tallied(calls: Set<Call>, found: Seq<FindingView>, gs: Seq<Set<Seq<char>>>)
    ensures
        total_size(gs.map_values(|g: Set<Seq<char>>| region_of(calls, found, g))) == tally(
            gs,
            found,
        ),
    decreases gs.len(),
{
    let told = |g: Set<Seq<char>>| region_of(calls, found, g);
    let all = gs.map_values(told);
    if gs.len() > 0 {
        sizes_tallied(calls, found, gs.skip(1));
        assert(all.skip(1) =~= gs.skip(1).map_values(told));
        crate::order::arranged_keeps(
            found.filter(|f: FindingView| gs[0].contains(f.name)),
            by_calls_then_name(),
        );
    }
}

/// The regions together are as large as there are findings: grouping loses
/// none and counts none twice.
pub proof fn regions_count_findings(s: ScanView)
    ensures
        total_size(regions_of(s)) == unreachable_code(s).len(),
{
    let found = unreachable_code(s);
    let gs = groups_of(s);
    let told = |g: Set<Seq<char>>| region_of(s.edges, found, g);
    assert forall|i: int| 0 <= i < found.len() implies in_one_group(
        gs,
        (#[trigger] found[i]).name,
    ) by {
        assert(found.contains(found[i]));
        regions_partition_findings(s, found[i]);
    }
    tally_all(gs, found);
    sizes_tallied(s.edges, found, gs);
    arranged_total(gs.map_values(told));
}

/// The region speaks of the function, as its way in or behind it.
pub open spec fn shows(r: RegionView, f: FindingView) -> bool {
    r.entry == f || r.members.contains(f)
}

proof fn way_in_bounds(calls: Set<Call>, dead: Set<Seq<char>>, ranked: Seq<FindingView>)
    requires
        ranked.len() > 0,
    ensures
        0 <= way_in(calls, dead, ranked) < ranked.len(),
    decreases ranked.len(),
{
    if ranked.len() > 1 {
        way_in_bounds(calls, dead, ranked.drop_last());
    }
}

proof fn groups_start(
    names: Seq<Seq<char>>,
    links: Set<Call>,
    seen: Set<Seq<char>>,
    i: int,
) -> (k: int)
    requires
        0 <= i < groups(names, links, seen).len(),
    ensures
        0 <= k < names.len(),
        groups(names, links, seen)[i] == reach(links, set![names[k]]),
    decreases names.len(),
{
    if names.len() == 0 {
        0
    } else if seen.contains(names[0]) {
        groups_start(names.skip(1), links, seen, i) + 1
    } else if i == 0 {
        0
    } else {
        let group = reach(links, set![names[0]]);
        groups_start(names.skip(1), links, seen.union(group), i - 1) + 1
    }
}

proof fn region_shows(
    calls: Set<Call>,
    found: Seq<FindingView>,
    group: Set<Seq<char>>,
    f: FindingView,
)
    requires
        ranked(found, group).len() > 0,
    ensures
        shows(region_of(calls, found, group), f) == (found.contains(f) && group.contains(f.name)),
{
    let all = ranked(found, group);
    let dead = names_of(found).to_set();
    let i = way_in(calls, dead, all);
    way_in_bounds(calls, dead, all);
    in_group(found, group, f);
    let rest = all.remove(i);
    crate::seqs::arranged_members(rest, by_distance(linked(calls, dead), all[i].name), f);
    if all.contains(f) {
        let k = choose|k: int| 0 <= k < all.len() && all[k] == f;
        if k < i {
            assert(rest[k] == f);
        } else if k > i {
            assert(rest[k - 1] == f);
        }
    }
    if rest.contains(f) {
        let k = choose|k: int| 0 <= k < rest.len() && rest[k] == f;
        assert(all[if k < i { k } else { k + 1 }] == f);
    }
}

/// The regions speak of all that is unreachable, and of nothing else.
pub proof fn regions_show_findings(s: ScanView, f: FindingView)
    ensures
        unreachable_code(s).contains(f) == exists|i: int|
            0 <= i < regions_of(s).len() && shows(#[trigger] regions_of(s)[i], f),
{
    let found = unreachable_code(s);
    let told = |g: Set<Seq<char>>| region_of(s.edges, found, g);
    let gs = groups_of(s);
    let rs = regions_of(s);
    assert forall|i: int| 0 <= i < gs.len() implies ranked(found, #[trigger] gs[i]).len() > 0 by {
        groups_ranked(s, i);
    }
    if found.contains(f) {
        regions_partition_findings(s, f);
        let i = choose|i: int|
            0 <= i < gs.len() && (#[trigger] gs[i]).contains(f.name) && forall|j: int|
                0 <= j < gs.len() && (#[trigger] gs[j]).contains(f.name) ==> j == i;
        region_shows(s.edges, found, gs[i], f);
        assert(gs.map_values(told)[i] == told(gs[i]));
        crate::seqs::arranged_members(gs.map_values(told), by_size(), told(gs[i]));
        let n = choose|n: int| 0 <= n < rs.len() && rs[n] == told(gs[i]);
        assert(shows(rs[n], f));
    }
    if exists|i: int| 0 <= i < rs.len() && shows(#[trigger] rs[i], f) {
        let n = choose|n: int| 0 <= n < rs.len() && shows(#[trigger] rs[n], f);
        assert(rs.contains(rs[n]));
        crate::seqs::arranged_members(gs.map_values(told), by_size(), rs[n]);
        crate::seqs::map_members(gs, told, rs[n]);
        let i = choose|i: int| 0 <= i < gs.len() && told(#[trigger] gs[i]) == rs[n];
        region_shows(s.edges, found, gs[i], f);
    }
}

/// The way into a region is a function that no other unreachable one calls,
/// wherever the region has such a function.
pub proof fn ways_in_are_frontiers(
    calls: Set<Call>,
    found: Seq<FindingView>,
    group: Set<Seq<char>>,
    f: FindingView,
)
    requires
        found.contains(f),
        group.contains(f.name),
        frontier(calls, names_of(found).to_set(), f.name),
    ensures
        frontier(calls, names_of(found).to_set(), region_of(calls, found, group).entry.name),
{
    let all = ranked(found, group);
    let dead = names_of(found).to_set();
    in_group(found, group, f);
    let k = choose|k: int| 0 <= k < all.len() && all[k] == f;
    let first = first_frontier(calls, dead, all, k);
    way_in_first(calls, dead, all, first);
}

proof fn first_frontier(
    calls: Set<Call>,
    dead: Set<Seq<char>>,
    ranked: Seq<FindingView>,
    k: int,
) -> (i: int)
    requires
        0 <= k < ranked.len(),
        frontier(calls, dead, ranked[k].name),
    ensures
        0 <= i <= k,
        frontier(calls, dead, ranked[i].name),
        forall|j: int| 0 <= j < i ==> !frontier(calls, dead, (#[trigger] ranked[j]).name),
    decreases k,
{
    if exists|j: int| 0 <= j < k && frontier(calls, dead, (#[trigger] ranked[j]).name) {
        let j = choose|j: int| 0 <= j < k && frontier(calls, dead, (#[trigger] ranked[j]).name);
        first_frontier(calls, dead, ranked, j)
    } else {
        k
    }
}

/// The functions that a region shows, the way in first.
pub open spec fn shown(r: RegionView) -> Seq<FindingView> {
    seq![r.entry] + r.members
}

/// The functions that the regions show, region by region.
pub open spec fn all_shown(rs: Seq<RegionView>) -> Seq<FindingView>
    decreases rs.len(),
{
    if rs.len() == 0 {
        seq![]
    } else {
        shown(rs[0]) + all_shown(rs.skip(1))
    }
}

proof fn shown_is_group(calls: Set<Call>, found: Seq<FindingView>, group: Set<Seq<char>>)
    requires
        ranked(found, group).len() > 0,
    ensures
        shown(region_of(calls, found, group)).to_multiset() == found.filter(
            |f: FindingView| group.contains(f.name),
        ).to_multiset(),
        region_of(calls, found, group).size == 1 + region_of(calls, found, group).members.len(),
{
    broadcast use vstd::seq_lib::group_to_multiset_ensures;

    let dead = names_of(found).to_set();
    let all = ranked(found, group);
    let i = way_in(calls, dead, all);
    let rest = all.remove(i);
    let nearest = by_distance(linked(calls, dead), all[i].name);
    way_in_bounds(calls, dead, all);
    crate::order::arranged_keeps(
        found.filter(|f: FindingView| group.contains(f.name)),
        by_calls_then_name(),
    );
    crate::order::arranged_keeps(rest, nearest);
    let members = arranged(rest, nearest);
    assert(seq![all[i]] + members =~= members.insert(0, all[i]));
    vstd::seq_lib::to_multiset_insert(members, 0, all[i]);
    assert(all.contains(all[i]));
    assert(all.to_multiset().remove(all[i]).insert(all[i]) =~= all.to_multiset());
}

proof fn placed_shown(rs: Seq<RegionView>, x: RegionView)
    ensures
        all_shown(crate::order::placed(rs, x, by_size())).to_multiset() == shown(
            x,
        ).to_multiset().add(all_shown(rs).to_multiset()),
    decreases rs.len(),
{
    let r = crate::order::placed(rs, x, by_size());
    if rs.len() == 0 || !by_size()(rs[0], x) {
        assert(r.skip(1) =~= rs);
        vstd::seq_lib::lemma_multiset_commutative(shown(x), all_shown(rs));
    } else {
        let tail = crate::order::placed(rs.skip(1), x, by_size());
        placed_shown(rs.skip(1), x);
        assert(r.skip(1) =~= tail);
        vstd::seq_lib::lemma_multiset_commutative(shown(rs[0]), all_shown(tail));
        vstd::seq_lib::lemma_multiset_commutative(shown(rs[0]), all_shown(rs.skip(1)));
        assert(all_shown(r).to_multiset() =~= shown(x).to_multiset().add(
            all_shown(rs).to_multiset(),
        ));
    }
}

proof fn arranged_shown(rs: Seq<RegionView>)
    ensures
        all_shown(arranged(rs, by_size())).to_multiset() == all_shown(rs).to_multiset(),
    decreases rs.len(),
{
    if rs.len() > 0 {
        arranged_shown(rs.skip(1));
        placed_shown(arranged(rs.skip(1), by_size()), rs[0]);
        vstd::seq_lib::lemma_multiset_commutative(shown(rs[0]), all_shown(rs.skip(1)));
    }
}

proof fn groups_shown(
    calls: Set<Call>,
    found: Seq<FindingView>,
    gs: Seq<Set<Seq<char>>>,
    f: FindingView,
)
    requires
        forall|i: int| 0 <= i < gs.len() ==> ranked(found, #[trigger] gs[i]).len() > 0,
    ensures
        all_shown(
            gs.map_values(|g: Set<Seq<char>>| region_of(calls, found, g)),
        ).to_multiset().count(f) == holders(gs, f.name) * found.to_multiset().count(f),
    decreases gs.len(),
{
    broadcast use vstd::seq_lib::group_to_multiset_ensures;

    let told = |g: Set<Seq<char>>| region_of(calls, found, g);
    let rs = gs.map_values(told);
    if gs.len() > 0 {
        let rest = gs.skip(1);
        assert forall|i: int| 0 <= i < rest.len() implies ranked(found, #[trigger] rest[i]).len()
            > 0 by {
            assert(rest[i] == gs[i + 1]);
        }
        groups_shown(calls, found, rest, f);
        assert(rs.skip(1) =~= rest.map_values(told));
        assert(ranked(found, gs[0]).len() > 0);
        shown_is_group(calls, found, gs[0]);
        crate::seqs::filter_counts(found, |f: FindingView| gs[0].contains(f.name), f);
        vstd::seq_lib::lemma_multiset_commutative(shown(rs[0]), all_shown(rs.skip(1)));
        let c = found.to_multiset().count(f);
        let h = holders(rest, f.name);
        assert((1 + h) * c == c + h * c) by (nonlinear_arith);
    } else {
        assert(all_shown(rs) =~= Seq::<FindingView>::empty());
        assert(0 * found.to_multiset().count(f) == 0);
    }
}

proof fn groups_ranked(s: ScanView, i: int)
    requires
        0 <= i < groups_of(s).len(),
    ensures
        ranked(unreachable_code(s), groups_of(s)[i]).len() > 0,
{
    let found = unreachable_code(s);
    let dead = names_of(found).to_set();
    let links = linked(s.edges, dead);
    vstd::seq_lib::seq_to_set_is_finite(names_of(found));
    crate::order::sorted_set_exists(dead);
    let list = sorted_set(dead);
    let k = groups_start(list, links, Set::empty(), i);
    assert(list.to_set().contains(list[k]));
    group_has_rank(found, links, list[k]);
}

proof fn region_grouped(s: ScanView, n: int) -> (i: int)
    requires
        0 <= n < regions_of(s).len(),
    ensures
        0 <= i < groups_of(s).len(),
        regions_of(s)[n] == region_of(s.edges, unreachable_code(s), groups_of(s)[i]),
        ranked(unreachable_code(s), groups_of(s)[i]).len() > 0,
{
    let gs = groups_of(s);
    let rs = regions_of(s);
    let told = |g: Set<Seq<char>>| region_of(s.edges, unreachable_code(s), g);
    assert(rs.contains(rs[n]));
    crate::seqs::arranged_members(gs.map_values(told), by_size(), rs[n]);
    crate::seqs::map_members(gs, told, rs[n]);
    let i = choose|i: int| 0 <= i < gs.len() && told(#[trigger] gs[i]) == rs[n];
    groups_ranked(s, i);
    i
}

/// The ways in and the members of all regions together are the findings, each
/// as often as it is one and with nothing about it changed; there is no region
/// exactly where there is no finding.
pub proof fn regions_are_the_findings(s: ScanView)
    ensures
        all_shown(regions_of(s)).to_multiset() == unreachable_code(s).to_multiset(),
        (regions_of(s).len() == 0) == (unreachable_code(s).len() == 0),
{
    let found = unreachable_code(s);
    let gs = groups_of(s);
    let rs = regions_of(s);
    let told = |g: Set<Seq<char>>| region_of(s.edges, found, g);
    assert forall|i: int| 0 <= i < gs.len() implies ranked(found, #[trigger] gs[i]).len() > 0 by {
        groups_ranked(s, i);
    }
    assert forall|f: FindingView|
        all_shown(rs).to_multiset().count(f) == found.to_multiset().count(f) by {
        arranged_shown(gs.map_values(told));
        groups_shown(s.edges, found, gs, f);
        found.to_multiset_ensures();
        if found.contains(f) {
            regions_partition_findings(s, f);
            one_holder(gs, f.name);
            assert(1 * found.to_multiset().count(f) == found.to_multiset().count(f));
        } else {
            assert(found.to_multiset().count(f) == 0);
            assert(holders(gs, f.name) * 0 == 0) by (nonlinear_arith);
        }
    }
    assert(all_shown(rs).to_multiset() =~= found.to_multiset());
    all_shown(rs).to_multiset_ensures();
    found.to_multiset_ensures();
    if rs.len() > 0 {
        assert(all_shown(rs)[0] == rs[0].entry);
    }
}

/// A region counts its way in and its members, names the files of all of
/// them, in order and each once, and has its members nearest to the way in
/// first.
pub proof fn regions_tell_their_members(s: ScanView, n: int)
    requires
        0 <= n < regions_of(s).len(),
    ensures
        regions_of(s)[n].size == 1 + regions_of(s)[n].members.len(),
        regions_of(s)[n].files == sorted_set(files_of(shown(regions_of(s)[n])).to_set()),
        regions_of(s)[n].confidence == regions_of(s)[n].entry.confidence,
        crate::order::in_order(
            regions_of(s)[n].members,
            by_distance(
                linked(s.edges, names_of(unreachable_code(s)).to_set()),
                regions_of(s)[n].entry.name,
            ),
        ),
{
    let found = unreachable_code(s);
    let dead = names_of(found).to_set();
    let r = regions_of(s)[n];
    let i = region_grouped(s, n);
    let group = groups_of(s)[i];
    shown_is_group(s.edges, found, group);
    let all = ranked(found, group);
    let at = way_in(s.edges, dead, all);
    let nearest = by_distance(linked(s.edges, dead), all[at].name);
    assert(crate::order::weak_order(nearest));
    crate::order::arranged_in_order(all.remove(at), nearest);
    assert forall|x: Seq<char>|
        files_of(all).to_set().contains(x) == files_of(shown(r)).to_set().contains(x) by {
        if files_of(all).contains(x) {
            let k = choose|k: int| 0 <= k < all.len() && files_of(all)[k] == x;
            assert(all.contains(all[k]));
            in_group(found, group, all[k]);
            region_shows(s.edges, found, group, all[k]);
            if r.entry == all[k] {
                assert(files_of(shown(r))[0] == x);
            } else {
                let m = choose|m: int| 0 <= m < r.members.len() && r.members[m] == all[k];
                assert(files_of(shown(r))[m + 1] == x);
            }
        }
        if files_of(shown(r)).contains(x) {
            let k = choose|k: int| 0 <= k < shown(r).len() && files_of(shown(r))[k] == x;
            let f = shown(r)[k];
            if k > 0 {
                assert(r.members[k - 1] == f);
            }
            region_shows(s.edges, found, group, f);
            in_group(found, group, f);
            let m = choose|m: int| 0 <= m < all.len() && all[m] == f;
            assert(files_of(all)[m] == x);
        }
    }
    assert(files_of(all).to_set() =~= files_of(shown(r)).to_set());
}

/// No region stands behind a smaller one.
pub proof fn largest_region_comes_first(s: ScanView, i: int, j: int)
    requires
        0 <= i < j < regions_of(s).len(),
    ensures
        regions_of(s)[i].size >= regions_of(s)[j].size,
{
    assert(crate::order::weak_order(by_size()));
    crate::order::arranged_in_order(
        groups_of(s).map_values(
            |g: Set<Seq<char>>| region_of(s.edges, unreachable_code(s), g),
        ),
        by_size(),
    );
    assert(!by_size()(regions_of(s)[j], regions_of(s)[i]));
}

/// Two findings lie in one region exactly where a chain of findings joins
/// them in which each calls the next or is called by it.
pub proof fn regions_are_what_calls_join(s: ScanView, a: FindingView, b: FindingView)
    requires
        unreachable_code(s).contains(a),
        unreachable_code(s).contains(b),
    ensures
        (exists|n: int|
            0 <= n < regions_of(s).len() && shows(#[trigger] regions_of(s)[n], a) && shows(
                regions_of(s)[n],
                b,
            )) == reaches(
            linked(s.edges, names_of(unreachable_code(s)).to_set()),
            set![a.name],
            b.name,
        ),
{
    let found = unreachable_code(s);
    let dead = names_of(found).to_set();
    let links = linked(s.edges, dead);
    let gs = groups_of(s);
    let rs = regions_of(s);
    linked_both_ways(s.edges, dead);
    vstd::seq_lib::seq_to_set_is_finite(names_of(found));
    crate::order::sorted_set_exists(dead);
    let list = sorted_set(dead);
    if exists|n: int| 0 <= n < rs.len() && shows(#[trigger] rs[n], a) && shows(rs[n], b) {
        let n = choose|n: int| 0 <= n < rs.len() && shows(#[trigger] rs[n], a) && shows(rs[n], b);
        let i = region_grouped(s, n);
        region_shows(s.edges, found, gs[i], a);
        region_shows(s.edges, found, gs[i], b);
        let k = groups_start(list, links, Set::empty(), i);
        connected(links, list[k], a.name, b.name);
    }
    if reaches(links, set![a.name], b.name) {
        regions_show_findings(s, a);
        let n = choose|n: int| 0 <= n < rs.len() && shows(#[trigger] rs[n], a);
        let i = region_grouped(s, n);
        region_shows(s.edges, found, gs[i], a);
        region_shows(s.edges, found, gs[i], b);
        let k = groups_start(list, links, Set::empty(), i);
        let group = reach(links, set![list[k]]);
        assert forall|x: Seq<char>, y: Seq<char>|
            group.contains(x) && #[trigger] links.contains((x, y)) implies group.contains(y) by {
            crate::graph::reach_follows(links, set![list[k]], x, y);
        }
        crate::graph::reach_is_least(links, set![a.name], group, b.name);
        assert(shows(rs[n], b));
    }
}

} // verus!
