//! What a region is, and where it is entered.

use vstd::prelude::*;

use crate::findings::unreachable_code;
use crate::findings::FindingView;
use crate::graph::distance;
use crate::graph::linked;
use crate::graph::reach;
use crate::graph::Call;
use crate::order::arranged;
use crate::order::text_less;
use crate::regions::by_calls_then_name;
use crate::regions::frontier;
use crate::regions::names_of;
use crate::regions::ranked;
use crate::regions::region_of;
use crate::regions::regions_of;
use crate::regions::way_in;
use crate::scan::ScanView;

verus! {

/// Sorting changes nothing where nothing goes ahead of anything: what ties
/// stays as it stood.
pub proof fn ties_stay_as_they_stood<T>(s: Seq<T>, ahead: spec_fn(T, T) -> bool)
    requires
        forall|a: T, b: T| s.contains(a) && s.contains(b) ==> !#[trigger] ahead(a, b),
    ensures
        arranged(s, ahead) == s,
    decreases s.len(),
{
    if s.len() > 0 {
        let rest = s.skip(1);
        assert forall|a: T| #[trigger] rest.contains(a) implies s.contains(a) by {
            let i = choose|i: int| 0 <= i < rest.len() && rest[i] == a;
            assert(s[i + 1] == a);
        }
        ties_stay_as_they_stood(rest, ahead);
        assert(s =~= seq![s[0]] + rest);
        assert(s.contains(s[0]));
        if rest.len() > 0 {
            assert(rest.contains(rest[0]));
            assert(!ahead(rest[0], s[0]));
        }
    }
}

/// Two that are out of order are put in order.
pub proof fn two_are_put_in_order<T>(a: T, b: T, ahead: spec_fn(T, T) -> bool)
    ensures
        ahead(b, a) ==> arranged(seq![a, b], ahead) == seq![b, a],
        !ahead(b, a) ==> arranged(seq![a, b], ahead) == seq![a, b],
{
    let s = seq![a, b];
    let t = seq![b];
    assert(s.skip(1) =~= t);
    assert(t.skip(1) =~= seq![]);
    assert(arranged(t, ahead) =~= t) by {
        assert(arranged(t.skip(1), ahead) =~= seq![]);
        assert(crate::order::placed(Seq::<T>::empty(), b, ahead) =~= t);
    }
    if ahead(b, a) {
        assert(crate::order::placed(Seq::<T>::empty(), a, ahead) =~= seq![a]);
        assert(arranged(s, ahead) =~= seq![b, a]);
    } else {
        assert(arranged(s, ahead) =~= seq![a, b]);
    }
}

/// Nothing unreachable but itself calls the function.
pub open spec fn no_dead_caller(
    calls: Set<Call>,
    found: Seq<FindingView>,
    name: Seq<char>,
) -> bool {
    forall|i: int|
        0 <= i < found.len() && (#[trigger] found[i]).name != name ==> !calls.contains(
            (found[i].name, name),
        )
}

proof fn frontiers_have_no_dead_caller(
    calls: Set<Call>,
    found: Seq<FindingView>,
    name: Seq<char>,
)
    ensures
        frontier(calls, names_of(found).to_set(), name) == no_dead_caller(calls, found, name),
{
    let dead = names_of(found).to_set();
    assert forall|i: int| 0 <= i < found.len() implies dead.contains((#[trigger] found[i]).name) by {
        assert(names_of(found)[i] == found[i].name);
    }
    if no_dead_caller(calls, found, name) {
        assert forall|a: Seq<char>|
            #![trigger calls.contains((a, name))]
            dead.contains(a) && a != name implies !calls.contains((a, name)) by {
            let i = choose|i: int| 0 <= i < names_of(found).len() && names_of(found)[i] == a;
            assert(found[i].name == a);
        }
    }
}

proof fn ranks_are_ordered()
    ensures
        crate::order::weak_order(by_calls_then_name()),
{
    let ahead = by_calls_then_name();
    assert forall|a: FindingView, b: FindingView| #[trigger] ahead(a, b) implies !ahead(b, a) by {
        if a.test_calls == b.test_calls && text_less(b.name, a.name) {
            crate::order::text_less_transitive(a.name, b.name, a.name);
            crate::order::text_less_irreflexive(a.name);
        }
    }
    assert forall|a: FindingView, b: FindingView, c: FindingView|
        !#[trigger] ahead(b, a) && !#[trigger] ahead(c, b) implies !ahead(c, a) by {
        crate::order::text_less_total(a.name, b.name);
        crate::order::text_less_total(b.name, c.name);
        if ahead(c, a) && a.test_calls == c.test_calls {
            if text_less(a.name, b.name) && text_less(b.name, c.name) {
                crate::order::text_less_transitive(a.name, b.name, c.name);
                crate::order::text_less_transitive(a.name, c.name, a.name);
                crate::order::text_less_irreflexive(a.name);
            } else if a.name == b.name && text_less(b.name, c.name) {
                crate::order::text_less_transitive(b.name, c.name, a.name);
                crate::order::text_less_irreflexive(a.name);
            } else if b.name == c.name && text_less(a.name, b.name) {
                crate::order::text_less_transitive(a.name, b.name, a.name);
                crate::order::text_less_irreflexive(a.name);
            } else if a.name == b.name && b.name == c.name {
                crate::order::text_less_irreflexive(a.name);
            }
        }
    }
}

proof fn the_first_way_in(
    calls: Set<Call>,
    found: Seq<FindingView>,
    all: Seq<FindingView>,
)
    ensures
        ({
            let i = way_in(calls, names_of(found).to_set(), all);
            &&& all.len() > 0 ==> 0 <= i < all.len()
            &&& (exists|k: int|
                0 <= k < all.len() && no_dead_caller(calls, found, (#[trigger] all[k]).name)) ==> {
                &&& no_dead_caller(calls, found, all[i].name)
                &&& forall|j: int|
                    0 <= j < i ==> !no_dead_caller(calls, found, (#[trigger] all[j]).name)
            }
            &&& (forall|k: int|
                0 <= k < all.len() ==> !no_dead_caller(calls, found, (#[trigger] all[k]).name))
                ==> i == 0
        }),
    decreases all.len(),
{
    if all.len() > 0 {
        let before = all.drop_last();
        let n = all.len() - 1;
        the_first_way_in(calls, found, before);
        frontiers_have_no_dead_caller(calls, found, all.last().name);
        assert(all.last() == all[n]);
        let i = way_in(calls, names_of(found).to_set(), before);
        if 0 <= i < before.len() {
            frontiers_have_no_dead_caller(calls, found, before[i].name);
        }
        assert forall|k: int| 0 <= k < before.len() implies #[trigger] before[k] == all[k] by {}
        if exists|k: int|
            0 <= k < all.len() && no_dead_caller(calls, found, (#[trigger] all[k]).name) {
            let k = choose|k: int|
                0 <= k < all.len() && no_dead_caller(calls, found, (#[trigger] all[k]).name);
            if k < n {
                assert(no_dead_caller(calls, found, before[k].name));
            }
        }
        if exists|k: int|
            0 <= k < before.len() && no_dead_caller(calls, found, (#[trigger] before[k]).name) {
            assert forall|j: int| 0 <= j < i implies !no_dead_caller(
                calls,
                found,
                (#[trigger] all[j]).name,
            ) by {
                assert(before[j] == all[j]);
            }
        } else {
            assert forall|j: int| 0 <= j < n implies !no_dead_caller(
                calls,
                found,
                (#[trigger] all[j]).name,
            ) by {
                assert(before[j] == all[j]);
            }
        }
    }
}

/// A region is entered at a function that nothing else unreachable calls,
/// where it has one: of several, at the one that tests call most, and of those
/// at the first by name. Where it has none, at the one that tests call most.
pub proof fn regions_are_entered_at_their_frontier(
    calls: Set<Call>,
    found: Seq<FindingView>,
    group: Set<Seq<char>>,
    f: FindingView,
)
    requires
        found.contains(f),
        group.contains(f.name),
    ensures
        ({
            let e = region_of(calls, found, group).entry;
            &&& no_dead_caller(calls, found, f.name) ==> no_dead_caller(calls, found, e.name)
            &&& no_dead_caller(calls, found, f.name) ==> e.test_calls >= f.test_calls
            &&& no_dead_caller(calls, found, f.name) && e.test_calls == f.test_calls ==> !text_less(
                f.name,
                e.name,
            )
            &&& !no_dead_caller(calls, found, e.name) ==> e.test_calls >= f.test_calls
        }),
{
    let all = ranked(found, group);
    let inside = |x: FindingView| group.contains(x.name);
    crate::seqs::filter_members(found, inside, f);
    crate::seqs::arranged_members(found.filter(inside), by_calls_then_name(), f);
    assert(all.contains(f));
    let k = choose|k: int| 0 <= k < all.len() && all[k] == f;
    the_first_way_in(calls, found, all);
    let i = way_in(calls, names_of(found).to_set(), all);
    let e = all[i];
    assert(region_of(calls, found, group).entry == e);
    ranks_are_ordered();
    crate::order::arranged_in_order(found.filter(inside), by_calls_then_name());
    if no_dead_caller(calls, found, f.name) {
        assert(no_dead_caller(calls, found, all[k].name));
        assert(!(k < i));
        if i < k {
            assert(!by_calls_then_name()(all[k], all[i]));
        } else {
            crate::order::text_less_irreflexive(f.name);
        }
    }
    if !no_dead_caller(calls, found, e.name) {
        assert forall|j: int| 0 <= j < all.len() implies !no_dead_caller(
            calls,
            found,
            (#[trigger] all[j]).name,
        ) by {}
        assert(i == 0);
        if 0 < k {
            assert(!by_calls_then_name()(all[k], all[0]));
        }
    }
}

/// Two are linked where one of them calls the other, both are among those that
/// are looked at, and they are not the same.
pub proof fn links_go_both_ways(calls: Set<Call>, within: Set<Seq<char>>, a: Seq<char>, b: Seq<char>)
    ensures
        linked(calls, within).contains((a, b)) <==> a != b && within.contains(a) && within.contains(
            b,
        ) && (calls.contains((a, b)) || calls.contains((b, a))),
        linked(calls, within).contains((a, b)) <==> linked(calls, within).contains((b, a)),
{
}

/// What lies behind the way in is told by distance from it, the nearest first.
pub proof fn the_nearest_come_first(s: ScanView, n: int, i: int, j: int)
    requires
        0 <= n < regions_of(s).len(),
        0 <= i < j < regions_of(s)[n].members.len(),
    ensures
        ({
            let r = regions_of(s)[n];
            let links = linked(s.edges, names_of(unreachable_code(s)).to_set());
            distance(links, r.entry.name, r.members[i].name) <= distance(
                links,
                r.entry.name,
                r.members[j].name,
            )
        }),
{
    crate::regions::regions_tell_their_members(s, n);
    let r = regions_of(s)[n];
    let links = linked(s.edges, names_of(unreachable_code(s)).to_set());
    assert(!crate::regions::by_distance(links, r.entry.name)(r.members[j], r.members[i]));
}

/// What a chain of calls leads to is reached, and only that.
pub proof fn what_a_chain_leads_to_is_reached(
    calls: Set<Call>,
    roots: Set<Seq<char>>,
    p: Seq<Seq<char>>,
    x: Seq<char>,
)
    ensures
        p.len() > 0 && roots.contains(p[0]) && (forall|i: int|
            0 <= i < p.len() - 1 ==> calls.contains((#[trigger] p[i], p[i + 1]))) ==> reach(
            calls,
            roots,
        ).contains(p.last()),
        reach(calls, roots).contains(x) ==> exists|q: Seq<Seq<char>>|
            q.len() > 0 && roots.contains(q[0]) && #[trigger] q.last() == x && forall|i: int|
                0 <= i < q.len() - 1 ==> calls.contains((#[trigger] q[i], q[i + 1])),
{
    if p.len() > 0 && roots.contains(p[0]) && (forall|i: int|
        0 <= i < p.len() - 1 ==> calls.contains((#[trigger] p[i], p[i + 1]))) {
        assert forall|i: int| 0 <= i < p.len() - 1 implies #[trigger] crate::graph::step(
            calls,
            p,
            i,
        ) by {
            assert(calls.contains((p[i], p[i + 1])));
        }
        assert(crate::graph::walk(calls, p));
    }
    if reach(calls, roots).contains(x) {
        let q = choose|q: Seq<Seq<char>>|
            #![trigger crate::graph::walk(calls, q)]
            crate::graph::walk(calls, q) && roots.contains(q[0]) && q.last() == x;
        assert forall|i: int| 0 <= i < q.len() - 1 implies calls.contains(
            (#[trigger] q[i], q[i + 1]),
        ) by {
            assert(crate::graph::step(calls, q, i));
        }
        assert(q.last() == x);
    }
}

} // verus!
