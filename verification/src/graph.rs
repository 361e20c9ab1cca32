//! Who calls whom, and what can be reached.

use vstd::prelude::*;

use crate::names::NameMap;
use crate::names::NameSet;
use crate::text::texts;

verus! {

/// A call: the caller and the name that it invokes.
pub type Call = (Seq<char>, Seq<char>);

/// The `i`th name of `p` calls the next.
pub open spec fn step(calls: Set<Call>, p: Seq<Seq<char>>, i: int) -> bool {
    calls.contains((p[i], p[i + 1]))
}

/// Each name of `p` calls the next.
pub open spec fn walk(calls: Set<Call>, p: Seq<Seq<char>>) -> bool {
    &&& p.len() > 0
    &&& forall|i: int| 0 <= i < p.len() - 1 ==> #[trigger] step(calls, p, i)
}

/// Some chain of calls, which may be empty, leads from one of `roots` to `x`.
pub open spec fn reaches(calls: Set<Call>, roots: Set<Seq<char>>, x: Seq<char>) -> bool {
    exists|p: Seq<Seq<char>>|
        #![trigger walk(calls, p)]
        walk(calls, p) && roots.contains(p[0]) && p.last() == x
}

/// Everything that some chain of calls from `roots` leads to.
pub open spec fn reach(calls: Set<Call>, roots: Set<Seq<char>>) -> Set<Seq<char>> {
    Set::new(|x: Seq<char>| reaches(calls, roots, x))
}

/// `s` holds all that its members call.
pub open spec fn closed_under(calls: Set<Call>, s: Set<Seq<char>>) -> bool {
    forall|a: Seq<char>, b: Seq<char>|
        s.contains(a) && #[trigger] calls.contains((a, b)) ==> s.contains(b)
}

/// A root is reached.
pub proof fn roots_are_reached(calls: Set<Call>, roots: Set<Seq<char>>, x: Seq<char>)
    requires
        roots.contains(x),
    ensures
        reaches(calls, roots, x),
{
    let p = seq![x];
    assert(walk(calls, p));
}

/// What a reached name calls is reached.
pub proof fn reach_follows(
    calls: Set<Call>,
    roots: Set<Seq<char>>,
    a: Seq<char>,
    b: Seq<char>,
)
    requires
        reaches(calls, roots, a),
        calls.contains((a, b)),
    ensures
        reaches(calls, roots, b),
{
    let p = choose|p: Seq<Seq<char>>|
        #![trigger walk(calls, p)]
        walk(calls, p) && roots.contains(p[0]) && p.last() == a;
    let q = p.push(b);
    assert forall|i: int| 0 <= i < q.len() - 1 implies #[trigger] step(calls, q, i) by {
        if i < p.len() - 1 {
            assert(step(calls, p, i));
        }
    }
    assert(walk(calls, q));
    assert(q[0] == p[0]);
}

/// Nothing is reached beyond the roots and what they lead to: a set that holds
/// the roots and all that its members call holds everything reached.
pub proof fn reach_is_least(
    calls: Set<Call>,
    roots: Set<Seq<char>>,
    s: Set<Seq<char>>,
    x: Seq<char>,
)
    requires
        roots.subset_of(s),
        closed_under(calls, s),
        reaches(calls, roots, x),
    ensures
        s.contains(x),
{
    let p = choose|p: Seq<Seq<char>>|
        #![trigger walk(calls, p)]
        walk(calls, p) && roots.contains(p[0]) && p.last() == x;
    walk_stays(calls, p, s, p.len() - 1);
}

proof fn walk_stays(calls: Set<Call>, p: Seq<Seq<char>>, s: Set<Seq<char>>, i: int)
    requires
        walk(calls, p),
        s.contains(p[0]),
        closed_under(calls, s),
        0 <= i < p.len(),
    ensures
        s.contains(p[i]),
    decreases i,
{
    if i > 0 {
        walk_stays(calls, p, s, i - 1);
        assert(step(calls, p, i - 1));
    }
}

/// More calls and more roots reach no less.
pub proof fn reach_grows(
    fewer: Set<Call>,
    more: Set<Call>,
    roots: Set<Seq<char>>,
    wider: Set<Seq<char>>,
)
    requires
        fewer.subset_of(more),
        roots.subset_of(wider),
    ensures
        reach(fewer, roots).subset_of(reach(more, wider)),
{
    assert forall|x: Seq<char>| reach(fewer, roots).contains(x) implies reach(
        more,
        wider,
    ).contains(x) by {
        let p = choose|p: Seq<Seq<char>>|
            #![trigger walk(fewer, p)]
            walk(fewer, p) && roots.contains(p[0]) && p.last() == x;
        assert forall|i: int| 0 <= i < p.len() - 1 implies #[trigger] step(more, p, i) by {
            assert(step(fewer, p, i));
        }
        assert(walk(more, p));
    }
}

/// Starting again from what was reached reaches nothing new.
pub proof fn reach_is_stable(calls: Set<Call>, roots: Set<Seq<char>>)
    ensures
        reach(calls, reach(calls, roots)) == reach(calls, roots),
{
    let r = reach(calls, roots);
    assert forall|a: Seq<char>, b: Seq<char>|
        r.contains(a) && #[trigger] calls.contains((a, b)) implies r.contains(b) by {
        reach_follows(calls, roots, a, b);
    }
    assert forall|x: Seq<char>| reach(calls, r).contains(x) == r.contains(x) by {
        if r.contains(x) {
            roots_are_reached(calls, r, x);
        }
        if reaches(calls, r, x) {
            reach_is_least(calls, r, r, x);
        }
    }
    assert(reach(calls, r) =~= r);
}

/// The calls the other way round.
pub open spec fn reversed(calls: Set<Call>) -> Set<Call> {
    Set::new(|c: Call| calls.contains((c.1, c.0)))
}

/// A chain of calls leads from one name to another exactly where a chain the
/// other way round leads back.
pub proof fn reach_reversed(calls: Set<Call>, a: Seq<char>, b: Seq<char>)
    ensures
        reaches(calls, set![a], b) == reaches(reversed(calls), set![b], a),
{
    if reaches(calls, set![a], b) {
        reach_back(calls, a, b);
    }
    if reaches(reversed(calls), set![b], a) {
        reach_back(reversed(calls), b, a);
        assert(reversed(reversed(calls)) =~= calls);
    }
}

proof fn reach_back(calls: Set<Call>, a: Seq<char>, b: Seq<char>)
    requires
        reaches(calls, set![a], b),
    ensures
        reaches(reversed(calls), set![b], a),
{
    let p = choose|p: Seq<Seq<char>>|
        #![trigger walk(calls, p)]
        walk(calls, p) && set![a].contains(p[0]) && p.last() == b;
    let q = Seq::new(p.len(), |i: int| p[p.len() - 1 - i]);
    assert forall|i: int| 0 <= i < q.len() - 1 implies #[trigger] step(reversed(calls), q, i) by {
        assert(step(calls, p, p.len() - 2 - i));
    }
    assert(walk(reversed(calls), q));
    assert(set![b].contains(q[0]));
    assert(q.last() == a);
}

/// What is reached from several roots is reached from one of them.
pub proof fn reach_from_one(calls: Set<Call>, roots: Set<Seq<char>>, x: Seq<char>)
    ensures
        reaches(calls, roots, x) == exists|a: Seq<char>| #[trigger]
            roots.contains(a) && reaches(calls, set![a], x),
{
    if reaches(calls, roots, x) {
        let p = choose|p: Seq<Seq<char>>|
            #![trigger walk(calls, p)]
            walk(calls, p) && roots.contains(p[0]) && p.last() == x;
        assert(set![p[0]].contains(p[0]));
        assert(reaches(calls, set![p[0]], x));
    }
    if exists|a: Seq<char>| #[trigger] roots.contains(a) && reaches(calls, set![a], x) {
        let a = choose|a: Seq<char>| #[trigger] roots.contains(a) && reaches(calls, set![a], x);
        let p = choose|p: Seq<Seq<char>>|
            #![trigger walk(calls, p)]
            walk(calls, p) && set![a].contains(p[0]) && p.last() == x;
        assert(p[0] == a);
    }
}

/// A chain of `n` calls leads from `a` to `b`.
pub open spec fn joined(calls: Set<Call>, a: Seq<char>, b: Seq<char>, n: nat) -> bool {
    exists|p: Seq<Seq<char>>|
        #![trigger walk(calls, p)]
        walk(calls, p) && p.len() == n + 1 && p[0] == a && p.last() == b
}

/// `n` is the length of the shortest chain of calls from `a` to `b`.
pub open spec fn shortest(calls: Set<Call>, a: Seq<char>, b: Seq<char>, n: nat) -> bool {
    &&& joined(calls, a, b, n)
    &&& forall|m: nat| #[trigger] joined(calls, a, b, m) ==> n <= m
}

/// How many calls the shortest chain from `a` to `b` has, where there is one.
pub open spec fn distance(calls: Set<Call>, a: Seq<char>, b: Seq<char>) -> nat {
    choose|n: nat| shortest(calls, a, b, n)
}

/// The distance is the length of the shortest chain.
pub proof fn distance_is_shortest(calls: Set<Call>, a: Seq<char>, b: Seq<char>, n: nat)
    requires
        shortest(calls, a, b, n),
    ensures
        distance(calls, a, b) == n,
{
    let d = distance(calls, a, b);
    assert(shortest(calls, a, b, d));
}

/// A chain that leads to a caller leads on to what it calls.
pub proof fn joined_follows(
    calls: Set<Call>,
    a: Seq<char>,
    b: Seq<char>,
    c: Seq<char>,
    n: nat,
)
    requires
        joined(calls, a, b, n),
        calls.contains((b, c)),
    ensures
        joined(calls, a, c, n + 1),
{
    let p = choose|p: Seq<Seq<char>>|
        #![trigger walk(calls, p)]
        walk(calls, p) && p.len() == n + 1 && p[0] == a && p.last() == b;
    let q = p.push(c);
    assert forall|i: int| 0 <= i < q.len() - 1 implies #[trigger] step(calls, q, i) by {
        if i < p.len() - 1 {
            assert(step(calls, p, i));
        }
    }
    assert(walk(calls, q));
    assert(q[0] == a && q.last() == c);
}

/// The first `n` of `list` have all that they call in it, no more than one
/// call further away than they are; what stands in front is no further away
/// than what follows.
#[verifier::opaque]
spec fn measured(
    calls: Set<Call>,
    a: Seq<char>,
    list: Seq<Seq<char>>,
    far: Map<Seq<char>, usize>,
    n: int,
) -> bool {
    &&& 0 <= n <= list.len()
    &&& list.len() > 0
    &&& list[0] == a
    &&& far[a] == 0
    &&& forall|i: int|
        0 <= i < list.len() ==> far[#[trigger] list[i]] <= i && joined(
            calls,
            a,
            list[i],
            far[list[i]] as nat,
        )
    &&& forall|i: int, j: int|
        0 <= i <= j < list.len() ==> far[#[trigger] list[i]] <= far[#[trigger] list[j]]
    &&& forall|i: int|
        0 <= i < list.len() && n < list.len() ==> far[#[trigger] list[i]] <= far[list[n]] + 1
    &&& forall|i: int, b: Seq<char>|
        0 <= i < n && #[trigger] calls.contains((list[i], b)) ==> list.contains(b) && far[b]
            <= far[list[i]] + 1
}

proof fn measure_starts(calls: Set<Call>, a: Seq<char>, far: Map<Seq<char>, usize>)
    requires
        far[a] == 0,
    ensures
        measured(calls, a, seq![a], far, 0),
{
    reveal(measured);
    let p = seq![a];
    assert(walk(calls, p));
    assert(joined(calls, a, a, 0));
}

proof fn measure_goes_on(
    calls: Set<Call>,
    a: Seq<char>,
    before: Seq<Seq<char>>,
    near: Map<Seq<char>, usize>,
    after: Seq<Seq<char>>,
    far: Map<Seq<char>, usize>,
    n: int,
)
    requires
        measured(calls, a, before, near, n),
        n < before.len(),
        before.is_prefix_of(after),
        after.no_duplicates(),
        forall|x: Seq<char>| #[trigger]
            after.contains(x) == (before.contains(x) || calls.contains((before[n], x))),
        forall|x: Seq<char>| #[trigger]
            after.contains(x) ==> far[x] == (if before.contains(x) {
                near[x] as int
            } else {
                near[before[n]] + 1
            }),
    ensures
        measured(calls, a, after, far, n + 1),
{
    reveal(measured);
    let d = near[before[n]];
    assert forall|i: int| 0 <= i < after.len() implies after.contains(#[trigger] after[i]) && (i
        < before.len() ==> after[i] == before[i] && far[after[i]] == near[before[i]]) && (i
        >= before.len() ==> far[after[i]] == d + 1 && calls.contains((before[n], after[i]))) by {
        assert(after.contains(after[i]));
        if i < before.len() {
            assert(after[i] == before[i]);
            assert(before.contains(before[i]));
        } else if before.contains(after[i]) {
            let k = choose|k: int| 0 <= k < before.len() && before[k] == after[i];
            assert(after[k] == after[i]);
        }
    }
    assert(before.contains(before[n]));
    assert forall|i: int| 0 <= i < after.len() implies far[#[trigger] after[i]] <= i && joined(
        calls,
        a,
        after[i],
        far[after[i]] as nat,
    ) by {
        if i < before.len() {
            assert(near[before[i]] <= i);
        } else {
            assert(near[before[n]] <= n);
            joined_follows(calls, a, before[n], after[i], d as nat);
        }
    }
    assert forall|i: int, j: int| 0 <= i <= j < after.len() implies far[#[trigger] after[i]]
        <= far[#[trigger] after[j]] by {
        if i < before.len() {
            assert(near[before[i]] <= d + 1);
        }
        if j < before.len() {
            assert(near[before[i]] <= near[before[j]]);
        }
    }
    assert forall|i: int| 0 <= i < after.len() && n + 1 < after.len() implies far[
        #[trigger] after[i]] <= far[after[n + 1]] + 1 by {
        assert(far[after[n]] <= far[after[n + 1]]);
        if i < before.len() {
            assert(near[before[i]] <= d + 1);
        }
    }
    assert forall|i: int, b: Seq<char>|
        0 <= i < n + 1 && #[trigger] calls.contains((after[i], b)) implies after.contains(b)
        && far[b] <= far[after[i]] + 1 by {
        assert(after[i] == before[i]);
        if i < n {
            assert(calls.contains((before[i], b)));
            assert(before.contains(b));
        }
        assert(after.contains(b));
        if before.contains(b) {
            let k = choose|k: int| 0 <= k < before.len() && before[k] == b;
            assert(near[before[k]] <= d + 1);
        }
    }
}

proof fn measure_bounds(
    calls: Set<Call>,
    a: Seq<char>,
    list: Seq<Seq<char>>,
    far: Map<Seq<char>, usize>,
    n: int,
    i: int,
)
    requires
        measured(calls, a, list, far, n),
        0 <= i < list.len(),
    ensures
        far[list[i]] <= i,
{
    reveal(measured);
}

proof fn walk_measured(
    calls: Set<Call>,
    a: Seq<char>,
    list: Seq<Seq<char>>,
    far: Map<Seq<char>, usize>,
    p: Seq<Seq<char>>,
    i: int,
)
    requires
        measured(calls, a, list, far, list.len() as int),
        walk(calls, p),
        p[0] == a,
        0 <= i < p.len(),
    ensures
        list.contains(p[i]),
        far[p[i]] <= i,
    decreases i,
{
    reveal(measured);
    if i > 0 {
        walk_measured(calls, a, list, far, p, i - 1);
        assert(step(calls, p, i - 1));
        let k = choose|k: int| 0 <= k < list.len() && list[k] == p[i - 1];
        assert(calls.contains((list[k], p[i])));
    } else {
        assert(list.contains(list[0]));
    }
}

proof fn measure_ends(
    calls: Set<Call>,
    a: Seq<char>,
    list: Seq<Seq<char>>,
    far: Map<Seq<char>, usize>,
    x: Seq<char>,
)
    requires
        measured(calls, a, list, far, list.len() as int),
        list.contains(x),
    ensures
        far[x] == distance(calls, a, x),
{
    let n = far[x] as nat;
    assert(joined(calls, a, x, n)) by {
        reveal(measured);
        let k = choose|k: int| 0 <= k < list.len() && list[k] == x;
        assert(far[list[k]] <= k);
    }
    assert forall|m: nat| #[trigger] joined(calls, a, x, m) implies n <= m by {
        let p = choose|p: Seq<Seq<char>>|
            #![trigger walk(calls, p)]
            walk(calls, p) && p.len() == m + 1 && p[0] == a && p.last() == x;
        walk_measured(calls, a, list, far, p, m as int);
    }
    distance_is_shortest(calls, a, x, n);
}

/// A caller with the names that it invokes.
pub type Row = (Seq<char>, Seq<Seq<char>>);

/// The calls that `rows` list.
pub open spec fn calls_of(rows: Seq<Row>) -> Set<Call> {
    Set::new(
        |c: Call| exists|i: int| 0 <= i < rows.len() && (#[trigger] rows[i]).0 == c.0 && rows[i].1.contains(c.1),
    )
}

/// `names` with `x` at the end, where it is not among them.
pub open spec fn with_name(names: Seq<Seq<char>>, x: Seq<char>) -> Seq<Seq<char>> {
    if names.contains(x) {
        names
    } else {
        names.push(x)
    }
}

/// `rows` with the call of `to` by `from`: in the row of `from`, or in a new
/// row at the end.
pub open spec fn rows_with(rows: Seq<Row>, from: Seq<char>, to: Seq<char>) -> Seq<Row>
    decreases rows.len(),
{
    if rows.len() == 0 {
        seq![(from, seq![to])]
    } else if rows[0].0 == from {
        seq![(from, with_name(rows[0].1, to))] + rows.skip(1)
    } else {
        seq![rows[0]] + rows_with(rows.skip(1), from, to)
    }
}

proof fn call_in_row(rows: Seq<Row>, from: Seq<char>, to: Seq<char>, k: int)
    requires
        0 <= k < rows.len(),
        rows[k].0 == from,
        forall|i: int| 0 <= i < k ==> (#[trigger] rows[i]).0 != from,
    ensures
        rows_with(rows, from, to) == rows.update(k, (from, with_name(rows[k].1, to))),
    decreases rows.len(),
{
    let after = rows.update(k, (from, with_name(rows[k].1, to)));
    if k > 0 {
        assert(rows[0].0 != from);
        let rest = rows.skip(1);
        assert forall|i: int| 0 <= i < k - 1 implies (#[trigger] rest[i]).0 != from by {
            assert(rest[i] == rows[i + 1]);
        }
        call_in_row(rest, from, to, k - 1);
    }
    assert(rows_with(rows, from, to) =~= after);
}

proof fn call_in_new_row(rows: Seq<Row>, from: Seq<char>, to: Seq<char>)
    requires
        forall|i: int| 0 <= i < rows.len() ==> (#[trigger] rows[i]).0 != from,
    ensures
        rows_with(rows, from, to) == rows.push((from, seq![to])),
    decreases rows.len(),
{
    if rows.len() > 0 {
        assert(rows[0].0 != from);
        let rest = rows.skip(1);
        assert forall|i: int| 0 <= i < rest.len() implies (#[trigger] rest[i]).0 != from by {
            assert(rest[i] == rows[i + 1]);
        }
        call_in_new_row(rest, from, to);
    }
    assert(rows_with(rows, from, to) =~= rows.push((from, seq![to])));
}

/// Each caller has one row, which names each of its callees once, and at
/// least one.
pub open spec fn each_once(rows: Seq<Row>) -> bool {
    &&& forall|i: int, j: int|
        0 <= i < rows.len() && 0 <= j < rows.len() && (#[trigger] rows[i]).0 == (
        #[trigger] rows[j]).0 ==> i == j
    &&& forall|i: int|
        0 <= i < rows.len() ==> (#[trigger] rows[i]).1.len() > 0 && rows[i].1.no_duplicates()
}

/// Adding a call keeps one row to a caller and one mention to a callee, and
/// adds that call alone.
pub proof fn calls_are_listed_once(rows: Seq<Row>, from: Seq<char>, to: Seq<char>)
    requires
        each_once(rows),
    ensures
        each_once(rows_with(rows, from, to)),
        calls_of(rows_with(rows, from, to)) == calls_of(rows).insert((from, to)),
{
    let after = rows_with(rows, from, to);
    if exists|k: int| 0 <= k < rows.len() && (#[trigger] rows[k]).0 == from {
        let k = choose|k: int| 0 <= k < rows.len() && (#[trigger] rows[k]).0 == from;
        call_in_row(rows, from, to, k);
        assert forall|i: int| 0 <= i < after.len() implies (#[trigger] after[i]).0 == rows[i].0
            && after[i].1.len() > 0 && after[i].1.no_duplicates() by {
            assert(rows[i].1.no_duplicates());
        }
        assert(after[k].1.contains(to)) by {
            let row = rows[k].1;
            if !row.contains(to) {
                assert(row.push(to)[row.len() as int] == to);
            }
        }
        assert forall|c: Call|
            calls_of(after).contains(c) == calls_of(rows).insert((from, to)).contains(c) by {
            crate::seqs::pushed_members(rows[k].1, to, c.1);
            if calls_of(after).contains(c) {
                let i = choose|i: int|
                    0 <= i < after.len() && (#[trigger] after[i]).0 == c.0 && after[i].1.contains(
                        c.1,
                    );
                assert(rows[i].0 == c.0);
            }
            if calls_of(rows).contains(c) {
                let i = choose|i: int|
                    0 <= i < rows.len() && (#[trigger] rows[i]).0 == c.0 && rows[i].1.contains(c.1);
                assert(after[i].0 == c.0);
            }
        }
    } else {
        call_in_new_row(rows, from, to);
        let n = rows.len() as int;
        assert(after[n] == (from, seq![to]));
        assert(seq![to][0] == to);
        assert forall|i: int| 0 <= i < n implies (#[trigger] after[i]) == rows[i] by {}
        assert forall|i: int, j: int|
            0 <= i < after.len() && 0 <= j < after.len() && (#[trigger] after[i]).0 == (
            #[trigger] after[j]).0 implies i == j by {
            if i < n && j < n {
                assert(rows[i].0 == rows[j].0);
            }
        }
        assert forall|c: Call|
            calls_of(after).contains(c) == calls_of(rows).insert((from, to)).contains(c) by {
            if calls_of(after).contains(c) {
                let i = choose|i: int|
                    0 <= i < after.len() && (#[trigger] after[i]).0 == c.0 && after[i].1.contains(
                        c.1,
                    );
                if i < n {
                    assert(rows[i].0 == c.0);
                }
            }
            if calls_of(rows).contains(c) {
                let i = choose|i: int|
                    0 <= i < rows.len() && (#[trigger] rows[i]).0 == c.0 && rows[i].1.contains(c.1);
                assert(after[i].0 == c.0);
            }
        }
    }
    assert(calls_of(after) =~= calls_of(rows).insert((from, to)));
}

/// The call graph: each caller with the names that it invokes.
pub struct CallGraph {
    rows: NameMap<NameSet>,
}

impl CallGraph {
    /// Each caller once, first come first, with the names that it invokes.
    pub closed spec fn rows(&self) -> Seq<Row> {
        Seq::new(
            self.rows.keys().len(),
            |i: int| (self.rows.keys()[i], self.rows@[self.rows.keys()[i]].list()),
        )
    }

    /// The calls.
    pub open spec fn view(&self) -> Set<Call> {
        calls_of(self.rows())
    }

    pub fn new() -> (r: Self)
        ensures
            r.rows() == Seq::<Row>::empty(),
            r@ == Set::<Call>::empty(),
    {
        let r = CallGraph { rows: NameMap::new() };
        assert(r.rows() =~= Seq::<Row>::empty());
        assert(r@ =~= Set::<Call>::empty());
        r
    }

    proof fn calls_listed(&self, a: Seq<char>, b: Seq<char>)
        ensures
            self@.contains((a, b)) == (self.rows@.contains_key(a) && self.rows@[a]@.contains(b)),
    {
        let rows = self.rows();
        if self.rows@.contains_key(a) && self.rows@[a]@.contains(b) {
            let i = choose|i: int| 0 <= i < self.rows.keys().len() && self.rows.keys()[i] == a;
            assert(rows[i].0 == a && rows[i].1.contains(b));
        }
        if self@.contains((a, b)) {
            let i = choose|i: int|
                0 <= i < rows.len() && (#[trigger] rows[i]).0 == a && rows[i].1.contains(b);
            assert(self.rows.keys()[i] == a);
        }
    }

    /// Adds the call of `to` by `from`.
    pub fn add_call(&mut self, from: &str, to: &str)
        ensures
            final(self)@ == old(self)@.insert((from@, to@)),
            final(self).rows() == rows_with(old(self).rows(), from@, to@),
    {
        let ghost start = *self;
        let count: usize = self.rows.len();
        let mut callees = match self.rows.exchange(from, NameSet::new()) {
            Some(s) => s,
            None => NameSet::new(),
        };
        let ghost before = callees.list();
        callees.insert(to);
        let ghost row = callees;
        self.rows.exchange(from, callees);
        proof {
            assert(self.rows@ =~= start.rows@.insert(from@, row));
            assert(row.list() == with_name(before, to@));
            if start.rows@.contains_key(from@) {
                let k = choose|k: int|
                    0 <= k < start.rows.keys().len() && start.rows.keys()[k] == from@;
                call_in_row(start.rows(), from@, to@, k);
            } else {
                assert forall|i: int| 0 <= i < start.rows().len() implies (
                #[trigger] start.rows()[i]).0 != from@ by {
                    assert(start.rows.keys()[i] != from@) by {
                        if start.rows.keys()[i] == from@ {
                            assert(start.rows.keys().contains(from@));
                        }
                    }
                }
                assert(with_name(before, to@) =~= seq![to@]);
                call_in_new_row(start.rows(), from@, to@);
            }
            assert forall|i: int| 0 <= i < start.rows.keys().len() implies start.rows@.contains_key(
                #[trigger] start.rows.keys()[i],
            ) by {}
            assert(self.rows() =~= rows_with(start.rows(), from@, to@));
            assert forall|c: Call| self@.contains(c) == start@.insert((from@, to@)).contains(c) by {
                self.calls_listed(c.0, c.1);
                start.calls_listed(c.0, c.1);
            }
            assert(self@ =~= start@.insert((from@, to@)));
        }
    }

    pub fn calls(&self, from: &str, to: &str) -> (r: bool)
        ensures
            r == self@.contains((from@, to@)),
    {
        proof {
            self.calls_listed(from@, to@);
        }
        match self.rows.get(from) {
            Some(callees) => callees.contains(to),
            None => false,
        }
    }

    /// How many callers there are.
    pub fn len(&self) -> (r: usize)
        ensures
            r == self.rows().len(),
    {
        self.rows.len()
    }

    /// The `i`th caller and what it invokes.
    pub fn row(&self, i: usize) -> (r: (&String, &Vec<String>))
        requires
            i < self.rows().len(),
        ensures
            (r.0@, texts(r.1@)) == self.rows()[i as int],
    {
        let (name, callees) = self.rows.at(i);
        (name, callees.items())
    }

    /// Everything that some chain of calls from `roots` leads to, roots
    /// first.
    pub fn reach_from(&self, roots: &NameSet) -> (r: NameSet)
        ensures
            r@ == reach(self@, roots@),
    {
        let mut seen = roots.copy();
        let mut done: usize = 0;
        let ghost universe = roots@.union(targets(self.rows()));
        let count: usize = seen.len();
        proof {
            targets_finite(self.rows());
            vstd::seq_lib::seq_to_set_is_finite(roots.list());
            assert forall|a: Seq<char>, b: Seq<char>| #[trigger]
                self@.contains((a, b)) implies universe.contains(b) by {
                target_of(self.rows(), a, b);
            }
            search_starts(self@, roots@, seen.list(), universe);
        }
        loop
            invariant
                forall|a: Seq<char>, b: Seq<char>| #[trigger]
                    self@.contains((a, b)) ==> universe.contains(b),
                searched(self@, roots@, seen.list(), done as int, universe),
            ensures
                searched(self@, roots@, seen.list(), seen.list().len() as int, universe),
            decreases universe.len() - done,
        {
            let names = seen.items();
            proof {
                search_bounded(self@, roots@, seen.list(), done as int, universe);
            }
            if done == names.len() {
                break;
            }
            let name = names[done].clone();
            let ghost before = seen.list();
            proof {
                assert(before[done as int] == name@);
            }
            let ghost start = seen@;
            self.expand(&mut seen, name.as_str());
            let total: usize = seen.len();
            proof {
                assert forall|x: Seq<char>| #[trigger]
                    seen.list().to_set().contains(x) == (before.to_set().contains(x)
                        || self@.contains((before[done as int], x))) by {
                    assert(seen@.contains(x) == (start.contains(x) || self@.contains((name@, x))));
                }
                search_goes_on(self@, roots@, before, seen.list(), done as int, universe);
                search_bounded(self@, roots@, seen.list(), done + 1, universe);
            }
            done += 1;
        }
        proof {
            search_ends(self@, roots@, seen.list(), universe);
        }
        seen
    }

    /// Adds to `seen` all that `name` calls.
    fn expand(&self, seen: &mut NameSet, name: &str)
        ensures
            forall|x: Seq<char>| #[trigger]
                final(seen)@.contains(x) == (old(seen)@.contains(x) || self@.contains((name@, x))),
            old(seen).list().is_prefix_of(final(seen).list()),
    {
        proof {
            assert forall|b: Seq<char>| #[trigger]
                self@.contains((name@, b)) == (self.rows@.contains_key(name@)
                    && self.rows@[name@]@.contains(b)) by {
                self.calls_listed(name@, b);
            }
        }
        if let Some(callees) = self.rows.get(name) {
            self.add_all(seen, callees);
        }
    }

    fn add_all(&self, seen: &mut NameSet, more: &NameSet)
        ensures
            final(seen)@ == old(seen)@.union(more@),
            old(seen).list().is_prefix_of(final(seen).list()),
    {
        let ghost start = seen@;
        let ghost list = seen.list();
        let names = more.items();
        let ghost all = texts(names@);
        let mut i: usize = 0;
        proof {
            assert(all.take(0).to_set() =~= Set::<Seq<char>>::empty());
            assert(start.union(all.take(0).to_set()) =~= start);
        }
        while i < names.len()
            invariant
                0 <= i <= names@.len(),
                all == texts(names@),
                seen@ == start.union(all.take(i as int).to_set()),
                list.is_prefix_of(seen.list()),
            decreases names@.len() - i,
        {
            seen.insert(names[i].as_str());
            proof {
                assert(all.take(i + 1) =~= all.take(i as int).push(all[i as int]));
                crate::names::pushed_set(all.take(i as int), all[i as int]);
                assert(start.union(all.take(i as int).to_set()).insert(all[i as int])
                    =~= start.union(all.take(i + 1).to_set()));
            }
            i += 1;
        }
        assert(all.take(all.len() as int) =~= all);
    }

    /// How far each name that some chain of calls from `start` leads to is
    /// away from it.
    pub fn distances(&self, start: &str) -> (r: NameMap<usize>)
        ensures
            r@.dom() == reach(self@, set![start@]),
            forall|x: Seq<char>| #[trigger]
                r@.contains_key(x) ==> r@[x] == distance(self@, start@, x),
    {
        let ghost roots = set![start@];
        let mut far: NameMap<usize> = NameMap::new();
        far.exchange(start, 0);
        let mut done: usize = 0;
        let ghost universe = roots.union(targets(self.rows()));
        proof {
            targets_finite(self.rows());
            assert forall|a: Seq<char>, b: Seq<char>| #[trigger]
                self@.contains((a, b)) implies universe.contains(b) by {
                target_of(self.rows(), a, b);
            }
            assert(far.keys() =~= seq![start@]);
            assert(far.keys()[0] == start@);
            assert(roots =~= far.keys().to_set());
            search_starts(self@, roots, far.keys(), universe);
            measure_starts(self@, start@, far@);
        }
        loop
            invariant
                forall|a: Seq<char>, b: Seq<char>| #[trigger]
                    self@.contains((a, b)) ==> universe.contains(b),
                searched(self@, roots, far.keys(), done as int, universe),
                measured(self@, start@, far.keys(), far@, done as int),
            ensures
                searched(self@, roots, far.keys(), far.keys().len() as int, universe),
                measured(self@, start@, far.keys(), far@, far.keys().len() as int),
            decreases universe.len() - done,
        {
            let total: usize = far.len();
            proof {
                search_bounded(self@, roots, far.keys(), done as int, universe);
            }
            if done == total {
                break;
            }
            let (name, d) = far.at(done);
            let name = name.clone();
            let d: usize = *d;
            let ghost before = far.keys();
            let ghost near = far@;
            proof {
                measure_bounds(self@, start@, before, near, done as int, done as int);
            }
            self.approach(&mut far, name.as_str(), d);
            let total: usize = far.len();
            proof {
                assert forall|x: Seq<char>| #[trigger]
                    far.keys().contains(x) == (before.contains(x) || self@.contains(
                        (before[done as int], x),
                    )) by {
                    assert(far@.contains_key(x) == (near.contains_key(x) || self@.contains(
                        (name@, x),
                    )));
                }
                assert forall|x: Seq<char>| #[trigger] far.keys().contains(x) implies far@[x]
                    == (if before.contains(x) {
                    near[x] as int
                } else {
                    near[before[done as int]] + 1
                }) by {
                    assert(far@.contains_key(x));
                    assert(near.contains_key(x) == before.contains(x));
                }
                assert forall|x: Seq<char>| #[trigger]
                    far.keys().to_set().contains(x) == (before.to_set().contains(x)
                        || self@.contains((before[done as int], x))) by {
                    assert(far.keys().contains(x) == (before.contains(x) || self@.contains(
                        (before[done as int], x),
                    )));
                }
                measure_goes_on(self@, start@, before, near, far.keys(), far@, done as int);
                search_goes_on(self@, roots, before, far.keys(), done as int, universe);
                search_bounded(self@, roots, far.keys(), done + 1, universe);
            }
            done += 1;
        }
        proof {
            search_ends(self@, roots, far.keys(), universe);
            assert(far@.dom() =~= far.keys().to_set());
            assert forall|x: Seq<char>| #[trigger] far@.contains_key(x) implies far@[x]
                == distance(self@, start@, x) by {
                measure_ends(self@, start@, far.keys(), far@, x);
            }
        }
        far
    }

    /// Adds to `far` what `name` calls, one call further away than `name`,
    /// unless it is there.
    fn approach(&self, far: &mut NameMap<usize>, name: &str, d: usize)
        requires
            d < usize::MAX,
        ensures
            old(far).keys().is_prefix_of(final(far).keys()),
            forall|x: Seq<char>| #[trigger]
                final(far)@.contains_key(x) == (old(far)@.contains_key(x) || self@.contains(
                    (name@, x),
                )),
            forall|x: Seq<char>| #[trigger]
                final(far)@.contains_key(x) ==> final(far)@[x] == (if old(far)@.contains_key(x) {
                    old(far)@[x] as int
                } else {
                    d + 1
                }),
    {
        proof {
            assert forall|b: Seq<char>| #[trigger]
                self@.contains((name@, b)) == (self.rows@.contains_key(name@)
                    && self.rows@[name@]@.contains(b)) by {
                self.calls_listed(name@, b);
            }
        }
        if let Some(callees) = self.rows.get(name) {
            let ghost start = *far;
            let names = callees.items();
            let ghost all = texts(names@);
            let mut i: usize = 0;
            while i < names.len()
                invariant
                    0 <= i <= names@.len(),
                    all == texts(names@),
                    d < usize::MAX,
                    start.keys().is_prefix_of(far.keys()),
                    forall|x: Seq<char>| #[trigger]
                        far@.contains_key(x) == (start@.contains_key(x) || all.take(
                            i as int,
                        ).contains(x)),
                    forall|x: Seq<char>| #[trigger]
                        far@.contains_key(x) ==> far@[x] == (if start@.contains_key(x) {
                            start@[x] as int
                        } else {
                            d + 1
                        }),
                decreases names@.len() - i,
            {
                let callee = names[i].as_str();
                let ghost now = *far;
                proof {
                    assert(all.take(i + 1) =~= all.take(i as int).push(all[i as int]));
                    assert forall|x: Seq<char>|
                        all.take(i + 1).contains(x) == (all.take(i as int).contains(x) || x
                            == callee@) by {
                        crate::seqs::pushed_members(all.take(i as int), all[i as int], x);
                    }
                }
                if far.get(callee).is_none() {
                    far.exchange(callee, d + 1);
                }
                i += 1;
            }
            proof {
                assert(all.take(all.len() as int) =~= all);
                assert forall|x: Seq<char>| callees@.contains(x) == all.contains(x) by {}
            }
        }
    }

    /// The calls the other way round.
    pub fn turned(&self) -> (r: CallGraph)
        ensures
            r@ == reversed(self@),
    {
        let mut r = CallGraph::new();
        let ghost rows = self.rows();
        let mut i: usize = 0;
        let n: usize = self.len();
        while i < n
            invariant
                0 <= i <= n,
                n == rows.len(),
                rows == self.rows(),
                forall|c: Call| #[trigger]
                    r@.contains(c) == calls_of(rows.take(i as int)).contains((c.1, c.0)),
            decreases n - i,
        {
            let (from, tos) = self.row(i);
            let ghost start = r@;
            let ghost t = texts(tos@);
            let mut j: usize = 0;
            while j < tos.len()
                invariant
                    0 <= j <= tos@.len(),
                    t == texts(tos@),
                    forall|c: Call| #[trigger]
                        r@.contains(c) == (start.contains(c) || (c.1 == from@ && t.take(
                            j as int,
                        ).contains(c.0))),
                decreases tos@.len() - j,
            {
                let ghost now = r@;
                r.add_call(tos[j].as_str(), from.as_str());
                proof {
                    assert(t.take(j + 1) =~= t.take(j as int).push(t[j as int]));
                    assert forall|c: Call| #[trigger]
                        r@.contains(c) == (start.contains(c) || (c.1 == from@ && t.take(
                            j + 1,
                        ).contains(c.0))) by {
                        assert(now.contains(c) == (start.contains(c) || (c.1 == from@ && t.take(
                            j as int,
                        ).contains(c.0))));
                        crate::seqs::pushed_members(t.take(j as int), t[j as int], c.0);
                    }
                }
                j += 1;
            }
            proof {
                assert(t.take(t.len() as int) =~= t);
                assert forall|c: Call| #[trigger]
                    r@.contains(c) == calls_of(rows.take(i + 1)).contains((c.1, c.0)) by {
                    assert(start.contains(c) == calls_of(rows.take(i as int)).contains(
                        (c.1, c.0),
                    ));
                    last_row(rows, i as int, c.1, c.0);
                }
            }
            i += 1;
        }
        proof {
            assert(rows.take(rows.len() as int) =~= rows);
            assert(r@ =~= reversed(self@));
        }
        r
    }

    /// The calls that `other` does not have.
    pub fn without(&self, other: &CallGraph) -> (r: CallGraph)
        ensures
            r@ == self@.difference(other@),
    {
        let mut r = CallGraph::new();
        let ghost rows = self.rows();
        let mut i: usize = 0;
        let n: usize = self.len();
        while i < n
            invariant
                0 <= i <= n,
                n == rows.len(),
                rows == self.rows(),
                forall|c: Call| #[trigger]
                    r@.contains(c) == (calls_of(rows.take(i as int)).contains(c)
                        && !other@.contains(c)),
            decreases n - i,
        {
            let (from, tos) = self.row(i);
            let ghost start = r@;
            let ghost t = texts(tos@);
            let mut j: usize = 0;
            while j < tos.len()
                invariant
                    0 <= j <= tos@.len(),
                    t == texts(tos@),
                    forall|c: Call| #[trigger]
                        r@.contains(c) == (start.contains(c) || (c.0 == from@ && t.take(
                            j as int,
                        ).contains(c.1) && !other@.contains(c))),
                decreases tos@.len() - j,
            {
                let ghost now = r@;
                if !other.calls(from.as_str(), tos[j].as_str()) {
                    r.add_call(from.as_str(), tos[j].as_str());
                }
                proof {
                    assert(t.take(j + 1) =~= t.take(j as int).push(t[j as int]));
                    assert forall|c: Call| #[trigger]
                        r@.contains(c) == (start.contains(c) || (c.0 == from@ && t.take(
                            j + 1,
                        ).contains(c.1) && !other@.contains(c))) by {
                        assert(now.contains(c) == (start.contains(c) || (c.0 == from@ && t.take(
                            j as int,
                        ).contains(c.1) && !other@.contains(c))));
                        crate::seqs::pushed_members(t.take(j as int), t[j as int], c.1);
                    }
                }
                j += 1;
            }
            proof {
                assert(t.take(t.len() as int) =~= t);
                assert forall|c: Call| #[trigger]
                    r@.contains(c) == (calls_of(rows.take(i + 1)).contains(c) && !other@.contains(
                        c,
                    )) by {
                    assert(start.contains(c) == (calls_of(rows.take(i as int)).contains(c)
                        && !other@.contains(c)));
                    last_row(rows, i as int, c.0, c.1);
                }
            }
            i += 1;
        }
        proof {
            assert(rows.take(rows.len() as int) =~= rows);
            assert(r@ =~= self@.difference(other@));
        }
        r
    }

    /// The calls between different names of `within`, in both directions.
    pub fn both_ways(&self, within: &NameSet) -> (r: CallGraph)
        ensures
            r@ == linked(self@, within@),
    {
        let mut r = CallGraph::new();
        let ghost rows = self.rows();
        let mut i: usize = 0;
        let n: usize = self.len();
        while i < n
            invariant
                0 <= i <= n,
                n == rows.len(),
                rows == self.rows(),
                forall|c: Call| #[trigger]
                    r@.contains(c) == linked(calls_of(rows.take(i as int)), within@).contains(c),
            decreases n - i,
        {
            let (from, tos) = self.row(i);
            let ghost start = r@;
            let mut j: usize = 0;
            let inside: bool = within.contains(from.as_str());
            while j < tos.len()
                invariant
                    0 <= j <= tos@.len(),
                    inside == within@.contains(from@),
                    forall|c: Call| #[trigger]
                        r@.contains(c) == (start.contains(c) || linked(
                            calls_of(seq![(from@, texts(tos@).take(j as int))]),
                            within@,
                        ).contains(c)),
                decreases tos@.len() - j,
            {
                let to = &tos[j];
                let ghost now = r@;
                let ghost short = seq![(from@, texts(tos@).take(j as int))];
                let ghost long = seq![(from@, texts(tos@).take(j + 1))];
                if inside && within.contains(to.as_str()) && !crate::text::same(
                    from.as_str(),
                    to.as_str(),
                ) {
                    r.add_call(from.as_str(), to.as_str());
                    r.add_call(to.as_str(), from.as_str());
                }
                proof {
                    let t = texts(tos@);
                    assert(t.take(j + 1) =~= t.take(j as int).push(to@));
                    assert forall|a: Seq<char>, b: Seq<char>|
                        calls_of(long).contains((a, b)) == (calls_of(short).contains((a, b)) || (a
                            == from@ && b == to@)) by {
                        one_row(from@, t.take(j as int), a, b);
                        one_row(from@, t.take(j + 1), a, b);
                        crate::names::pushed_set(t.take(j as int), to@);
                        assert(t.take(j as int).to_set().contains(b) == t.take(j as int).contains(b));
                        assert(t.take(j + 1).to_set().contains(b) == t.take(j + 1).contains(b));
                    }
                    assert forall|c: Call| #[trigger]
                        r@.contains(c) == (start.contains(c) || linked(
                            calls_of(long),
                            within@,
                        ).contains(c)) by {
                        assert(now.contains(c) == (start.contains(c) || linked(
                            calls_of(short),
                            within@,
                        ).contains(c)));
                    }
                }
                j += 1;
            }
            proof {
                let t = texts(tos@);
                assert(t.take(t.len() as int) =~= t);
                assert(rows.take(i + 1) =~= rows.take(i as int).push(rows[i as int]));
                assert forall|a: Seq<char>, b: Seq<char>|
                    calls_of(rows.take(i + 1)).contains((a, b)) == (calls_of(
                        rows.take(i as int),
                    ).contains((a, b)) || calls_of(seq![rows[i as int]]).contains((a, b))) by {
                    last_row(rows, i as int, a, b);
                    one_row(from@, t, a, b);
                }
                assert forall|c: Call| #[trigger]
                    r@.contains(c) == linked(calls_of(rows.take(i + 1)), within@).contains(c) by {
                    assert(start.contains(c) == linked(
                        calls_of(rows.take(i as int)),
                        within@,
                    ).contains(c));
                }
            }
            i += 1;
        }
        proof {
            assert(rows.take(rows.len() as int) =~= rows);
            assert(r@ =~= linked(self@, within@));
        }
        r
    }
}

/// The calls between different names of `within`, in both directions.
pub open spec fn linked(calls: Set<Call>, within: Set<Seq<char>>) -> Set<Call> {
    Set::new(
        |c: Call|
            within.contains(c.0) && within.contains(c.1) && c.0 != c.1 && (calls.contains(c)
                || calls.contains((c.1, c.0))),
    )
}

proof fn one_row(from: Seq<char>, tos: Seq<Seq<char>>, a: Seq<char>, b: Seq<char>)
    ensures
        calls_of(seq![(from, tos)]).contains((a, b)) == (a == from && tos.contains(b)),
{
    let rows = seq![(from, tos)];
    assert(rows[0] == (from, tos));
}

proof fn last_row(rows: Seq<Row>, i: int, a: Seq<char>, b: Seq<char>)
    requires
        0 <= i < rows.len(),
    ensures
        calls_of(rows.take(i + 1)).contains((a, b)) == (calls_of(rows.take(i)).contains((a, b)) || (
        rows[i].0 == a && rows[i].1.contains(b))),
{
    let short = rows.take(i);
    let long = rows.take(i + 1);
    if calls_of(long).contains((a, b)) {
        let k = choose|k: int|
            0 <= k < long.len() && (#[trigger] long[k]).0 == a && long[k].1.contains(b);
        if k < i {
            assert(short[k].0 == a);
        }
    }
    if calls_of(short).contains((a, b)) {
        let k = choose|k: int|
            0 <= k < short.len() && (#[trigger] short[k]).0 == a && short[k].1.contains(b);
        assert(long[k].0 == a);
    }
    if rows[i].0 == a && rows[i].1.contains(b) {
        assert(long[i].0 == a);
    }
}

/// `list` holds the roots and only what is reached, and what its first `n`
/// names call.
#[verifier::opaque]
spec fn searched(
    calls: Set<Call>,
    roots: Set<Seq<char>>,
    list: Seq<Seq<char>>,
    n: int,
    universe: Set<Seq<char>>,
) -> bool {
    &&& list.no_duplicates()
    &&& 0 <= n <= list.len()
    &&& universe.finite()
    &&& forall|x: Seq<char>| #[trigger] roots.contains(x) ==> list.contains(x)
    &&& forall|x: Seq<char>| #[trigger]
        list.contains(x) ==> universe.contains(x) && reaches(calls, roots, x)
    &&& forall|i: int, b: Seq<char>|
        0 <= i < n && #[trigger] calls.contains((list[i], b)) ==> list.contains(b)
}

proof fn search_starts(
    calls: Set<Call>,
    roots: Set<Seq<char>>,
    list: Seq<Seq<char>>,
    universe: Set<Seq<char>>,
)
    requires
        roots == list.to_set(),
        list.no_duplicates(),
        universe.finite(),
        roots.subset_of(universe),
    ensures
        searched(calls, roots, list, 0, universe),
{
    reveal(searched);
    assert forall|x: Seq<char>| #[trigger] list.contains(x) implies reaches(
        calls,
        roots,
        x,
    ) by {
        roots_are_reached(calls, roots, x);
    }
}

proof fn search_bounded(
    calls: Set<Call>,
    roots: Set<Seq<char>>,
    list: Seq<Seq<char>>,
    n: int,
    universe: Set<Seq<char>>,
)
    requires
        searched(calls, roots, list, n, universe),
    ensures
        0 <= n <= list.len() <= universe.len(),
{
    reveal(searched);
    list.unique_seq_to_set();
    vstd::set_lib::lemma_len_subset(list.to_set(), universe);
}

proof fn search_goes_on(
    calls: Set<Call>,
    roots: Set<Seq<char>>,
    before: Seq<Seq<char>>,
    after: Seq<Seq<char>>,
    n: int,
    universe: Set<Seq<char>>,
)
    requires
        searched(calls, roots, before, n, universe),
        forall|a: Seq<char>, b: Seq<char>| #[trigger]
            calls.contains((a, b)) ==> universe.contains(b),
        n < before.len(),
        before.is_prefix_of(after),
        after.no_duplicates(),
        forall|x: Seq<char>| #[trigger]
            after.to_set().contains(x) == (before.to_set().contains(x) || calls.contains(
                (before[n], x),
            )),
    ensures
        searched(calls, roots, after, n + 1, universe),
{
    reveal(searched);
    assert forall|x: Seq<char>| #[trigger] roots.contains(x) implies after.contains(x) by {
        assert(after.to_set().contains(x));
    }
    assert forall|x: Seq<char>| #[trigger] after.contains(x) implies universe.contains(x)
        && reaches(calls, roots, x) by {
        assert(after.to_set().contains(x));
        if !before.to_set().contains(x) {
            assert(before.contains(before[n]));
            reach_follows(calls, roots, before[n], x);
        } else {
            assert(before.contains(x));
        }
    }
    assert forall|i: int, b: Seq<char>|
        0 <= i < n + 1 && #[trigger] calls.contains((after[i], b)) implies after.contains(b) by {
        assert(after[i] == before[i]);
        if i < n {
            assert(calls.contains((before[i], b)));
            assert(before.contains(b));
        }
        assert(after.to_set().contains(b));
    }
}

proof fn search_ends(
    calls: Set<Call>,
    roots: Set<Seq<char>>,
    list: Seq<Seq<char>>,
    universe: Set<Seq<char>>,
)
    requires
        searched(calls, roots, list, list.len() as int, universe),
    ensures
        list.to_set() == reach(calls, roots),
{
    reveal(searched);
    let s = list.to_set();
    assert forall|a: Seq<char>, b: Seq<char>|
        s.contains(a) && #[trigger] calls.contains((a, b)) implies s.contains(b) by {
        let i = choose|i: int| 0 <= i < list.len() && list[i] == a;
        assert(calls.contains((list[i], b)));
    }
    assert forall|x: Seq<char>| s.contains(x) == reach(calls, roots).contains(x) by {
        if reaches(calls, roots, x) {
            reach_is_least(calls, roots, s, x);
        }
    }
    assert(s =~= reach(calls, roots));
}

spec fn targets(rows: Seq<Row>) -> Set<Seq<char>>
    decreases rows.len(),
{
    if rows.len() == 0 {
        Set::empty()
    } else {
        targets(rows.drop_last()).union(rows.last().1.to_set())
    }
}

proof fn targets_finite(rows: Seq<Row>)
    ensures
        targets(rows).finite(),
    decreases rows.len(),
{
    if rows.len() > 0 {
        targets_finite(rows.drop_last());
        vstd::seq_lib::seq_to_set_is_finite(rows.last().1);
    }
}

proof fn target_of(rows: Seq<Row>, a: Seq<char>, b: Seq<char>)
    requires
        calls_of(rows).contains((a, b)),
    ensures
        targets(rows).contains(b),
    decreases rows.len(),
{
    let k = choose|k: int|
        0 <= k < rows.len() && (#[trigger] rows[k]).0 == a && rows[k].1.contains(b);
    if k == rows.len() - 1 {
        assert(rows.last().1.to_set().contains(b));
    } else {
        assert(rows.drop_last()[k].0 == a);
        target_of(rows.drop_last(), a, b);
    }
}

} // verus!
