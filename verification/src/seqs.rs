//! Facts about sequences.

use vstd::prelude::*;

use crate::order::arranged;
use crate::order::in_order;
use crate::order::placed;
use crate::order::weak_order;

verus! {

/// Filtering one more value.
pub proof fn filter_step<A>(s: Seq<A>, p: spec_fn(A) -> bool, i: int)
    requires
        0 <= i < s.len(),
    ensures
        s.take(i + 1).filter(p) == (if p(s[i]) {
            s.take(i).filter(p).push(s[i])
        } else {
            s.take(i).filter(p)
        }),
{
    reveal(Seq::filter);
    let t = s.take(i + 1);
    assert(t.drop_last() =~= s.take(i));
    assert(t.last() == s[i]);
}

/// The members of a list with one more value.
pub proof fn pushed_members<A>(s: Seq<A>, y: A, x: A)
    ensures
        s.push(y).contains(x) == (s.contains(x) || x == y),
{
    let t = s.push(y);
    assert(t[s.len() as int] == y);
    if s.contains(x) {
        let i = choose|i: int| 0 <= i < s.len() && s[i] == x;
        assert(t[i] == x);
    }
    if t.contains(x) && x != y {
        let i = choose|i: int| 0 <= i < t.len() && t[i] == x;
        assert(s[i] == x);
    }
}

/// What a filter lets through stood there and passes.
pub proof fn filter_members<A>(s: Seq<A>, p: spec_fn(A) -> bool, x: A)
    ensures
        s.filter(p).contains(x) == (s.contains(x) && p(x)),
    decreases s.len(),
{
    reveal(Seq::filter);
    if s.len() > 0 {
        let t = s.drop_last();
        filter_members(t, p, x);
        pushed_members(t, s.last(), x);
        assert(t.push(s.last()) =~= s);
        pushed_members(t.filter(p), s.last(), x);
    }
}

/// Mapping what was pushed.
pub proof fn map_push<A, B>(s: Seq<A>, f: spec_fn(A) -> B, x: A)
    ensures
        s.push(x).map_values(f) == s.map_values(f).push(f(x)),
{
    assert(s.push(x).map_values(f) =~= s.map_values(f).push(f(x)));
}

/// The members of a mapped list.
pub proof fn map_members<A, B>(s: Seq<A>, f: spec_fn(A) -> B, y: B)
    ensures
        s.map_values(f).contains(y) == exists|i: int| 0 <= i < s.len() && f(#[trigger] s[i]) == y,
{
    let m = s.map_values(f);
    if m.contains(y) {
        let i = choose|i: int| 0 <= i < m.len() && m[i] == y;
        assert(f(s[i]) == y);
    }
    if exists|i: int| 0 <= i < s.len() && f(#[trigger] s[i]) == y {
        let i = choose|i: int| 0 <= i < s.len() && f(#[trigger] s[i]) == y;
        assert(m[i] == y);
    }
}

proof fn placed_maps<A, B>(
    s: Seq<A>,
    x: A,
    f: spec_fn(A) -> B,
    ahead: spec_fn(A, A) -> bool,
    ahead_too: spec_fn(B, B) -> bool,
)
    requires
        forall|a: A, b: A| #[trigger] ahead(a, b) == ahead_too(f(a), f(b)),
    ensures
        placed(s, x, ahead).map_values(f) == placed(s.map_values(f), f(x), ahead_too),
    decreases s.len(),
{
    let m = s.map_values(f);
    if s.len() == 0 || !ahead(s[0], x) {
        assert((seq![x] + s).map_values(f) =~= seq![f(x)] + m);
    } else {
        placed_maps(s.skip(1), x, f, ahead, ahead_too);
        assert(m.skip(1) =~= s.skip(1).map_values(f));
        assert((seq![s[0]] + placed(s.skip(1), x, ahead)).map_values(f) =~= seq![m[0]] + placed(
            m.skip(1),
            f(x),
            ahead_too,
        ));
    }
}

/// Sorting values and sorting what they map to come to the same, where one
/// order is read off the other.
pub proof fn arranged_maps<A, B>(
    s: Seq<A>,
    f: spec_fn(A) -> B,
    ahead: spec_fn(A, A) -> bool,
    ahead_too: spec_fn(B, B) -> bool,
)
    requires
        forall|a: A, b: A| #[trigger] ahead(a, b) == ahead_too(f(a), f(b)),
    ensures
        arranged(s, ahead).map_values(f) == arranged(s.map_values(f), ahead_too),
    decreases s.len(),
{
    if s.len() == 0 {
        assert(s.map_values(f) =~= Seq::<B>::empty());
    } else {
        arranged_maps(s.skip(1), f, ahead, ahead_too);
        placed_maps(arranged(s.skip(1), ahead), s[0], f, ahead, ahead_too);
        assert(s.map_values(f).skip(1) =~= s.skip(1).map_values(f));
    }
}

/// Sorting keeps the members.
pub proof fn arranged_members<T>(s: Seq<T>, ahead: spec_fn(T, T) -> bool, x: T)
    ensures
        arranged(s, ahead).contains(x) == s.contains(x),
        arranged(s, ahead).len() == s.len(),
{
    broadcast use vstd::seq_lib::group_to_multiset_ensures;

    crate::order::arranged_keeps(s, ahead);
    let r = arranged(s, ahead);
    assert(r.to_multiset().count(x) == s.to_multiset().count(x));
}

/// Orders that agree on the values of a list arrange it alike.
pub proof fn arranged_alike<T>(
    s: Seq<T>,
    ahead: spec_fn(T, T) -> bool,
    other: spec_fn(T, T) -> bool,
)
    requires
        forall|a: T, b: T|
            s.contains(a) && s.contains(b) ==> #[trigger] ahead(a, b) == other(a, b),
    ensures
        arranged(s, ahead) == arranged(s, other),
    decreases s.len(),
{
    if s.len() > 0 {
        let rest = s.skip(1);
        assert forall|x: T| #[trigger] rest.contains(x) implies s.contains(x) by {
            let k = choose|k: int| 0 <= k < rest.len() && rest[k] == x;
            assert(s[k + 1] == x);
        }
        arranged_alike(rest, ahead, other);
        let t = arranged(rest, ahead);
        assert(s.contains(s[0]));
        assert forall|x: T| #[trigger] t.contains(x) implies s.contains(x) by {
            arranged_members(rest, ahead, x);
        }
        placed_alike(t, s[0], ahead, other);
    }
}

proof fn placed_alike<T>(
    s: Seq<T>,
    x: T,
    ahead: spec_fn(T, T) -> bool,
    other: spec_fn(T, T) -> bool,
)
    requires
        forall|a: T| #[trigger] s.contains(a) ==> ahead(a, x) == other(a, x),
    ensures
        placed(s, x, ahead) == placed(s, x, other),
    decreases s.len(),
{
    if s.len() > 0 {
        assert(s.contains(s[0]));
        let rest = s.skip(1);
        assert forall|a: T| #[trigger] rest.contains(a) implies s.contains(a) by {
            let k = choose|k: int| 0 <= k < rest.len() && rest[k] == a;
            assert(s[k + 1] == a);
        }
        placed_alike(rest, x, ahead, other);
    }
}

/// How often a value passes a filter.
pub proof fn filter_counts<A>(s: Seq<A>, p: spec_fn(A) -> bool, x: A)
    ensures
        s.filter(p).to_multiset().count(x) == (if p(x) {
            s.to_multiset().count(x)
        } else {
            0
        }),
    decreases s.len(),
{
    broadcast use vstd::seq_lib::group_to_multiset_ensures;
    reveal(Seq::filter);

    if s.len() > 0 {
        let less = s.drop_last();
        filter_counts(less, p, x);
        assert(s =~= less.push(s.last()));
    } else {
        assert(s.filter(p) =~= s);
    }
}

/// Filtering further what was mapped, where the second filter sees in an image
/// what `also` sees in the value.
pub proof fn filter_then_map<A, B>(
    s: Seq<A>,
    keep: spec_fn(A) -> bool,
    also: spec_fn(A) -> bool,
    f: spec_fn(A) -> B,
    more: spec_fn(B) -> bool,
)
    requires
        forall|i: int|
            0 <= i < s.len() && keep(#[trigger] s[i]) ==> more(f(s[i])) == also(s[i]),
    ensures
        s.filter(|x: A| keep(x) && also(x)).map_values(f) == s.filter(keep).map_values(f).filter(
            more,
        ),
    decreases s.len(),
{
    reveal(Seq::filter);
    let both = |x: A| keep(x) && also(x);
    if s.len() > 0 {
        let less = s.drop_last();
        let x = s.last();
        assert forall|i: int| 0 <= i < less.len() && keep(#[trigger] less[i]) implies more(
            f(less[i]),
        ) == also(less[i]) by {
            assert(less[i] == s[i]);
        }
        filter_then_map(less, keep, also, f, more);
        assert(x == s[s.len() - 1]);
        if keep(x) {
            let kept = less.filter(keep);
            map_push(kept, f, x);
            assert(kept.map_values(f).push(f(x)).drop_last() =~= kept.map_values(f));
        }
        if both(x) {
            map_push(less.filter(both), f, x);
        }
    } else {
        assert(s.filter(both) =~= s);
        assert(s.filter(keep) =~= s);
        assert(s.map_values(f) =~= Seq::<B>::empty());
    }
}

proof fn filter_one<T>(x: T, p: spec_fn(T) -> bool)
    ensures
        seq![x].filter(p) == (if p(x) {
            seq![x]
        } else {
            seq![]
        }),
{
    reveal_with_fuel(Seq::filter, 2);
    assert(seq![x].drop_last() =~= Seq::<T>::empty());
    assert(Seq::<T>::empty().push(x) =~= seq![x]);
}

proof fn placed_filtered<T>(
    s: Seq<T>,
    x: T,
    ahead: spec_fn(T, T) -> bool,
    p: spec_fn(T) -> bool,
)
    requires
        weak_order(ahead),
        in_order(s, ahead),
    ensures
        placed(s, x, ahead).filter(p) == (if p(x) {
            placed(s.filter(p), x, ahead)
        } else {
            s.filter(p)
        }),
    decreases s.len(),
{
    filter_one(x, p);
    if s.len() == 0 || !ahead(s[0], x) {
        Seq::filter_distributes_over_add(seq![x], s, p);
        let kept = s.filter(p);
        if kept.len() > 0 {
            assert(kept.contains(kept[0]));
            filter_members(s, p, kept[0]);
            let k = choose|k: int| 0 <= k < s.len() && s[k] == kept[0];
            if k > 0 {
                assert(!ahead(s[k], s[0]));
            }
            assert(!ahead(kept[0], x));
        }
        assert(Seq::<T>::empty() + kept =~= kept);
    } else {
        let rest = s.skip(1);
        assert forall|i: int, j: int| 0 <= i < j < rest.len() implies !ahead(
            #[trigger] rest[j],
            #[trigger] rest[i],
        ) by {
            assert(rest[j] == s[j + 1]);
            assert(rest[i] == s[i + 1]);
        }
        placed_filtered(rest, x, ahead, p);
        filter_one(s[0], p);
        assert(s =~= seq![s[0]] + rest);
        Seq::filter_distributes_over_add(seq![s[0]], rest, p);
        Seq::filter_distributes_over_add(seq![s[0]], placed(rest, x, ahead), p);
        let tail = rest.filter(p);
        if p(s[0]) {
            assert((seq![s[0]] + tail).skip(1) =~= tail);
        } else {
            assert(Seq::<T>::empty() + tail =~= tail);
            assert(Seq::<T>::empty() + placed(rest, x, ahead).filter(p) =~= placed(
                rest,
                x,
                ahead,
            ).filter(p));
        }
    }
}

/// To sort and then filter is to filter and then sort.
pub proof fn arranged_filtered<T>(
    s: Seq<T>,
    ahead: spec_fn(T, T) -> bool,
    p: spec_fn(T) -> bool,
)
    requires
        weak_order(ahead),
    ensures
        arranged(s, ahead).filter(p) == arranged(s.filter(p), ahead),
    decreases s.len(),
{
    if s.len() > 0 {
        let rest = s.skip(1);
        arranged_filtered(rest, ahead, p);
        crate::order::arranged_in_order(rest, ahead);
        placed_filtered(arranged(rest, ahead), s[0], ahead, p);
        filter_one(s[0], p);
        assert(s =~= seq![s[0]] + rest);
        Seq::filter_distributes_over_add(seq![s[0]], rest, p);
        if p(s[0]) {
            assert((seq![s[0]] + rest.filter(p)).skip(1) =~= rest.filter(p));
        } else {
            assert(Seq::<T>::empty() + rest.filter(p) =~= rest.filter(p));
        }
    } else {
        reveal(Seq::filter);
        assert(s.filter(p) =~= s);
    }
}

} // verus!
