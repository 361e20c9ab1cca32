//! Orders on texts and stable sorting.

use vstd::prelude::*;

use crate::text::chars_of;
use crate::text::texts;

verus! {

// ---------------------------------------------------------------------------
// The order of texts
// ---------------------------------------------------------------------------

/// `a` comes strictly before `b`, character by character.
pub open spec fn text_less(a: Seq<char>, b: Seq<char>) -> bool
    decreases a.len(),
{
    b.len() > 0 && (a.len() == 0 || a[0] < b[0] || (a[0] == b[0] && text_less(
        a.skip(1),
        b.skip(1),
    )))
}

/// No text comes before itself.
pub proof fn text_less_irreflexive(a: Seq<char>)
    ensures
        !text_less(a, a),
    decreases a.len(),
{
    if a.len() > 0 {
        text_less_irreflexive(a.skip(1));
    }
}

/// What comes before a text comes before all that follows it.
pub proof fn text_less_transitive(a: Seq<char>, b: Seq<char>, c: Seq<char>)
    requires
        text_less(a, b),
        text_less(b, c),
    ensures
        text_less(a, c),
    decreases a.len(),
{
    if a.len() > 0 && a[0] == b[0] && b[0] == c[0] {
        text_less_transitive(a.skip(1), b.skip(1), c.skip(1));
    }
}

/// Of two different texts one comes before the other.
pub proof fn text_less_total(a: Seq<char>, b: Seq<char>)
    ensures
        a == b || text_less(a, b) || text_less(b, a),
    decreases a.len(),
{
    if a.len() > 0 && b.len() > 0 && a[0] == b[0] {
        text_less_total(a.skip(1), b.skip(1));
        if a.skip(1) == b.skip(1) {
            assert(a =~= seq![a[0]] + a.skip(1));
            assert(b =~= seq![b[0]] + b.skip(1));
        }
    } else if a.len() == 0 && b.len() == 0 {
        assert(a =~= b);
    }
}

/// Whether `a` comes strictly before `b`.
pub fn less(a: &str, b: &str) -> (r: bool)
    ensures
        r == text_less(a@, b@),
{
    let x = chars_of(a);
    let y = chars_of(b);
    let mut i: usize = 0;
    proof {
        assert(x@.skip(0) =~= x@);
        assert(y@.skip(0) =~= y@);
    }
    loop
        invariant
            0 <= i <= x@.len(),
            i <= y@.len(),
            x@ == a@,
            y@ == b@,
            text_less(a@, b@) == text_less(x@.skip(i as int), y@.skip(i as int)),
        decreases x@.len() - i,
    {
        if i == y.len() {
            return false;
        }
        if i == x.len() {
            return true;
        }
        if x[i] < y[i] {
            return true;
        }
        if y[i] < x[i] {
            return false;
        }
        proof {
            assert(x@.skip(i as int).skip(1) =~= x@.skip(i + 1));
            assert(y@.skip(i as int).skip(1) =~= y@.skip(i + 1));
        }
        i += 1;
    }
}

// ---------------------------------------------------------------------------
// Stable sorting
// ---------------------------------------------------------------------------

/// Which of two values goes first.
pub trait Precedence<T> {
    /// `a` goes strictly ahead of `b`.
    spec fn ahead(&self, a: T, b: T) -> bool;

    fn goes_ahead(&self, a: &T, b: &T) -> (r: bool)
        ensures
            r == self.ahead(*a, *b),
    ;
}

/// `x` put in front of the first value of `s` that does not go ahead of it.
pub open spec fn placed<T>(s: Seq<T>, x: T, ahead: spec_fn(T, T) -> bool) -> Seq<T>
    decreases s.len(),
{
    if s.len() == 0 || !ahead(s[0], x) {
        seq![x] + s
    } else {
        seq![s[0]] + placed(s.skip(1), x, ahead)
    }
}

/// `s` in the order that `ahead` gives; values of which neither goes ahead of
/// the other stay as they stood.
pub open spec fn arranged<T>(s: Seq<T>, ahead: spec_fn(T, T) -> bool) -> Seq<T>
    decreases s.len(),
{
    if s.len() == 0 {
        s
    } else {
        placed(arranged(s.skip(1), ahead), s[0], ahead)
    }
}

/// `ahead` is an order in which values may tie.
pub open spec fn weak_order<T>(ahead: spec_fn(T, T) -> bool) -> bool {
    &&& forall|a: T, b: T| #[trigger] ahead(a, b) ==> !ahead(b, a)
    &&& forall|a: T, b: T, c: T|
        !#[trigger] ahead(b, a) && !#[trigger] ahead(c, b) ==> !ahead(c, a)
}

/// No value of `s` stands behind one that it goes ahead of.
pub open spec fn in_order<T>(s: Seq<T>, ahead: spec_fn(T, T) -> bool) -> bool {
    forall|i: int, j: int| 0 <= i < j < s.len() ==> !ahead(#[trigger] s[j], #[trigger] s[i])
}

proof fn placed_keeps<T>(s: Seq<T>, x: T, ahead: spec_fn(T, T) -> bool)
    ensures
        placed(s, x, ahead).to_multiset() == s.to_multiset().insert(x),
        placed(s, x, ahead).len() == s.len() + 1,
    decreases s.len(),
{
    broadcast use vstd::seq_lib::group_to_multiset_ensures;

    if s.len() == 0 || !ahead(s[0], x) {
        assert(seq![x] + s =~= s.insert(0, x));
        vstd::seq_lib::to_multiset_insert(s, 0, x);
    } else {
        let rest = s.skip(1);
        placed_keeps(rest, x, ahead);
        let tail = placed(rest, x, ahead);
        assert(seq![s[0]] + tail =~= tail.insert(0, s[0]));
        vstd::seq_lib::to_multiset_insert(tail, 0, s[0]);
        assert(s =~= rest.insert(0, s[0]));
        vstd::seq_lib::to_multiset_insert(rest, 0, s[0]);
        assert(tail.to_multiset().insert(s[0]) =~= s.to_multiset().insert(x));
    }
}

/// Sorting keeps every value, as often as it stood there.
pub proof fn arranged_keeps<T>(s: Seq<T>, ahead: spec_fn(T, T) -> bool)
    ensures
        arranged(s, ahead).to_multiset() == s.to_multiset(),
        arranged(s, ahead).len() == s.len(),
    decreases s.len(),
{
    if s.len() > 0 {
        let rest = s.skip(1);
        arranged_keeps(rest, ahead);
        placed_keeps(arranged(rest, ahead), s[0], ahead);
        assert(s =~= rest.insert(0, s[0]));
        vstd::seq_lib::to_multiset_insert(rest, 0, s[0]);
    }
}

proof fn placed_in_order<T>(s: Seq<T>, x: T, ahead: spec_fn(T, T) -> bool)
    requires
        weak_order(ahead),
        in_order(s, ahead),
    ensures
        in_order(placed(s, x, ahead), ahead),
        forall|i: int|
            0 <= i < placed(s, x, ahead).len() ==> #[trigger] placed(s, x, ahead)[i] == x
                || s.contains(placed(s, x, ahead)[i]),
    decreases s.len(),
{
    let r = placed(s, x, ahead);
    if s.len() == 0 {
    } else if !ahead(s[0], x) {
        assert forall|j: int| 0 < j < r.len() implies !ahead(#[trigger] r[j], r[0]) by {
            assert(r[j] == s[j - 1]);
            if j > 1 {
                assert(!ahead(s[j - 1], s[0]));
            }
            assert(!ahead(s[0], x));
        }
        assert forall|i: int, j: int| 0 <= i < j < r.len() implies !ahead(
            #[trigger] r[j],
            #[trigger] r[i],
        ) by {
            if i > 0 {
                assert(r[i] == s[i - 1]);
                assert(r[j] == s[j - 1]);
            }
        }
        assert forall|i: int| 0 <= i < r.len() implies r[i] == x || s.contains(
            #[trigger] r[i],
        ) by {
            if i > 0 {
                assert(r[i] == s[i - 1]);
            }
        }
    } else {
        let rest = s.skip(1);
        assert forall|i: int, j: int| 0 <= i < j < rest.len() implies !ahead(
            #[trigger] rest[j],
            #[trigger] rest[i],
        ) by {
            assert(rest[j] == s[j + 1]);
            assert(rest[i] == s[i + 1]);
        }
        placed_in_order(rest, x, ahead);
        let tail = placed(rest, x, ahead);
        assert forall|i: int| 0 <= i < tail.len() implies !ahead(#[trigger] tail[i], s[0]) && (
        tail[i] == x || s.contains(tail[i])) by {
            if tail[i] == x {
                assert(ahead(s[0], x));
            } else {
                let k = choose|k: int| 0 <= k < rest.len() && rest[k] == tail[i];
                assert(rest[k] == s[k + 1]);
            }
        }
        assert forall|i: int, j: int| 0 <= i < j < r.len() implies !ahead(
            #[trigger] r[j],
            #[trigger] r[i],
        ) by {
            assert(r[j] == tail[j - 1]);
            if i > 0 {
                assert(r[i] == tail[i - 1]);
            }
        }
        assert forall|i: int| 0 <= i < r.len() implies r[i] == x || s.contains(
            #[trigger] r[i],
        ) by {
            if i > 0 {
                assert(r[i] == tail[i - 1]);
            } else {
                assert(r[0] == s[0]);
            }
        }
    }
}

/// What sorting gives is in order, wherever `ahead` is an order.
pub proof fn arranged_in_order<T>(s: Seq<T>, ahead: spec_fn(T, T) -> bool)
    requires
        weak_order(ahead),
    ensures
        in_order(arranged(s, ahead), ahead),
    decreases s.len(),
{
    if s.len() > 0 {
        arranged_in_order(s.skip(1), ahead);
        placed_in_order(arranged(s.skip(1), ahead), s[0], ahead);
    }
}


/// `values` in the order that `precedence` gives, ties as they stood.
pub fn arrange<T, P: Precedence<T>>(values: Vec<T>, precedence: &P) -> (r: Vec<T>)
    ensures
        r@ == arranged(values@, |a: T, b: T| precedence.ahead(a, b)),
{
    let ghost all = values@;
    let ghost ahead = |a: T, b: T| precedence.ahead(a, b);
    let mut rest = values;
    let mut sorted: Vec<T> = Vec::new();
    proof {
        assert(all.skip(all.len() as int) =~= Seq::<T>::empty());
    }
    loop
        invariant
            rest@.len() <= all.len(),
            rest@ == all.take(rest@.len() as int),
            ahead == (|a: T, b: T| precedence.ahead(a, b)),
            sorted@ == arranged(all.skip(rest@.len() as int), ahead),
        ensures
            sorted@ == arranged(all, ahead),
        decreases rest@.len(),
    {
        let ghost before = rest@;
        match rest.pop() {
            None => {
                proof {
                    assert(all.skip(0) =~= all);
                }
                break;
            },
            Some(x) => {
                proof {
                    let n = rest@.len() as int;
                    assert(x == all[n]);
                    assert(all.skip(n).skip(1) =~= all.skip(n + 1));
                    assert(all.skip(n)[0] == x);
                    assert(rest@ =~= all.take(n));
                }
                place(&mut sorted, x, precedence);
            },
        }
    }
    sorted
}

fn place<T, P: Precedence<T>>(sorted: &mut Vec<T>, x: T, precedence: &P)
    ensures
        final(sorted)@ == placed(old(sorted)@, x, |a: T, b: T| precedence.ahead(a, b)),
{
    let ghost ahead = |a: T, b: T| precedence.ahead(a, b);
    let ghost s = sorted@;
    let mut at: usize = 0;
    let len: usize = sorted.len();
    proof {
        assert(s.skip(0) =~= s);
        assert(s.take(0) + placed(s, x, ahead) =~= placed(s, x, ahead));
    }
    while at < len && precedence.goes_ahead(&sorted[at], &x)
        invariant
            0 <= at <= len,
            len == s.len(),
            sorted@ == s,
            ahead == (|a: T, b: T| precedence.ahead(a, b)),
            placed(s, x, ahead) == s.take(at as int) + placed(s.skip(at as int), x, ahead),
        decreases len - at,
    {
        proof {
            let tail = s.skip(at as int);
            assert(tail[0] == s[at as int]);
            assert(tail.skip(1) =~= s.skip(at + 1));
            assert(s.take(at as int) + (seq![tail[0]] + placed(tail.skip(1), x, ahead))
                =~= s.take(at + 1) + placed(s.skip(at + 1), x, ahead));
        }
        at += 1;
    }
    sorted.insert(at, x);
    proof {
        let tail = s.skip(at as int);
        if at < len {
            assert(tail[0] == s[at as int]);
        }
        assert(sorted@ =~= s.take(at as int) + (seq![x] + tail));
    }
}

// ---------------------------------------------------------------------------
// Lists without repeats, in order
// ---------------------------------------------------------------------------

/// A value that texts order: the first that differs decides.
pub trait Keyed: Sized {
    spec fn key(&self) -> Seq<Seq<char>>;

    fn before(&self, other: &Self) -> (r: bool)
        ensures
            r == texts_less(self.key(), other.key()),
    ;
}

/// `a` comes strictly before `b`, text by text.
pub open spec fn texts_less(a: Seq<Seq<char>>, b: Seq<Seq<char>>) -> bool
    decreases a.len(),
{
    b.len() > 0 && (a.len() == 0 || text_less(a[0], b[0]) || (a[0] == b[0] && texts_less(
        a.skip(1),
        b.skip(1),
    )))
}

proof fn texts_less_transitive(a: Seq<Seq<char>>, b: Seq<Seq<char>>, c: Seq<Seq<char>>)
    requires
        texts_less(a, b),
        texts_less(b, c),
    ensures
        texts_less(a, c),
    decreases a.len(),
{
    if a.len() > 0 {
        if text_less(a[0], b[0]) && text_less(b[0], c[0]) {
            text_less_transitive(a[0], b[0], c[0]);
        } else if a[0] == b[0] && b[0] == c[0] {
            text_less_irreflexive(a[0]);
            texts_less_transitive(a.skip(1), b.skip(1), c.skip(1));
        }
    }
}

proof fn texts_less_irreflexive(a: Seq<Seq<char>>)
    ensures
        !texts_less(a, a),
    decreases a.len(),
{
    if a.len() > 0 {
        text_less_irreflexive(a[0]);
        texts_less_irreflexive(a.skip(1));
    }
}

proof fn texts_less_total(a: Seq<Seq<char>>, b: Seq<Seq<char>>)
    ensures
        a == b || texts_less(a, b) || texts_less(b, a),
    decreases a.len(),
{
    if a.len() > 0 && b.len() > 0 {
        text_less_total(a[0], b[0]);
        if a[0] == b[0] {
            texts_less_total(a.skip(1), b.skip(1));
            if a.skip(1) == b.skip(1) {
                assert(a =~= seq![a[0]] + a.skip(1));
                assert(b =~= seq![b[0]] + b.skip(1));
            }
        }
    } else if a.len() == 0 && b.len() == 0 {
        assert(a =~= b);
    }
}

/// Every value of `s` stands strictly before those behind it.
pub open spec fn rising<T: Keyed>(s: Seq<T>) -> bool {
    forall|i: int, j: int|
        0 <= i < j < s.len() ==> texts_less((#[trigger] s[i]).key(), (#[trigger] s[j]).key())
}

/// Some value of `s` has the key `k`.
pub open spec fn keyed<T: Keyed>(s: Seq<T>, k: Seq<Seq<char>>) -> bool {
    exists|i: int| 0 <= i < s.len() && (#[trigger] s[i]).key() == k
}

/// Every key stands strictly before those behind it.
pub open spec fn keys_rise(a: Seq<Seq<Seq<char>>>) -> bool {
    forall|i: int, j: int| 0 <= i < j < a.len() ==> texts_less(#[trigger] a[i], #[trigger] a[j])
}

/// A rising list of keys is fixed by its members.
pub proof fn rising_keys_unique(a: Seq<Seq<Seq<char>>>, b: Seq<Seq<Seq<char>>>)
    requires
        keys_rise(a),
        keys_rise(b),
        forall|k: Seq<Seq<char>>| #[trigger] a.contains(k) == b.contains(k),
    ensures
        a == b,
    decreases a.len(),
{
    if a.len() == 0 {
        if b.len() > 0 {
            assert(b.contains(b[0]));
            assert(a.contains(b[0]));
        }
        assert(a =~= b);
    } else {
        let x = a.last();
        assert(a.contains(x));
        assert(b.contains(x));
        let y = b.last();
        assert(b.contains(y));
        assert(a.contains(y));
        let i = choose|i: int| 0 <= i < a.len() && a[i] == y;
        let j = choose|j: int| 0 <= j < b.len() && b[j] == x;
        if x != y {
            assert(texts_less(a[i], a[a.len() - 1]));
            assert(texts_less(b[j], b[b.len() - 1]));
            texts_less_transitive(x, y, x);
            texts_less_irreflexive(x);
        }
        let a2 = a.drop_last();
        let b2 = b.drop_last();
        assert forall|k: Seq<Seq<char>>| #[trigger] a2.contains(k) == b2.contains(k) by {
            without_last(a, k);
            without_last(b, k);
            assert(a.contains(k) == b.contains(k));
        }
        rising_keys_unique(a2, b2);
        assert(a =~= a2.push(x));
        assert(b =~= b2.push(y));
    }
}

proof fn without_last(a: Seq<Seq<Seq<char>>>, k: Seq<Seq<char>>)
    requires
        keys_rise(a),
        a.len() > 0,
    ensures
        a.drop_last().contains(k) == (a.contains(k) && k != a.last()),
{
    let t = a.drop_last();
    if t.contains(k) {
        let i = choose|i: int| 0 <= i < t.len() && t[i] == k;
        assert(a[i] == k);
        assert(texts_less(a[i], a[a.len() - 1]));
        texts_less_irreflexive(k);
    }
    if a.contains(k) && k != a.last() {
        let i = choose|i: int| 0 <= i < a.len() && a[i] == k;
        assert(t[i] == k);
    }
}

/// A rising list is fixed by the keys that stand in it.
pub proof fn rising_is_unique<T: Keyed>(a: Seq<T>, b: Seq<T>)
    requires
        rising(a),
        rising(b),
        forall|k: Seq<Seq<char>>| keyed(a, k) == keyed(b, k),
    ensures
        a.len() == b.len(),
        forall|i: int| 0 <= i < a.len() ==> (#[trigger] a[i]).key() == b[i].key(),
{
    let ka = a.map_values(|x: T| x.key());
    let kb = b.map_values(|x: T| x.key());
    assert forall|k: Seq<Seq<char>>| #[trigger] ka.contains(k) == kb.contains(k) by {
        crate::seqs::map_members(a, |x: T| x.key(), k);
        crate::seqs::map_members(b, |x: T| x.key(), k);
        assert(keyed(a, k) == keyed(b, k));
        if keyed(a, k) {
            let i = choose|i: int| 0 <= i < a.len() && (#[trigger] a[i]).key() == k;
            assert(ka[i] == k);
        }
        if keyed(b, k) {
            let i = choose|i: int| 0 <= i < b.len() && (#[trigger] b[i]).key() == k;
            assert(kb[i] == k);
        }
    }
    rising_keys_unique(ka, kb);
    assert(ka.len() == a.len() && kb.len() == b.len());
    assert forall|i: int| 0 <= i < a.len() implies (#[trigger] a[i]).key() == b[i].key() by {
        assert(ka[i] == kb[i]);
    }
}

// ---------------------------------------------------------------------------
// Texts in order
// ---------------------------------------------------------------------------

/// Every text stands strictly before those behind it.
pub open spec fn texts_rise(s: Seq<Seq<char>>) -> bool {
    forall|i: int, j: int| 0 <= i < j < s.len() ==> text_less(#[trigger] s[i], #[trigger] s[j])
}

/// The texts of a finite set in order, each once.
pub open spec fn sorted_set(s: Set<Seq<char>>) -> Seq<Seq<char>> {
    choose|r: Seq<Seq<char>>| texts_rise(r) && #[trigger] r.to_set() == s
}

proof fn single_key_less(x: Seq<char>, y: Seq<char>)
    ensures
        texts_less(seq![x], seq![y]) == text_less(x, y),
{
    reveal_with_fuel(texts_less, 2);
    text_less_irreflexive(x);
}

/// Only one list of the texts of a set is in order.
pub proof fn sorted_set_is(r: Seq<Seq<char>>, s: Set<Seq<char>>)
    requires
        texts_rise(r),
        r.to_set() == s,
    ensures
        r == sorted_set(s),
{
    let t = sorted_set(s);
    assert(texts_rise(t) && t.to_set() == s);
    let f = |x: Seq<char>| seq![x];
    let kr = r.map_values(f);
    let kt = t.map_values(f);
    assert forall|i: int, j: int| 0 <= i < j < kr.len() implies texts_less(
        #[trigger] kr[i],
        #[trigger] kr[j],
    ) by {
        single_key_less(r[i], r[j]);
    }
    assert forall|i: int, j: int| 0 <= i < j < kt.len() implies texts_less(
        #[trigger] kt[i],
        #[trigger] kt[j],
    ) by {
        single_key_less(t[i], t[j]);
    }
    assert forall|k: Seq<Seq<char>>| #[trigger] kr.contains(k) == kt.contains(k) by {
        if kr.contains(k) {
            let i = choose|i: int| 0 <= i < kr.len() && kr[i] == k;
            assert(s.contains(r[i]));
            let j = choose|j: int| 0 <= j < t.len() && t[j] == r[i];
            assert(kt[j] == k);
        }
        if kt.contains(k) {
            let i = choose|i: int| 0 <= i < kt.len() && kt[i] == k;
            assert(s.contains(t[i]));
            let j = choose|j: int| 0 <= j < r.len() && r[j] == t[i];
            assert(kr[j] == k);
        }
    }
    rising_keys_unique(kr, kt);
    assert forall|i: int| 0 <= i < r.len() implies r[i] == t[i] by {
        assert(kr[i] == kt[i]);
        assert(kr[i][0] == r[i] && kt[i][0] == t[i]);
    }
    assert(r =~= t);
}

/// The order of texts is an order.
pub proof fn text_order()
    ensures
        weak_order(|a: Seq<char>, b: Seq<char>| text_less(a, b)),
{
    let ahead = |a: Seq<char>, b: Seq<char>| text_less(a, b);
    assert forall|a: Seq<char>, b: Seq<char>| #[trigger] ahead(a, b) implies !ahead(b, a) by {
        if ahead(b, a) {
            text_less_transitive(a, b, a);
            text_less_irreflexive(a);
        }
    }
    assert forall|a: Seq<char>, b: Seq<char>, c: Seq<char>|
        !#[trigger] ahead(b, a) && !#[trigger] ahead(c, b) implies !ahead(c, a) by {
        if text_less(c, a) {
            text_less_total(b, a);
            text_less_total(c, b);
            if b != a && c != b {
                text_less_transitive(a, b, c);
                text_less_transitive(a, c, a);
                text_less_irreflexive(a);
            } else if c != b {
                text_less_transitive(c, a, c);
                text_less_irreflexive(c);
            }
        }
    }
}

proof fn listed_once(s: Set<Seq<char>>)
    requires
        s.finite(),
    ensures
        s.to_seq().no_duplicates(),
    decreases s.len(),
{
    if s.len() > 0 {
        let x = s.choose();
        let rest = s.remove(x);
        listed_once(rest);
        rest.lemma_to_seq_to_set_id();
        assert(!rest.to_seq().contains(x)) by {
            assert(rest.to_seq().to_set().contains(x) == rest.to_seq().contains(x));
        }
        assert(s.to_seq() =~= Seq::<Seq<char>>::empty().push(x) + rest.to_seq());
    }
}

/// The texts of a finite set can be put in order.
pub proof fn sorted_set_exists(s: Set<Seq<char>>)
    requires
        s.finite(),
    ensures
        texts_rise(sorted_set(s)),
        sorted_set(s).to_set() == s,
{
    let ahead = |a: Seq<char>, b: Seq<char>| text_less(a, b);
    let list = s.to_seq();
    s.lemma_to_seq_to_set_id();
    listed_once(s);
    let r = arranged(list, ahead);
    text_order();
    arranged_in_order(list, ahead);
    arranged_keeps(list, ahead);
    assert(r.no_duplicates()) by {
        list.lemma_multiset_has_no_duplicates();
        r.lemma_multiset_has_no_duplicates_conv();
    }
    assert forall|i: int, j: int| 0 <= i < j < r.len() implies text_less(
        #[trigger] r[i],
        #[trigger] r[j],
    ) by {
        assert(!ahead(r[j], r[i]));
        text_less_total(r[i], r[j]);
    }
    assert forall|x: Seq<char>| r.to_set().contains(x) == s.contains(x) by {
        crate::seqs::arranged_members(list, ahead, x);
        assert(list.to_set().contains(x) == list.contains(x));
    }
    assert(r.to_set() =~= s);
    sorted_set_is(r, s);
}

/// The texts of `v` in order, each once.
pub fn sort_texts(v: Vec<String>) -> (r: Vec<String>)
    ensures
        texts(r@) == sorted_set(texts(v@).to_set()),
        texts_rise(texts(r@)),
        texts(r@).to_set() == texts(v@).to_set(),
{
    let ghost all = texts(v@);
    let ghost given = v@;
    let r = sorted_unique(v);
    proof {
        let t = texts(r@);
        assert forall|i: int, j: int| 0 <= i < j < t.len() implies text_less(
            #[trigger] t[i],
            #[trigger] t[j],
        ) by {
            assert(texts_less(r@[i].key(), r@[j].key()));
            single_key_less(t[i], t[j]);
        }
        assert forall|x: Seq<char>| t.to_set().contains(x) == all.to_set().contains(x) by {
            assert(keyed(r@, seq![x]) == keyed(given, seq![x]));
            single_text(r@, x);
            single_text(given, x);
        }
        assert(t.to_set() =~= all.to_set());
        sorted_set_is(t, all.to_set());
    }
    r
}

proof fn single_text(s: Seq<String>, x: Seq<char>)
    ensures
        keyed(s, seq![x]) == texts(s).contains(x),
{
    if keyed(s, seq![x]) {
        let i = choose|i: int| 0 <= i < s.len() && (#[trigger] s[i]).key() == seq![x];
        assert(s[i].key()[0] == seq![x][0]);
        assert(texts(s)[i] == x);
    }
    if texts(s).contains(x) {
        let i = choose|i: int| 0 <= i < s.len() && texts(s)[i] == x;
        assert(s[i].key() =~= seq![x]);
    }
}

// ---------------------------------------------------------------------------
// Sorting without repeats
// ---------------------------------------------------------------------------

/// The values of `values` in order, of those with one key a single one.
pub fn sorted_unique<T: Keyed>(values: Vec<T>) -> (r: Vec<T>)
    ensures
        rising(r@),
        forall|k: Seq<Seq<char>>| keyed(r@, k) == keyed(values@, k),
        forall|i: int| 0 <= i < r@.len() ==> values@.contains(#[trigger] r@[i]),
{
    let ghost all = values@;
    let mut rest = values;
    let mut r: Vec<T> = Vec::new();
    loop
        invariant
            rest@.len() <= all.len(),
            rest@ == all.take(rest@.len() as int),
            rising(r@),
            forall|k: Seq<Seq<char>>|
                keyed(r@, k) == keyed(all.skip(rest@.len() as int), k),
            forall|i: int| 0 <= i < r@.len() ==> all.contains(#[trigger] r@[i]),
        ensures
            rising(r@),
            forall|k: Seq<Seq<char>>| keyed(r@, k) == keyed(all, k),
            forall|i: int| 0 <= i < r@.len() ==> all.contains(#[trigger] r@[i]),
        decreases rest@.len(),
    {
        match rest.pop() {
            None => {
                proof {
                    assert(all.skip(0) =~= all);
                }
                break;
            },
            Some(x) => {
                let ghost before = r@;
                let ghost n = rest@.len() as int;
                proof {
                    assert(x == all[n]);
                    assert(rest@ =~= all.take(n));
                }
                insert_unique(&mut r, x);
                proof {
                    assert forall|k: Seq<Seq<char>>| keyed(r@, k) == keyed(all.skip(n), k) by {
                        let tail = all.skip(n);
                        let older = all.skip(n + 1);
                        if keyed(older, k) {
                            let i = choose|i: int|
                                0 <= i < older.len() && (#[trigger] older[i]).key() == k;
                            assert(tail[i + 1].key() == k);
                        }
                        if keyed(tail, k) && !keyed(older, k) {
                            let i = choose|i: int|
                                0 <= i < tail.len() && (#[trigger] tail[i]).key() == k;
                            if i > 0 {
                                assert(older[i - 1].key() == k);
                            }
                        }
                        assert(tail[0].key() == x.key());
                    }
                }
            },
        }
    }
    r
}

/// `list` with `x` at its place, or as it was where its key stands there.
pub fn insert_unique<T: Keyed>(list: &mut Vec<T>, x: T)
    requires
        rising(old(list)@),
    ensures
        rising(final(list)@),
        forall|k: Seq<Seq<char>>|
            keyed(final(list)@, k) == (keyed(old(list)@, k) || k == x.key()),
        forall|i: int|
            0 <= i < final(list)@.len() ==> #[trigger] final(list)@[i] == x || old(
                list,
            )@.contains(final(list)@[i]),
{
    let ghost s = list@;
    let len: usize = list.len();
    let mut at: usize = 0;
    while at < len && list[at].before(&x)
        invariant
            0 <= at <= len,
            len == s.len(),
            list@ == s,
            rising(s),
            forall|i: int| 0 <= i < at ==> texts_less((#[trigger] s[i]).key(), x.key()),
        decreases len - at,
    {
        at += 1;
    }
    if at < len && !x.before(&list[at]) {
        proof {
            texts_less_total(s[at as int].key(), x.key());
            assert forall|i: int| 0 <= i < s.len() implies s.contains(#[trigger] s[i]) by {}
        }
        return;
    }
    list.insert(at, x);
    proof {
        let t = list@;
        assert forall|i: int, j: int| 0 <= i < j < t.len() implies texts_less(
            (#[trigger] t[i]).key(),
            (#[trigger] t[j]).key(),
        ) by {
            if i == at {
                assert(t[j] == s[j - 1]);
                if j - 1 > at {
                    texts_less_transitive(x.key(), s[at as int].key(), s[j - 1].key());
                }
            } else if j == at {
                assert(t[i] == s[i]);
            } else {
                let i2 = if i < at { i } else { i - 1 };
                let j2 = if j < at { j } else { j - 1 };
                assert(t[i] == s[i2] && t[j] == s[j2]);
            }
        }
        assert forall|k: Seq<Seq<char>>| keyed(t, k) == (keyed(s, k) || k == x.key()) by {
            if keyed(s, k) {
                let i = choose|i: int| 0 <= i < s.len() && (#[trigger] s[i]).key() == k;
                assert(t[if i < at { i } else { i + 1 }] == s[i]);
            }
            assert(t[at as int].key() == x.key());
            if keyed(t, k) && k != x.key() {
                let i = choose|i: int| 0 <= i < t.len() && (#[trigger] t[i]).key() == k;
                assert(t[i] == s[if i < at { i } else { i - 1 }]);
            }
        }
        assert forall|i: int| 0 <= i < t.len() implies #[trigger] t[i] == x || s.contains(
            t[i],
        ) by {
            if i < at {
                assert(t[i] == s[i]);
            } else if i > at {
                assert(t[i] == s[i - 1]);
            }
        }
    }
}

impl Keyed for String {
    open spec fn key(&self) -> Seq<Seq<char>> {
        seq![self@]
    }

    fn before(&self, other: &Self) -> (r: bool) {
        proof {
            single_key_less(self@, other@);
        }
        less(self.as_str(), other.as_str())
    }
}

} // verus!
