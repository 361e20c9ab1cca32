//! Sets of names and maps keyed by names, in the order of first mention.

use vstd::hash_map::StringHashMap;
use vstd::hash_set::StringHashSet;
use vstd::prelude::*;

use crate::text::texts;

verus! {

// ---------------------------------------------------------------------------
// Sets
// ---------------------------------------------------------------------------

struct Members {
    items: Vec<String>,
    index: StringHashSet,
}

impl Members {
    fn new() -> (r: Self)
        ensures
            texts(r.items@) == Seq::<Seq<char>>::empty(),
            r.index@ == texts(r.items@).to_set(),
    {
        let r = Members { items: Vec::new(), index: StringHashSet::new() };
        assert(texts(r.items@) =~= Seq::<Seq<char>>::empty());
        assert(texts(r.items@).to_set() =~= Set::<Seq<char>>::empty());
        r
    }
}

/// A set of names that remembers the order in which they came.
pub struct NameSet {
    members: Members,
}

impl NameSet {
    /// The names, each once, first come first.
    pub closed spec fn list(&self) -> Seq<Seq<char>> {
        texts(self.members.items@)
    }

    pub open spec fn view(&self) -> Set<Seq<char>> {
        self.list().to_set()
    }

    #[verifier::type_invariant]
    spec fn indexed(self) -> bool {
        &&& self.members.index@ == texts(self.members.items@).to_set()
        &&& texts(self.members.items@).no_duplicates()
    }

    pub fn new() -> (r: Self)
        ensures
            r.list() == Seq::<Seq<char>>::empty(),
            r@ == Set::<Seq<char>>::empty(),
    {
        let r = NameSet { members: Members::new() };
        assert(r@ =~= Set::<Seq<char>>::empty());
        r
    }

    pub fn contains(&self, name: &str) -> (r: bool)
        ensures
            r == self@.contains(name@),
    {
        proof {
            use_type_invariant(self);
        }
        self.members.index.contains(name)
    }

    /// Adds a name; says whether it is new.
    pub fn insert(&mut self, name: &str) -> (r: bool)
        ensures
            r == !old(self)@.contains(name@),
            final(self)@ == old(self)@.insert(name@),
            final(self).list() == (if r {
                old(self).list().push(name@)
            } else {
                old(self).list()
            }),
    {
        proof {
            use_type_invariant(&*self);
        }
        if self.members.index.contains(name) {
            proof {
                assert(self@.insert(name@) =~= self@);
            }
            return false;
        }
        let mut members = Members::new();
        std::mem::swap(&mut self.members, &mut members);
        let ghost before = texts(members.items@);
        members.items.push(name.to_owned());
        members.index.insert(name.to_owned());
        proof {
            let after = texts(members.items@);
            assert(after =~= before.push(name@));
            pushed_set(before, name@);
        }
        self.members = members;
        true
    }

    /// The names as a list.
    pub fn items(&self) -> (r: &Vec<String>)
        ensures
            texts(r@) == self.list(),
            r@.len() == self.list().len(),
            self.list().no_duplicates(),
    {
        proof {
            use_type_invariant(self);
        }
        &self.members.items
    }

    pub fn len(&self) -> (r: usize)
        ensures
            r == self.list().len(),
            self.list().no_duplicates(),
    {
        proof {
            use_type_invariant(self);
        }
        self.members.items.len()
    }

    /// Another set with the same names.
    pub fn copy(&self) -> (r: Self)
        ensures
            r.list() == self.list(),
            r@ == self@,
    {
        NameSet::of(self.items())
    }

    /// The set of the names that `names` lists.
    pub fn of(names: &Vec<String>) -> (r: Self)
        ensures
            r@ == texts(names@).to_set(),
            texts(names@).no_duplicates() ==> r.list() == texts(names@),
    {
        let mut r = NameSet::new();
        let mut i: usize = 0;
        let ghost all = texts(names@);
        proof {
            assert(all.take(0).to_set() =~= Set::<Seq<char>>::empty());
            assert(all.take(0) =~= Seq::<Seq<char>>::empty());
        }
        while i < names.len()
            invariant
                0 <= i <= names@.len(),
                all == texts(names@),
                r@ == all.take(i as int).to_set(),
                all.no_duplicates() ==> r.list() == all.take(i as int),
            decreases names@.len() - i,
        {
            r.insert(names[i].as_str());
            proof {
                assert(all.take(i + 1) =~= all.take(i as int).push(all[i as int]));
                pushed_set(all.take(i as int), all[i as int]);
                if all.no_duplicates() {
                    assert(!all.take(i as int).contains(all[i as int]));
                }
            }
            i += 1;
        }
        assert(all.take(all.len() as int) =~= all);
        r
    }

    /// Adds every name of `other`.
    pub fn extend(&mut self, other: &NameSet)
        ensures
            final(self)@ == old(self)@.union(other@),
    {
        let ghost mine = self@;
        let names = other.items();
        let ghost all = texts(names@);
        let mut i: usize = 0;
        proof {
            assert(all.take(0).to_set() =~= Set::<Seq<char>>::empty());
            assert(mine.union(all.take(0).to_set()) =~= mine);
        }
        while i < names.len()
            invariant
                0 <= i <= names@.len(),
                all == texts(names@),
                self@ == mine.union(all.take(i as int).to_set()),
            decreases names@.len() - i,
        {
            self.insert(names[i].as_str());
            proof {
                assert(all.take(i + 1) =~= all.take(i as int).push(all[i as int]));
                pushed_set(all.take(i as int), all[i as int]);
                assert(mine.union(all.take(i as int).to_set()).insert(all[i as int])
                    =~= mine.union(all.take(i + 1).to_set()));
            }
            i += 1;
        }
        assert(all.take(all.len() as int) =~= all);
    }
}

/// Pushing a value adds it to the set of those in the list.
pub proof fn pushed_set<T>(s: Seq<T>, x: T)
    ensures
        s.push(x).to_set() == s.to_set().insert(x),
{
    let t = s.push(x);
    assert forall|y: T| t.to_set().contains(y) == s.to_set().insert(x).contains(y) by {
        if t.contains(y) {
            let i = choose|i: int| 0 <= i < t.len() && t[i] == y;
            if i < s.len() {
                assert(s[i] == y);
            }
        }
        if s.contains(y) {
            let i = choose|i: int| 0 <= i < s.len() && s[i] == y;
            assert(t[i] == y);
        }
        assert(t[s.len() as int] == x);
    }
    assert(t.to_set() =~= s.to_set().insert(x));
}

// ---------------------------------------------------------------------------
// Maps
// ---------------------------------------------------------------------------

struct Entries<V> {
    keys: Vec<String>,
    values: Vec<V>,
    index: StringHashMap<usize>,
}

/// A map keyed by names that remembers the order in which they came.
pub struct NameMap<V> {
    entries: Entries<V>,
}

spec fn consistent<V>(e: Entries<V>) -> bool {
    &&& e.keys@.len() == e.values@.len()
    &&& texts(e.keys@).no_duplicates()
    &&& forall|k: Seq<char>| #[trigger]
        e.index@.contains_key(k) ==> e.index@[k] < e.keys@.len() && e.keys@[e.index@[k] as int]@
            == k
    &&& forall|i: int|
        0 <= i < e.keys@.len() ==> e.index@.contains_key(#[trigger] e.keys@[i]@)
            && e.index@[e.keys@[i]@] == i
}

impl<V> Entries<V> {
    fn new() -> (r: Self)
        ensures
            consistent(r),
            r.keys@.len() == 0,
    {
        let r = Entries { keys: Vec::new(), values: Vec::new(), index: StringHashMap::new() };
        assert(texts(r.keys@) =~= Seq::<Seq<char>>::empty());
        r
    }
}

impl<V> NameMap<V> {
    /// The keys, each once, first come first.
    pub closed spec fn keys(&self) -> Seq<Seq<char>> {
        texts(self.entries.keys@)
    }

    /// The values, in the order of their keys.
    pub closed spec fn values(&self) -> Seq<V> {
        self.entries.values@
    }

    pub open spec fn view(&self) -> Map<Seq<char>, V> {
        Map::new(
            |k: Seq<char>| self.keys().contains(k),
            |k: Seq<char>| self.values()[self.keys().index_of(k)],
        )
    }

    #[verifier::type_invariant]
    spec fn indexed(self) -> bool {
        consistent(self.entries)
    }

    pub fn new() -> (r: Self)
        ensures
            r.keys() == Seq::<Seq<char>>::empty(),
            r@ == Map::<Seq<char>, V>::empty(),
    {
        let r = NameMap { entries: Entries::new() };
        assert(r.keys() =~= Seq::<Seq<char>>::empty());
        assert(r@ =~= Map::<Seq<char>, V>::empty());
        r
    }

    pub fn len(&self) -> (r: usize)
        ensures
            r == self.keys().len(),
            r == self.values().len(),
            self.keys().no_duplicates(),
    {
        proof {
            use_type_invariant(self);
        }
        self.entries.keys.len()
    }

    /// The `i`th key and its value.
    pub fn at(&self, i: usize) -> (r: (&String, &V))
        requires
            i < self.keys().len(),
        ensures
            r.0@ == self.keys()[i as int],
            *r.1 == self.values()[i as int],
            self@.contains_key(r.0@),
            self@[r.0@] == *r.1,
    {
        proof {
            use_type_invariant(self);
            keys_at(self.keys(), i as int);
        }
        (&self.entries.keys[i], &self.entries.values[i])
    }

    pub fn get(&self, name: &str) -> (r: Option<&V>)
        ensures
            match r {
                Some(v) => self@.contains_key(name@) && self@[name@] == *v,
                None => !self@.contains_key(name@),
            },
    {
        proof {
            use_type_invariant(self);
        }
        match self.entries.index.get(name) {
            Some(i) => {
                proof {
                    assert(self.keys()[*i as int] == name@);
                    keys_at(self.keys(), *i as int);
                }
                Some(&self.entries.values[*i])
            },
            None => {
                proof {
                    if self.keys().contains(name@) {
                        let i = self.keys().index_of(name@);
                        assert(self.entries.keys@[i]@ == name@);
                    }
                }
                None
            },
        }
    }

    /// Gives `name` the value `v`; hands back what it had.
    pub fn exchange(&mut self, name: &str, v: V) -> (r: Option<V>)
        ensures
            match r {
                Some(w) => old(self)@.contains_key(name@) && old(self)@[name@] == w,
                None => !old(self)@.contains_key(name@),
            },
            final(self)@ == old(self)@.insert(name@, v),
            final(self).keys() == (if r is Some {
                old(self).keys()
            } else {
                old(self).keys().push(name@)
            }),
    {
        proof {
            use_type_invariant(&*self);
        }
        let ghost start = *self;
        let mut e: Entries<V> = Entries::new();
        std::mem::swap(&mut self.entries, &mut e);
        let ghost before = e;
        let found: Option<usize> = match e.index.get(name) {
            Some(i) => Some(*i),
            None => None,
        };
        let mut v = v;
        match found {
            Some(i) => {
                std::mem::swap(&mut e.values[i], &mut v);
                proof {
                    let keys = texts(e.keys@);
                    assert(keys[i as int] == name@);
                    keys_at(keys, i as int);
                }
                self.entries = e;
                proof {
                    assert(self.keys() == start.keys());
                    assert(self.values() =~= start.values().update(i as int, self.values()[i as int]));
                    assert forall|k: Seq<char>| self.keys().contains(k) && k != name@ implies self.keys().index_of(
                        k,
                    ) != i by {
                        let j = choose|j: int| 0 <= j < self.keys().len() && self.keys()[j] == k;
                        keys_at(self.keys(), j);
                    }
                    assert forall|k: Seq<char>| self.keys().contains(k) implies 0
                        <= #[trigger] self.keys().index_of(k) < self.keys().len() by {
                        let j = choose|j: int| 0 <= j < self.keys().len() && self.keys()[j] == k;
                        keys_at(self.keys(), j);
                    }
                    assert(self@ =~= start@.insert(name@, self.values()[i as int]));
                }
                Some(v)
            },
            None => {
                proof {
                    if texts(e.keys@).contains(name@) {
                        let i = texts(e.keys@).index_of(name@);
                        assert(e.keys@[i]@ == name@);
                    }
                }
                let at: usize = e.keys.len();
                e.index.insert(name.to_owned(), at);
                e.keys.push(name.to_owned());
                e.values.push(v);
                proof {
                    let old_keys = texts(before.keys@);
                    let new_keys = texts(e.keys@);
                    assert(new_keys =~= old_keys.push(name@));
                    assert forall|i: int| 0 <= i < before.keys@.len() implies #[trigger] before.keys@[i]@
                        != name@ by {
                        assert(old_keys[i] != name@) by {
                            if old_keys[i] == name@ {
                                assert(old_keys.contains(name@));
                            }
                        }
                    }
                }
                self.entries = e;
                proof {
                    let keys = self.keys();
                    let n = start.keys().len() as int;
                    assert(keys =~= start.keys().push(name@));
                    assert(self.values() =~= start.values().push(self.values()[n]));
                    assert forall|k: Seq<char>| start.keys().contains(k) implies keys.contains(k)
                        && keys.index_of(k) == start.keys().index_of(k) && 0
                        <= start.keys().index_of(k) < n && k != name@ by {
                        let j = choose|j: int| 0 <= j < start.keys().len() && start.keys()[j] == k;
                        assert(keys[j] == k);
                        keys_at(keys, j);
                        keys_at(start.keys(), j);
                    }
                    assert(keys[n] == name@);
                    keys_at(keys, n);
                    assert forall|k: Seq<char>| keys.contains(k) && k != name@ implies start.keys().contains(
                        k,
                    ) by {
                        let j = choose|j: int| 0 <= j < keys.len() && keys[j] == k;
                        assert(start.keys()[j] == k);
                    }
                    assert(self@ =~= start@.insert(name@, self.values()[n]));
                }
                None
            },
        }
    }
}

proof fn keys_at(keys: Seq<Seq<char>>, i: int)
    requires
        0 <= i < keys.len(),
        keys.no_duplicates(),
    ensures
        keys.contains(keys[i]),
        keys.index_of(keys[i]) == i,
{
    assert(keys.contains(keys[i]));
}

} // verus!
