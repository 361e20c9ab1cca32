//! Paths as text, `/` between their segments. One at the end says nothing.

use vstd::prelude::*;

use crate::order::keyed;
use crate::order::sorted_unique;
use crate::order::texts_less;
use crate::order::Keyed;
use crate::text::begins;
use crate::text::chars_of;
use crate::text::cut_last;
use crate::text::cut_last_once;
use crate::text::drop_suffixes;
use crate::text::no_suffixes;
use crate::text::pieces;
use crate::text::same;
use crate::text::split;
use crate::text::split_all;
use crate::text::string_of;
use crate::text::texts;

verus! {

/// The path without the `/` that it ends with.
pub open spec fn bare(p: Seq<char>) -> Seq<char> {
    no_suffixes(p, "/"@)
}

/// The last segment.
pub open spec fn file_name(p: Seq<char>) -> Seq<char> {
    match cut_last(bare(p), "/"@) {
        Some((_, name)) => name,
        None => bare(p),
    }
}

/// The path of the directory that holds `p`: empty for a lone segment,
/// nothing for the root and for the empty path.
pub open spec fn parent(p: Seq<char>) -> Option<Seq<char>> {
    if bare(p).len() == 0 {
        None
    } else {
        match cut_last(bare(p), "/"@) {
            Some((dir, _)) => if bare(dir).len() > 0 {
                Some(bare(dir))
            } else {
                Some("/"@)
            },
            None => Some(""@),
        }
    }
}

/// The last segment without its extension.
pub open spec fn stem(p: Seq<char>) -> Seq<char> {
    match cut_last(file_name(p), "."@) {
        Some((stem, _)) => if stem.len() > 0 {
            stem
        } else {
            file_name(p)
        },
        None => file_name(p),
    }
}

/// What follows the last dot of the last segment, where something stands
/// before it.
pub open spec fn extension(p: Seq<char>) -> Option<Seq<char>> {
    match cut_last(file_name(p), "."@) {
        Some((stem, ext)) => if stem.len() > 0 {
            Some(ext)
        } else {
            None
        },
        None => None,
    }
}

/// `rel` under `dir`.
pub open spec fn under(dir: Seq<char>, rel: Seq<char>) -> Seq<char> {
    if dir.len() == 0 {
        rel
    } else if dir.last() == '/' {
        dir + rel
    } else {
        dir + "/"@ + rel
    }
}

pub fn file_name_of(p: &str) -> (r: String)
    ensures
        r@ == file_name(p@),
{
    let c = chars_of(p);
    let c = drop_suffixes(&c, "/");
    match cut_last_once(c, "/") {
        Some((_, name)) => string_of(name),
        None => string_of(c),
    }
}

pub fn parent_of(p: &str) -> (r: Option<String>)
    ensures
        crate::ir::opt(r) == parent(p@),
{
    let c = chars_of(p);
    let c = drop_suffixes(&c, "/");
    if c.len() == 0 {
        return None;
    }
    match cut_last_once(c, "/") {
        Some((dir, _)) => {
            let dir = drop_suffixes(dir, "/");
            if dir.len() > 0 {
                Some(string_of(dir))
            } else {
                Some("/".to_owned())
            }
        },
        None => Some("".to_owned()),
    }
}

pub fn stem_of(p: &str) -> (r: String)
    ensures
        r@ == stem(p@),
{
    let name = file_name_of(p);
    let c = chars_of(name.as_str());
    match cut_last_once(&c, ".") {
        Some((stem, _)) => if stem.len() > 0 {
            string_of(stem)
        } else {
            string_of(&c)
        },
        None => string_of(&c),
    }
}

pub fn extension_of(p: &str) -> (r: Option<String>)
    ensures
        crate::ir::opt(r) == extension(p@),
{
    let name = file_name_of(p);
    let c = chars_of(name.as_str());
    match cut_last_once(&c, ".") {
        Some((stem, ext)) => if stem.len() > 0 {
            Some(string_of(ext))
        } else {
            None
        },
        None => None,
    }
}

/// `rel` under `dir`.
pub fn join(dir: &str, rel: &str) -> (r: String)
    ensures
        r@ == under(dir@, rel@),
{
    let c = chars_of(dir);
    let mut out = dir.to_owned();
    if c.len() > 0 && c[c.len() - 1] != '/' {
        out.append("/");
    }
    out.append(rel);
    assert(out@ =~= under(dir@, rel@));
    out
}

/// `p` is `dir` or lies in it.
pub open spec fn within(p: Seq<char>, dir: Seq<char>) -> bool {
    p == dir || begins(p, under(dir, ""@))
}

/// Whether `p` is `dir` or lies in it.
pub fn is_within(p: &str, dir: &str) -> (r: bool)
    ensures
        r == within(p@, dir@),
{
    let prefix = join(dir, "");
    let c = chars_of(p);
    same(p, dir) || crate::text::starts_with(&c, prefix.as_str())
}

// ---------------------------------------------------------------------------
// Paths in order
// ---------------------------------------------------------------------------

/// A path, ordered by its segments.
struct PathKey {
    path: String,
}

impl Keyed for PathKey {
    closed spec fn key(&self) -> Seq<Seq<char>> {
        split(self.path@, "/"@)
    }

    fn before(&self, other: &Self) -> (r: bool) {
        proof {
            reveal_strlit("/");
        }
        let a = chars_of(self.path.as_str());
        let b = chars_of(other.path.as_str());
        segments_less(&split_all(&a, "/"), &split_all(&b, "/"))
    }
}

fn segments_less(a: &Vec<&[char]>, b: &Vec<&[char]>) -> (r: bool)
    ensures
        r == texts_less(pieces(a@), pieces(b@)),
{
    let ghost x = pieces(a@);
    let ghost y = pieces(b@);
    let mut i: usize = 0;
    proof {
        assert(x.skip(0) =~= x);
        assert(y.skip(0) =~= y);
    }
    loop
        invariant
            0 <= i <= x.len(),
            i <= y.len(),
            x == pieces(a@),
            y == pieces(b@),
            texts_less(x, y) == texts_less(x.skip(i as int), y.skip(i as int)),
        decreases x.len() - i,
    {
        if i == b.len() {
            return false;
        }
        if i == a.len() {
            return true;
        }
        let p = crate::text::string_of(a[i]);
        let q = crate::text::string_of(b[i]);
        proof {
            assert(x.skip(i as int)[0] == p@);
            assert(y.skip(i as int)[0] == q@);
            assert(x.skip(i as int).skip(1) =~= x.skip(i + 1));
            assert(y.skip(i as int).skip(1) =~= y.skip(i + 1));
        }
        if crate::order::less(p.as_str(), q.as_str()) {
            return true;
        }
        if !same(p.as_str(), q.as_str()) {
            return false;
        }
        proof {
            crate::order::text_less_irreflexive(p@);
        }
        i += 1;
    }
}

/// Every path stands strictly before those behind it, segment by segment.
pub open spec fn paths_rise(s: Seq<Seq<char>>) -> bool {
    forall|i: int, j: int|
        0 <= i < j < s.len() ==> texts_less(
            split(#[trigger] s[i], "/"@),
            split(#[trigger] s[j], "/"@),
        )
}

/// The paths of a finite set in order, each once.
pub open spec fn sorted_paths(s: Set<Seq<char>>) -> Seq<Seq<char>> {
    choose|r: Seq<Seq<char>>| paths_rise(r) && #[trigger] r.to_set() == s
}

/// Only one list of the paths of a set is in order.
pub proof fn sorted_paths_is(r: Seq<Seq<char>>, s: Set<Seq<char>>)
    requires
        paths_rise(r),
        r.to_set() == s,
    ensures
        r == sorted_paths(s),
{
    let t = sorted_paths(s);
    assert(paths_rise(t) && t.to_set() == s);
    let f = |x: Seq<char>| split(x, "/"@);
    let kr = r.map_values(f);
    let kt = t.map_values(f);
    assert forall|k: Seq<Seq<char>>| #[trigger] kr.contains(k) == kt.contains(k) by {
        if kr.contains(k) {
            let i = choose|i: int| 0 <= i < kr.len() && kr[i] == k;
            assert(s.contains(r[i]));
            let j = choose|j: int| 0 <= j < t.len() && t[j] == r[i];
            assert(kt[j] == k);
        }
        if kt.contains(k) {
            let i = choose|i: int| 0 <= i < kt.len() && kt[i] == k;
            assert(s.contains(t[i]));
            let j = choose|j: int| 0 <= j < r.len() && r[j] == t[i];
            assert(kr[j] == k);
        }
    }
    assert forall|i: int, j: int| 0 <= i < j < kr.len() implies texts_less(
        #[trigger] kr[i],
        #[trigger] kr[j],
    ) by {
        assert(texts_less(split(r[i], "/"@), split(r[j], "/"@)));
    }
    assert forall|i: int, j: int| 0 <= i < j < kt.len() implies texts_less(
        #[trigger] kt[i],
        #[trigger] kt[j],
    ) by {
        assert(texts_less(split(t[i], "/"@), split(t[j], "/"@)));
    }
    crate::order::rising_keys_unique(kr, kt);
    assert forall|i: int| 0 <= i < r.len() implies r[i] == t[i] by {
        assert(kr[i] == kt[i]);
        same_segments(r[i], t[i]);
    }
    assert(r =~= t);
}

spec fn key_paths(v: Seq<PathKey>) -> Seq<Seq<char>> {
    v.map_values(|k: PathKey| k.path@)
}

/// The paths in order, each once.
pub fn sort_paths(v: Vec<String>) -> (r: Vec<String>)
    ensures
        paths_rise(texts(r@)),
        texts(r@).to_set() == texts(v@).to_set(),
        texts(r@) == sorted_paths(texts(v@).to_set()),
{
    let ghost all = texts(v@);
    let mut keys: Vec<PathKey> = Vec::new();
    for p in it: v
        invariant
            all == texts(it.seq()),
            key_paths(keys@) == all.take(it.index() as int),
    {
        let ghost n = it.index() as int;
        let ghost before = keys@;
        keys.push(PathKey { path: p });
        proof {
            assert(key_paths(keys@) =~= key_paths(before).push(all[n]));
            assert(all.take(n + 1) =~= all.take(n).push(all[n]));
        }
    }
    assert(all.take(all.len() as int) =~= all);
    let ghost given = keys@;
    let sorted = sorted_unique(keys);
    let ghost done = key_paths(sorted@);
    let mut r: Vec<String> = Vec::new();
    let mut i: usize = 0;
    while i < sorted.len()
        invariant
            0 <= i <= sorted@.len(),
            done == key_paths(sorted@),
            texts(r@) == done.take(i as int),
        decreases sorted@.len() - i,
    {
        let ghost before = texts(r@);
        r.push(sorted[i].path.clone());
        proof {
            assert(texts(r@) =~= before.push(done[i as int]));
            assert(done.take(i + 1) =~= done.take(i as int).push(done[i as int]));
        }
        i += 1;
    }
    proof {
        assert(done.take(done.len() as int) =~= done);
        assert forall|i: int, j: int| 0 <= i < j < done.len() implies texts_less(
            split(#[trigger] done[i], "/"@),
            split(#[trigger] done[j], "/"@),
        ) by {
            assert(texts_less(sorted@[i].key(), sorted@[j].key()));
        }
        assert forall|x: Seq<char>| done.to_set().contains(x) == all.to_set().contains(x) by {
            if done.contains(x) {
                let n = choose|n: int| 0 <= n < done.len() && done[n] == x;
                assert(given.contains(sorted@[n]));
                let m = choose|m: int| 0 <= m < given.len() && given[m] == sorted@[n];
                assert(key_paths(given)[m] == x);
            }
            if all.contains(x) {
                let m = choose|m: int| 0 <= m < all.len() && all[m] == x;
                assert(key_paths(given)[m] == x);
                assert(keyed(given, given[m].key()));
                assert(keyed(sorted@, given[m].key()));
                let n = choose|n: int|
                    0 <= n < sorted@.len() && (#[trigger] sorted@[n]).key() == given[m].key();
                same_segments(sorted@[n].path@, x);
                assert(done[n] == x);
            }
        }
        assert(done.to_set() =~= all.to_set());
        sorted_paths_is(done, all.to_set());
    }
    r
}

/// A path is its segments.
proof fn same_segments(a: Seq<char>, b: Seq<char>)
    requires
        split(a, "/"@) == split(b, "/"@),
    ensures
        a == b,
{
    reveal_strlit("/");
    crate::text::split_joins(a, "/"@);
    crate::text::split_joins(b, "/"@);
}

} // verus!
