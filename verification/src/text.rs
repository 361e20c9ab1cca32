//! Text as a sequence of characters: searching, splitting, trimming, joining,
//! ordering and numbers. The functions read slices of characters, and each is
//! stated over the sequences of characters that they hold.

use vstd::prelude::*;
use vstd::slice::slice_subrange;

verus! {

// ---------------------------------------------------------------------------
// What the standard library says of characters and strings
// ---------------------------------------------------------------------------

/// [`String::push`]: the character goes to the end of the string.
pub assume_specification[ String::push ](s: &mut String, c: char)
    ensures
        final(s)@ == old(s)@.push(c),
;

/// `str`'s `==`: two strings are equal when their characters are.
pub assume_specification[ <str as PartialEq<str>>::eq ](a: &str, b: &str) -> (r: bool)
    ensures
        r == (a@ == b@),
;

/// Whether a character is alphabetic or numeric in Unicode.
pub uninterp spec fn alphanumeric(c: char) -> bool;

/// [`char::is_alphanumeric`]: decided by the character alone. Of the ASCII
/// range, exactly the letters and the digits.
pub assume_specification[ char::is_alphanumeric ](c: char) -> (r: bool)
    ensures
        r == alphanumeric(c),
        c <= '\x7f' ==> (r <==> ('0' <= c <= '9' || 'A' <= c <= 'Z' || 'a' <= c <= 'z')),
;

/// Whether a character has the Unicode property `Uppercase`.
pub uninterp spec fn uppercase(c: char) -> bool;

/// [`char::is_uppercase`]: decided by the character alone. Of the ASCII
/// range, exactly the capital letters.
pub assume_specification[ char::is_uppercase ](c: char) -> (r: bool)
    ensures
        r == uppercase(c),
        c <= '\x7f' ==> (r <==> 'A' <= c <= 'Z'),
;

/// Whether a character has the Unicode property `White_Space`.
pub uninterp spec fn white(c: char) -> bool;

/// [`char::is_whitespace`]: decided by the character alone. Of the ASCII
/// range, exactly the space, the tab, the two feeds, the vertical tab and the
/// carriage return.
pub assume_specification[ char::is_whitespace ](c: char) -> (r: bool)
    ensures
        r == white(c),
        c <= '\x7f' ==> (r <==> (c == ' ' || '\t' <= c <= '\r')),
;

// ---------------------------------------------------------------------------
// Conversions
// ---------------------------------------------------------------------------

/// The characters of a string, in order.
pub fn chars_of(s: &str) -> (r: Vec<char>)
    ensures
        r@ == s@,
{
    let mut out: Vec<char> = Vec::new();
    for c in it: s.chars()
        invariant
            out@ == it.seq().take(it.index() as int),
            it.seq() == s@,
    {
        out.push(c);
    }
    out
}

/// The string made of these characters.
pub fn string_of(v: &[char]) -> (r: String)
    ensures
        r@ == v@,
{
    let mut out = String::new();
    let mut i: usize = 0;
    while i < v.len()
        invariant
            0 <= i <= v@.len(),
            out@ == v@.take(i as int),
        decreases v@.len() - i,
    {
        out.push(v[i]);
        i += 1;
    }
    assert(v@.take(v@.len() as int) =~= v@);
    out
}

/// Whether two strings hold the same characters.
pub fn same(a: &str, b: &str) -> (r: bool)
    ensures
        r == (a@ == b@),
{
    *a == *b
}

/// The texts of a list of strings.
pub open spec fn texts(v: Seq<String>) -> Seq<Seq<char>> {
    v.map_values(|s: String| s@)
}

/// The texts of a list of pieces.
pub open spec fn pieces(v: Seq<&[char]>) -> Seq<Seq<char>> {
    v.map_values(|s: &[char]| s@)
}

/// Whether a list of strings holds this one.
pub fn lists(v: &Vec<String>, s: &str) -> (r: bool)
    ensures
        r == texts(v@).contains(s@),
{
    let mut i: usize = 0;
    while i < v.len()
        invariant
            0 <= i <= v@.len(),
            forall|j: int| 0 <= j < i ==> (#[trigger] v@[j])@ != s@,
        decreases v@.len() - i,
    {
        if same(v[i].as_str(), s) {
            assert(texts(v@)[i as int] == s@);
            return true;
        }
        i += 1;
    }
    assert forall|j: int| 0 <= j < texts(v@).len() implies texts(v@)[j] != s@ by {
        assert(texts(v@)[j] == v@[j]@);
    }
    false
}

/// The model of a list of literals.
pub open spec fn literals(v: Seq<&'static str>) -> Seq<Seq<char>> {
    v.map_values(|s: &'static str| s@)
}

/// Whether `s` is one of the literals.
pub fn lists_literal(v: &[&'static str], s: &str) -> (r: bool)
    ensures
        r == literals(v@).contains(s@),
{
    let len: usize = v.len();
    let mut i: usize = 0;
    while i < len
        invariant
            0 <= i <= len,
            len == v@.len(),
            forall|k: int| 0 <= k < i ==> (#[trigger] literals(v@)[k]) != s@,
        decreases len - i,
    {
        assert(literals(v@)[i as int] == v@[i as int]@);
        if same(v[i], s) {
            return true;
        }
        i += 1;
    }
    false
}

/// A copy of a list of strings.
pub fn copy_all(v: &Vec<String>) -> (r: Vec<String>)
    ensures
        r@ == v@,
{
    let mut out: Vec<String> = Vec::new();
    let mut i: usize = 0;
    while i < v.len()
        invariant
            0 <= i <= v@.len(),
            out@ == v@.take(i as int),
        decreases v@.len() - i,
    {
        out.push(v[i].clone());
        i += 1;
    }
    assert(v@.take(v@.len() as int) =~= v@);
    out
}

// ---------------------------------------------------------------------------
// Searching
// ---------------------------------------------------------------------------

/// `n` stands in `h` at position `i`.
pub open spec fn occurs_at(h: Seq<char>, n: Seq<char>, i: int) -> bool {
    0 <= i && i + n.len() <= h.len() && h.subrange(i, i + n.len()) == n
}

/// `n` stands somewhere in `h`.
pub open spec fn present(h: Seq<char>, n: Seq<char>) -> bool {
    exists|i: int| occurs_at(h, n, i)
}

pub open spec fn begins(h: Seq<char>, n: Seq<char>) -> bool {
    occurs_at(h, n, 0)
}

pub open spec fn ends(h: Seq<char>, n: Seq<char>) -> bool {
    occurs_at(h, n, h.len() - n.len())
}

/// The first position at or after `from` at which `n` stands in `h`.
pub open spec fn first_from(h: Seq<char>, n: Seq<char>, from: int) -> Option<int>
    decreases h.len() - from + 1,
{
    if from < 0 || from + n.len() > h.len() {
        None
    } else if occurs_at(h, n, from) {
        Some(from)
    } else {
        first_from(h, n, from + 1)
    }
}

pub open spec fn first(h: Seq<char>, n: Seq<char>) -> Option<int> {
    first_from(h, n, 0)
}

/// The last position at or before `upto` at which `n` stands in `h`.
pub open spec fn last_upto(h: Seq<char>, n: Seq<char>, upto: int) -> Option<int>
    decreases upto + 1,
{
    if upto < 0 {
        None
    } else if occurs_at(h, n, upto) {
        Some(upto)
    } else {
        last_upto(h, n, upto - 1)
    }
}

pub open spec fn last(h: Seq<char>, n: Seq<char>) -> Option<int> {
    last_upto(h, n, h.len() - n.len())
}

/// What [`first_from`] finds is an occurrence, and none stands before it; what
/// it does not find is not there.
pub proof fn first_from_is_first(h: Seq<char>, n: Seq<char>, from: int)
    requires
        0 <= from,
    ensures
        match first_from(h, n, from) {
            Some(i) => from <= i && occurs_at(h, n, i) && forall|j: int|
                from <= j < i ==> !occurs_at(h, n, j),
            None => forall|j: int| from <= j ==> !occurs_at(h, n, j),
        },
    decreases h.len() - from + 1,
{
    if from + n.len() <= h.len() && !occurs_at(h, n, from) {
        first_from_is_first(h, n, from + 1);
    }
}

/// What [`last`] finds is an occurrence, and none stands after it; what it
/// does not find is not there.
pub proof fn last_is_last(h: Seq<char>, n: Seq<char>)
    ensures
        match last(h, n) {
            Some(i) => occurs_at(h, n, i) && forall|j: int| i < j ==> !occurs_at(h, n, j),
            None => !present(h, n),
        },
{
    last_upto_is_last(h, n, h.len() - n.len());
}

proof fn last_upto_is_last(h: Seq<char>, n: Seq<char>, upto: int)
    ensures
        match last_upto(h, n, upto) {
            Some(i) => i <= upto && occurs_at(h, n, i) && forall|j: int|
                i < j <= upto ==> !occurs_at(h, n, j),
            None => forall|j: int| j <= upto ==> !occurs_at(h, n, j),
        },
    decreases upto + 1,
{
    if upto >= 0 && !occurs_at(h, n, upto) {
        last_upto_is_last(h, n, upto - 1);
    }
}

/// A position that was found, as a number.
pub open spec fn position(r: Option<usize>) -> Option<int> {
    match r {
        Some(i) => Some(i as int),
        None => None,
    }
}

fn stands_at(h: &[char], n: &[char], i: usize) -> (r: bool)
    requires
        i <= h@.len(),
    ensures
        r == occurs_at(h@, n@, i as int),
{
    let len: usize = h.len();
    if n.len() > len - i {
        return false;
    }
    let mut k: usize = 0;
    while k < n.len()
        invariant
            0 <= k <= n@.len(),
            i + n@.len() <= h@.len(),
            len == h@.len(),
            forall|j: int| 0 <= j < k ==> h@[i + j] == n@[j],
        decreases n@.len() - k,
    {
        if h[i + k] != n[k] {
            assert(h@.subrange(i as int, i + n@.len())[k as int] != n@[k as int]);
            return false;
        }
        k += 1;
    }
    assert(h@.subrange(i as int, i + n@.len()) =~= n@);
    true
}

/// The first position at or after `from` at which `n` stands.
pub fn find_from(h: &[char], n: &str, from: usize) -> (r: Option<usize>)
    requires
        from <= h@.len(),
    ensures
        position(r) == first_from(h@, n@, from as int),
        r matches Some(i) ==> from <= i && i + n@.len() <= h@.len() <= usize::MAX,
{
    let needle = chars_of(n);
    let len: usize = h.len();
    let mut i: usize = from;
    while needle.len() <= len - i
        invariant
            from <= i <= len,
            len == h@.len(),
            needle@ == n@,
            first_from(h@, n@, from as int) == first_from(h@, n@, i as int),
        decreases len - i,
    {
        if stands_at(h, needle.as_slice(), i) {
            return Some(i);
        }
        if i == len {
            assert(first_from(h@, n@, i + 1) == None::<int>);
            return None;
        }
        i += 1;
    }
    None
}

pub fn find(h: &[char], n: &str) -> (r: Option<usize>)
    ensures
        position(r) == first(h@, n@),
        r matches Some(i) ==> i + n@.len() <= h@.len() <= usize::MAX,
{
    find_from(h, n, 0)
}

/// The last position at which `n` stands.
pub fn rfind(h: &[char], n: &str) -> (r: Option<usize>)
    ensures
        position(r) == last(h@, n@),
        r matches Some(i) ==> i + n@.len() <= h@.len() <= usize::MAX,
{
    let needle = chars_of(n);
    if needle.len() > h.len() {
        return None;
    }
    let mut i: usize = h.len() - needle.len();
    loop
        invariant
            i + needle@.len() <= h@.len() <= usize::MAX,
            needle@ == n@,
            last(h@, n@) == last_upto(h@, n@, i as int),
        decreases i,
    {
        if stands_at(h, needle.as_slice(), i) {
            return Some(i);
        }
        if i == 0 {
            assert(last_upto(h@, n@, -1) == None::<int>);
            return None;
        }
        i -= 1;
    }
}

pub fn contains(h: &[char], n: &str) -> (r: bool)
    ensures
        r == present(h@, n@),
{
    proof {
        first_from_is_first(h@, n@, 0);
    }
    match find(h, n) {
        Some(_) => true,
        None => false,
    }
}

pub fn starts_with(h: &[char], n: &str) -> (r: bool)
    ensures
        r == begins(h@, n@),
{
    let needle = chars_of(n);
    stands_at(h, needle.as_slice(), 0)
}

pub fn ends_with(h: &[char], n: &str) -> (r: bool)
    ensures
        r == ends(h@, n@),
{
    let needle = chars_of(n);
    if needle.len() > h.len() {
        return false;
    }
    stands_at(h, needle.as_slice(), h.len() - needle.len())
}

// ---------------------------------------------------------------------------
// Cutting
// ---------------------------------------------------------------------------

/// What stands before the first `sep`; all of `h` where there is none.
pub open spec fn before(h: Seq<char>, sep: Seq<char>) -> Seq<char> {
    match first(h, sep) {
        Some(i) => h.take(i),
        None => h,
    }
}

/// What stands after the last `sep`; all of `h` where there is none.
pub open spec fn after_last(h: Seq<char>, sep: Seq<char>) -> Seq<char> {
    match last(h, sep) {
        Some(i) => h.skip(i + sep.len()),
        None => h,
    }
}

/// The two sides of the first `sep`.
pub open spec fn cut(h: Seq<char>, sep: Seq<char>) -> Option<(Seq<char>, Seq<char>)> {
    match first(h, sep) {
        Some(i) => Some((h.take(i), h.skip(i + sep.len()))),
        None => None,
    }
}

/// The two sides of the last `sep`.
pub open spec fn cut_last(h: Seq<char>, sep: Seq<char>) -> Option<(Seq<char>, Seq<char>)> {
    match last(h, sep) {
        Some(i) => Some((h.take(i), h.skip(i + sep.len()))),
        None => None,
    }
}

/// What follows `n` where `h` begins with it.
pub open spec fn without_prefix(h: Seq<char>, n: Seq<char>) -> Option<Seq<char>> {
    if begins(h, n) {
        Some(h.skip(n.len() as int))
    } else {
        None
    }
}

/// The pieces of `h` between one `sep` and the next.
pub open spec fn split(h: Seq<char>, sep: Seq<char>) -> Seq<Seq<char>>
    decreases h.len(),
{
    match first(h, sep) {
        Some(i) => if sep.len() == 0 || i < 0 || i + sep.len() > h.len() {
            seq![h]
        } else {
            seq![h.take(i)] + split(h.skip(i + sep.len()), sep)
        },
        None => seq![h],
    }
}

/// The parts in order, with `sep` between neighbours.
pub open spec fn join(parts: Seq<Seq<char>>, sep: Seq<char>) -> Seq<char>
    decreases parts.len(),
{
    if parts.len() == 0 {
        Seq::empty()
    } else if parts.len() == 1 {
        parts[0]
    } else {
        join(parts.drop_last(), sep) + sep + parts.last()
    }
}

/// Joining one part in front of others.
pub proof fn join_front(x: Seq<char>, rest: Seq<Seq<char>>, sep: Seq<char>)
    requires
        rest.len() > 0,
    ensures
        join(seq![x] + rest, sep) == x + sep + join(rest, sep),
    decreases rest.len(),
{
    let all = seq![x] + rest;
    assert(all.last() == rest.last());
    if rest.len() == 1 {
        assert(all.drop_last() =~= seq![x]);
        assert(join(seq![x], sep) == x);
    } else {
        assert(all.drop_last() =~= seq![x] + rest.drop_last());
        join_front(x, rest.drop_last(), sep);
        assert(join(all, sep) =~= x + sep + join(rest, sep));
    }
}

/// Joining the pieces of a text with what separated them gives it back.
pub proof fn split_joins(h: Seq<char>, sep: Seq<char>)
    requires
        sep.len() > 0,
    ensures
        join(split(h, sep), sep) == h,
        split(h, sep).len() > 0,
    decreases h.len(),
{
    first_from_is_first(h, sep, 0);
    match first(h, sep) {
        Some(i) => {
            let rest = h.skip(i + sep.len());
            split_joins(rest, sep);
            join_front(h.take(i), split(rest, sep), sep);
            assert(h.subrange(i, i + sep.len()) == sep);
            assert(h.take(i) + sep + rest =~= h) by {
                assert forall|k: int| 0 <= k < h.len() implies #[trigger] (h.take(i) + sep
                    + rest)[k] == h[k] by {
                    if i <= k < i + sep.len() {
                        assert(h.subrange(i, i + sep.len())[k - i] == h[k]);
                    }
                }
            }
        },
        None => {
            assert(join(seq![h], sep) == h);
        },
    }
}

/// The non-empty ones of some pieces.
pub open spec fn non_empty(parts: Seq<Seq<char>>) -> Seq<Seq<char>> {
    parts.filter(|p: Seq<char>| p.len() > 0)
}

pub open spec fn slices(r: Option<(&[char], &[char])>) -> Option<(Seq<char>, Seq<char>)> {
    match r {
        Some((a, b)) => Some((a@, b@)),
        None => None,
    }
}

/// What stands before position `i`.
pub fn head<'a>(h: &'a [char], i: usize) -> (r: &'a [char])
    requires
        i <= h@.len(),
    ensures
        r@ == h@.take(i as int),
{
    slice_subrange(h, 0, i)
}

/// What stands from position `i` on.
pub fn tail<'a>(h: &'a [char], i: usize) -> (r: &'a [char])
    requires
        i <= h@.len(),
    ensures
        r@ == h@.skip(i as int),
{
    slice_subrange(h, i, h.len())
}

/// The number of characters in a separator or a prefix.
pub fn width(s: &str) -> (r: usize)
    ensures
        r == s@.len(),
{
    chars_of(s).len()
}

pub fn cut_once<'a>(h: &'a [char], sep: &str) -> (r: Option<(&'a [char], &'a [char])>)
    ensures
        slices(r) == cut(h@, sep@),
{
    match find(h, sep) {
        Some(i) => Some((head(h, i), tail(h, i + width(sep)))),
        None => None,
    }
}

pub fn cut_last_once<'a>(h: &'a [char], sep: &str) -> (r: Option<(&'a [char], &'a [char])>)
    ensures
        slices(r) == cut_last(h@, sep@),
{
    match rfind(h, sep) {
        Some(i) => Some((head(h, i), tail(h, i + width(sep)))),
        None => None,
    }
}

pub fn head_before<'a>(h: &'a [char], sep: &str) -> (r: &'a [char])
    ensures
        r@ == before(h@, sep@),
{
    match find(h, sep) {
        Some(i) => head(h, i),
        None => h,
    }
}

pub fn tail_after_last<'a>(h: &'a [char], sep: &str) -> (r: &'a [char])
    ensures
        r@ == after_last(h@, sep@),
{
    match rfind(h, sep) {
        Some(i) => tail(h, i + width(sep)),
        None => h,
    }
}

pub fn strip_prefix<'a>(h: &'a [char], n: &str) -> (r: Option<&'a [char]>)
    ensures
        (match r {
            Some(t) => Some(t@),
            None => None,
        }) == without_prefix(h@, n@),
{
    if starts_with(h, n) {
        Some(tail(h, width(n)))
    } else {
        None
    }
}

/// The pieces of `h` between one `sep` and the next.
pub fn split_all<'a>(h: &'a [char], sep: &str) -> (r: Vec<&'a [char]>)
    requires
        sep@.len() > 0,
    ensures
        pieces(r@) == split(h@, sep@),
        r@.len() > 0,
{
    let mut out: Vec<&'a [char]> = Vec::new();
    let mut rest: &'a [char] = h;
    let step: usize = width(sep);
    assert(pieces(out@) + split(rest@, sep@) =~= split(h@, sep@));
    loop
        invariant
            step == sep@.len(),
            step > 0,
            pieces(out@) + split(rest@, sep@) == split(h@, sep@),
        decreases rest@.len(),
    {
        match find(rest, sep) {
            Some(i) => {
                let ghost was = out@;
                let ghost whole = rest@;
                let piece = head(rest, i);
                out.push(piece);
                rest = tail(rest, i + step);
                assert(pieces(out@) =~= pieces(was).push(whole.take(i as int)));
                assert(pieces(out@) + split(rest@, sep@) =~= pieces(was) + split(whole, sep@));
            },
            None => {
                let ghost was = out@;
                out.push(rest);
                assert(pieces(out@) =~= pieces(was).push(rest@));
                assert(pieces(out@) =~= pieces(was) + split(rest@, sep@));
                return out;
            },
        }
    }
}

/// The non-empty pieces of `h` between one `sep` and the next.
pub fn split_non_empty<'a>(h: &'a [char], sep: &str) -> (r: Vec<&'a [char]>)
    requires
        sep@.len() > 0,
    ensures
        pieces(r@) == non_empty(split(h@, sep@)),
{
    let all = split_all(h, sep);
    let mut out: Vec<&'a [char]> = Vec::new();
    let mut i: usize = 0;
    let ghost keep = |p: Seq<char>| p.len() > 0;
    assert(pieces(all@).take(0).filter(keep) =~= Seq::empty());
    assert(pieces(out@) =~= pieces(all@).take(0).filter(keep));
    while i < all.len()
        invariant
            0 <= i <= all@.len(),
            keep == (|p: Seq<char>| p.len() > 0),
            pieces(out@) == pieces(all@).take(i as int).filter(keep),
        decreases all@.len() - i,
    {
        let ghost was = out@;
        proof {
            let prefix = pieces(all@).take(i as int);
            assert(pieces(all@).take(i + 1) =~= prefix.push(pieces(all@)[i as int]));
            prefix.lemma_filter_push(pieces(all@)[i as int], keep);
        }
        if all[i].len() > 0 {
            out.push(all[i]);
            assert(pieces(out@) =~= pieces(was).push(all@[i as int]@));
        }
        i += 1;
    }
    assert(pieces(all@).take(i as int) =~= pieces(all@));
    out
}

/// Appends characters to a string.
pub fn append(out: &mut String, s: &[char])
    ensures
        final(out)@ == old(out)@ + s@,
{
    let mut i: usize = 0;
    assert(out@ =~= old(out)@ + s@.take(0));
    while i < s.len()
        invariant
            0 <= i <= s@.len(),
            out@ == old(out)@ + s@.take(i as int),
        decreases s@.len() - i,
    {
        out.push(s[i]);
        i += 1;
        assert(out@ =~= old(out)@ + s@.take(i as int));
    }
    assert(s@.take(i as int) =~= s@);
}

/// The pieces in order, with `sep` between neighbours.
pub fn join_pieces(parts: &Vec<&[char]>, sep: &str) -> (r: String)
    ensures
        r@ == join(pieces(parts@), sep@),
{
    let mut out = String::new();
    let mut i: usize = 0;
    let ghost all = pieces(parts@);
    while i < parts.len()
        invariant
            0 <= i <= parts@.len(),
            all == pieces(parts@),
            out@ == join(all.take(i as int), sep@),
        decreases parts@.len() - i,
    {
        proof {
            assert(all.take(i + 1).drop_last() =~= all.take(i as int));
            assert(all.take(i + 1).last() == parts@[i as int]@);
        }
        if i > 0 {
            out.append(sep);
        } else {
            assert(out@ =~= Seq::<char>::empty());
        }
        append(&mut out, parts[i]);
        assert(i == 0 ==> out@ =~= parts@[0]@);
        i += 1;
    }
    assert(all.take(i as int) =~= all);
    out
}

/// The strings in order, with `sep` between neighbours.
pub fn join_strings(parts: &Vec<String>, sep: &str) -> (r: String)
    ensures
        r@ == join(texts(parts@), sep@),
{
    let mut out = String::new();
    let mut i: usize = 0;
    let ghost all = texts(parts@);
    while i < parts.len()
        invariant
            0 <= i <= parts@.len(),
            all == texts(parts@),
            out@ == join(all.take(i as int), sep@),
        decreases parts@.len() - i,
    {
        proof {
            assert(all.take(i + 1).drop_last() =~= all.take(i as int));
            assert(all.take(i + 1).last() == parts@[i as int]@);
        }
        if i > 0 {
            out.append(sep);
        } else {
            assert(out@ =~= Seq::<char>::empty());
        }
        out.append(parts[i].as_str());
        assert(i == 0 ==> out@ =~= parts@[0]@);
        i += 1;
    }
    assert(all.take(i as int) =~= all);
    out
}

// ---------------------------------------------------------------------------
// Trimming
// ---------------------------------------------------------------------------

/// `s` without the white space it begins with.
pub open spec fn trimmed_start(s: Seq<char>) -> Seq<char>
    decreases s.len(),
{
    if s.len() > 0 && white(s[0]) {
        trimmed_start(s.skip(1))
    } else {
        s
    }
}

/// `s` without the white space it ends with.
pub open spec fn trimmed_end(s: Seq<char>) -> Seq<char>
    decreases s.len(),
{
    if s.len() > 0 && white(s.last()) {
        trimmed_end(s.drop_last())
    } else {
        s
    }
}

pub open spec fn trimmed(s: Seq<char>) -> Seq<char> {
    trimmed_end(trimmed_start(s))
}

/// `s` without the characters of `set` that it begins with.
pub open spec fn shed_start(s: Seq<char>, set: Seq<char>) -> Seq<char>
    decreases s.len(),
{
    if s.len() > 0 && set.contains(s[0]) {
        shed_start(s.skip(1), set)
    } else {
        s
    }
}

/// `s` without the characters of `set` that it ends with.
pub open spec fn shed_end(s: Seq<char>, set: Seq<char>) -> Seq<char>
    decreases s.len(),
{
    if s.len() > 0 && set.contains(s.last()) {
        shed_end(s.drop_last(), set)
    } else {
        s
    }
}

/// `s` without the characters of `set` at either end.
pub open spec fn shed(s: Seq<char>, set: Seq<char>) -> Seq<char> {
    shed_end(shed_start(s, set), set)
}

/// `s` without every `n` that it begins with, one after the other.
pub open spec fn no_prefixes(s: Seq<char>, n: Seq<char>) -> Seq<char>
    decreases s.len(),
{
    if n.len() > 0 && begins(s, n) {
        no_prefixes(s.skip(n.len() as int), n)
    } else {
        s
    }
}

/// `s` without every `n` that it ends with, one after the other.
pub open spec fn no_suffixes(s: Seq<char>, n: Seq<char>) -> Seq<char>
    decreases s.len(),
{
    if n.len() > 0 && ends(s, n) {
        no_suffixes(s.take(s.len() - n.len()), n)
    } else {
        s
    }
}

pub fn trim_start<'a>(s: &'a [char]) -> (r: &'a [char])
    ensures
        r@ == trimmed_start(s@),
{
    let mut rest: &'a [char] = s;
    while rest.len() > 0 && rest[0].is_whitespace()
        invariant
            trimmed_start(rest@) == trimmed_start(s@),
        decreases rest@.len(),
    {
        rest = tail(rest, 1);
    }
    rest
}

pub fn trim<'a>(s: &'a [char]) -> (r: &'a [char])
    ensures
        r@ == trimmed(s@),
{
    let begun = trim_start(s);
    let mut rest: &'a [char] = begun;
    while rest.len() > 0 && rest[rest.len() - 1].is_whitespace()
        invariant
            trimmed_end(rest@) == trimmed_end(begun@),
        decreases rest@.len(),
    {
        let ghost was = rest@;
        rest = head(rest, rest.len() - 1);
        assert(rest@ =~= was.drop_last());
    }
    rest
}

/// Whether `c` is one of the characters of `set`.
pub fn among(c: char, set: &str) -> (r: bool)
    ensures
        r == set@.contains(c),
{
    let members = chars_of(set);
    let mut i: usize = 0;
    while i < members.len()
        invariant
            0 <= i <= members@.len(),
            members@ == set@,
            forall|j: int| 0 <= j < i ==> members@[j] != c,
        decreases members@.len() - i,
    {
        if members[i] == c {
            return true;
        }
        i += 1;
    }
    false
}

/// `s` without the characters of `set` at either end.
pub fn shed_chars<'a>(s: &'a [char], set: &str) -> (r: &'a [char])
    ensures
        r@ == shed(s@, set@),
{
    let mut rest: &'a [char] = s;
    while rest.len() > 0 && among(rest[0], set)
        invariant
            shed_start(rest@, set@) == shed_start(s@, set@),
        decreases rest@.len(),
    {
        rest = tail(rest, 1);
    }
    let ghost begun = rest@;
    while rest.len() > 0 && among(rest[rest.len() - 1], set)
        invariant
            shed_end(rest@, set@) == shed_end(begun, set@),
        decreases rest@.len(),
    {
        let ghost was = rest@;
        rest = head(rest, rest.len() - 1);
        assert(rest@ =~= was.drop_last());
    }
    rest
}

/// `s` without every `n` that it begins with.
pub fn drop_prefixes<'a>(s: &'a [char], n: &str) -> (r: &'a [char])
    ensures
        r@ == no_prefixes(s@, n@),
{
    let step: usize = width(n);
    let mut rest: &'a [char] = s;
    while step > 0 && starts_with(rest, n)
        invariant
            step == n@.len(),
            no_prefixes(rest@, n@) == no_prefixes(s@, n@),
        decreases rest@.len(),
    {
        rest = tail(rest, step);
    }
    rest
}

/// `s` without every `n` that it ends with.
pub fn drop_suffixes<'a>(s: &'a [char], n: &str) -> (r: &'a [char])
    ensures
        r@ == no_suffixes(s@, n@),
{
    let step: usize = width(n);
    let mut rest: &'a [char] = s;
    while step > 0 && ends_with(rest, n)
        invariant
            step == n@.len(),
            no_suffixes(rest@, n@) == no_suffixes(s@, n@),
        decreases rest@.len(),
    {
        rest = head(rest, rest.len() - step);
    }
    rest
}

// ---------------------------------------------------------------------------
// Lines
// ---------------------------------------------------------------------------

/// A line that a line feed ended, without the carriage return before it.
pub open spec fn bare_line(s: Seq<char>) -> Seq<char> {
    if s.len() > 0 && s.last() == '\r' {
        s.drop_last()
    } else {
        s
    }
}

/// The lines of a text. A line feed ends a line, together with a carriage
/// return before it; the last line need not be ended, and what follows the
/// last line feed is a line only where it is not empty.
pub open spec fn lines_of(s: Seq<char>) -> Seq<Seq<char>>
    decreases s.len(),
{
    match first(s, "\n"@) {
        Some(i) => if i < 0 || i + "\n"@.len() > s.len() || "\n"@.len() == 0 {
            Seq::empty()
        } else {
            seq![bare_line(s.take(i))] + lines_of(s.skip(i + "\n"@.len()))
        },
        None => if s.len() == 0 {
            Seq::empty()
        } else {
            seq![s]
        },
    }
}

fn without_return<'a>(s: &'a [char]) -> (r: &'a [char])
    ensures
        r@ == bare_line(s@),
{
    if s.len() > 0 && s[s.len() - 1] == '\r' {
        let r = head(s, s.len() - 1);
        assert(r@ =~= s@.drop_last());
        r
    } else {
        s
    }
}

/// The lines of a text.
pub fn lines<'a>(s: &'a [char]) -> (r: Vec<&'a [char]>)
    ensures
        pieces(r@) == lines_of(s@),
{
    let mut out: Vec<&'a [char]> = Vec::new();
    let mut rest: &'a [char] = s;
    proof {
        reveal_strlit("\n");
    }
    assert(pieces(out@) + lines_of(rest@) =~= lines_of(s@));
    loop
        invariant
            "\n"@.len() == 1,
            pieces(out@) + lines_of(rest@) == lines_of(s@),
        decreases rest@.len(),
    {
        let ghost was = out@;
        let ghost whole = rest@;
        match find(rest, "\n") {
            Some(i) => {
                let piece = without_return(head(rest, i));
                out.push(piece);
                rest = tail(rest, i + 1);
                assert(pieces(out@) =~= pieces(was).push(bare_line(whole.take(i as int))));
                assert(pieces(out@) + lines_of(rest@) =~= pieces(was) + lines_of(whole));
            },
            None => {
                if rest.len() > 0 {
                    out.push(rest);
                    assert(pieces(out@) =~= pieces(was).push(rest@));
                }
                assert(pieces(out@) =~= pieces(was) + lines_of(whole));
                return out;
            },
        }
    }
}

// ---------------------------------------------------------------------------
// Words
// ---------------------------------------------------------------------------

/// A character that a word is made of.
pub open spec fn word_char(c: char) -> bool {
    alphanumeric(c) || c == '_'
}

/// `w` stands in `s` at `i` with no character of a word on either side.
pub open spec fn word_at(s: Seq<char>, w: Seq<char>, i: int) -> bool {
    &&& occurs_at(s, w, i)
    &&& i > 0 ==> !word_char(s[i - 1])
    &&& i + w.len() < s.len() ==> !word_char(s[i + w.len()])
}

/// `w` stands in `s` as a whole word.
pub open spec fn mentions(s: Seq<char>, w: Seq<char>) -> bool {
    exists|i: int| word_at(s, w, i)
}

pub fn is_word_char(c: char) -> (r: bool)
    ensures
        r == word_char(c),
{
    c.is_alphanumeric() || c == '_'
}

/// Whether `w` stands in `s` as a whole word.
pub fn mentions_word(s: &[char], w: &str) -> (r: bool)
    requires
        w@.len() > 0,
    ensures
        r == mentions(s@, w@),
{
    let len: usize = s.len();
    let step: usize = width(w);
    let mut from: usize = 0;
    loop
        invariant
            0 <= from <= len,
            len == s@.len(),
            step == w@.len(),
            step > 0,
            forall|j: int| 0 <= j < from ==> !word_at(s@, w@, j),
        decreases len - from,
    {
        proof {
            first_from_is_first(s@, w@, from as int);
        }
        match find_from(s, w, from) {
            Some(i) => {
                if (i == 0 || !is_word_char(s[i - 1])) && (i + step == len || !is_word_char(
                    s[i + step],
                )) {
                    assert(word_at(s@, w@, i as int));
                    return true;
                }
                from = i + 1;
            },
            None => {
                assert(forall|j: int| word_at(s@, w@, j) ==> occurs_at(s@, w@, j));
                return false;
            },
        }
    }
}

// ---------------------------------------------------------------------------
// Putting lines together
// ---------------------------------------------------------------------------

pub fn cat2(a: &str, b: &str) -> (r: String)
    ensures
        r@ == a@ + b@,
{
    let mut out = a.to_owned();
    out.append(b);
    out
}

pub fn cat3(a: &str, b: &str, c: &str) -> (r: String)
    ensures
        r@ == a@ + b@ + c@,
{
    let mut out = cat2(a, b);
    out.append(c);
    out
}

pub fn cat4(a: &str, b: &str, c: &str, d: &str) -> (r: String)
    ensures
        r@ == a@ + b@ + c@ + d@,
{
    let mut out = cat3(a, b, c);
    out.append(d);
    out
}

pub fn cat5(a: &str, b: &str, c: &str, d: &str, e: &str) -> (r: String)
    ensures
        r@ == a@ + b@ + c@ + d@ + e@,
{
    let mut out = cat4(a, b, c, d);
    out.append(e);
    out
}

/// Adds a line.
pub fn tell(out: &mut Vec<String>, line: String)
    ensures
        texts(final(out)@) == texts(old(out)@).push(line@),
{
    out.push(line);
    assert(texts(out@) =~= texts(old(out)@).push(line@));
}

/// Adds a line as it is written.
pub fn say(out: &mut Vec<String>, line: &str)
    ensures
        texts(final(out)@) == texts(old(out)@).push(line@),
{
    tell(out, line.to_owned());
}

/// Adds lines.
pub fn tell_all(out: &mut Vec<String>, lines: Vec<String>)
    ensures
        texts(final(out)@) == texts(old(out)@) + texts(lines@),
{
    let ghost before = out@;
    let mut lines = lines;
    let ghost given = lines@;
    out.append(&mut lines);
    assert(texts(out@) =~= texts(before) + texts(given));
}

/// `s` with spaces behind it up to `width` characters.
pub open spec fn left(s: Seq<char>, width: nat) -> Seq<char> {
    if s.len() >= width {
        s
    } else {
        s + Seq::new((width - s.len()) as nat, |i: int| ' ')
    }
}

/// `s` with spaces behind it up to `width` characters.
pub fn left_of(s: &str, width: usize) -> (r: String)
    ensures
        r@ == left(s@, width as nat),
{
    let n: usize = self::width(s);
    let mut out = s.to_owned();
    let mut i: usize = n;
    assert(out@ =~= s@ + Seq::new(0, |k: int| ' '));
    while i < width
        invariant
            n == s@.len(),
            n <= i,
            i <= width || i == n,
            out@ == s@ + Seq::new((i - n) as nat, |k: int| ' '),
        decreases width - i,
    {
        out.push(' ');
        i += 1;
        assert(out@ =~= s@ + Seq::new((i - n) as nat, |k: int| ' '));
    }
    assert(out@ =~= left(s@, width as nat));
    out
}

/// A line drawn across the page.
pub open spec fn rule(width: nat) -> Seq<char> {
    Seq::new(width, |i: int| '\u{2500}')
}

/// A line drawn across the page.
pub fn rule_of(width: usize) -> (r: String)
    ensures
        r@ == rule(width as nat),
{
    let mut out = String::new();
    let mut i: usize = 0;
    while i < width
        invariant
            0 <= i <= width,
            out@ == rule(i as nat),
        decreases width - i,
    {
        out.push('\u{2500}');
        i += 1;
        assert(out@ =~= rule(i as nat));
    }
    out
}

} // verus!
