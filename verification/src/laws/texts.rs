//! What the operations on text do to texts that are put together from parts.

use vstd::prelude::*;

use crate::number::decimal;
use crate::number::numeral;
use crate::number::padded;
use crate::number::parsed;
use crate::number::signs;
use crate::number::value;
use crate::text::after_last;
use crate::text::before;
use crate::text::begins;
use crate::text::cut;
use crate::text::cut_last;
use crate::text::ends;
use crate::text::first;
use crate::text::first_from_is_first;
use crate::text::join;
use crate::text::last;
use crate::text::last_is_last;
use crate::text::left;
use crate::text::lines_of;
use crate::text::mentions;
use crate::text::no_prefixes;
use crate::text::no_suffixes;
use crate::text::non_empty;
use crate::text::occurs_at;
use crate::text::present;
use crate::text::shed;
use crate::text::shed_end;
use crate::text::shed_start;
use crate::text::split;
use crate::text::trimmed;
use crate::text::trimmed_end;
use crate::text::trimmed_start;
use crate::text::white;
use crate::text::without_prefix;
use crate::text::word_at;
use crate::text::word_char;

verus! {

/// A text begins with the first of its parts, and ends with the last.
pub proof fn parts_are_found(a: Seq<char>, n: Seq<char>, b: Seq<char>)
    ensures
        begins(a + b, a),
        ends(a + b, b),
        occurs_at(a + n + b, n, a.len() as int),
        present(a + n + b, n),
        without_prefix(a + b, a) == Some(b),
{
    assert((a + b).subrange(0, a.len() as int) =~= a);
    assert((a + b).subrange((a + b).len() - b.len(), (a + b).len() as int) =~= b);
    assert((a + n + b).subrange(a.len() as int, a.len() as int + n.len()) =~= n);
    assert(occurs_at(a + n + b, n, a.len() as int));
    assert((a + b).skip(a.len() as int) =~= b);
}

/// A text that begins with another is that one and a rest, and only such a
/// text begins with it; and so at the end.
pub proof fn what_begins_has_a_rest(h: Seq<char>, n: Seq<char>)
    ensures
        begins(h, n) <==> exists|rest: Seq<char>| h == #[trigger] (n + rest),
        ends(h, n) <==> exists|rest: Seq<char>| h == #[trigger] (rest + n),
{
    if begins(h, n) {
        assert(h =~= n + h.skip(n.len() as int));
    }
    if exists|rest: Seq<char>| h == #[trigger] (n + rest) {
        let rest = choose|rest: Seq<char>| h == #[trigger] (n + rest);
        parts_are_found(n, n, rest);
    }
    if ends(h, n) {
        assert(h =~= h.take(h.len() - n.len()) + n);
    }
    if exists|rest: Seq<char>| h == #[trigger] (rest + n) {
        let rest = choose|rest: Seq<char>| h == #[trigger] (rest + n);
        parts_are_found(rest, n, n);
    }
}

/// A character stands in a text at a position exactly where the text has it
/// there.
pub proof fn one_character_stands(h: Seq<char>, c: char, i: int)
    ensures
        occurs_at(h, seq![c], i) == (0 <= i < h.len() && h[i] == c),
        present(h, seq![c]) == h.contains(c),
{
    assert forall|k: int| #[trigger] occurs_at(h, seq![c], k) == (0 <= k < h.len() && h[k]
        == c) by {
        if 0 <= k < h.len() {
            assert(h.subrange(k, k + 1)[0] == h[k]);
            if h[k] == c {
                assert(h.subrange(k, k + 1) =~= seq![c]);
            }
            if h.subrange(k, k + 1) == seq![c] {
                assert(seq![c][0] == c);
            }
        }
    }
    if h.contains(c) {
        let k = choose|k: int| 0 <= k < h.len() && h[k] == c;
        assert(occurs_at(h, seq![c], k));
    }
    if present(h, seq![c]) {
        let k = choose|k: int| occurs_at(h, seq![c], k);
        assert(h[k] == c);
    }
}

/// The first of several occurrences is found.
pub proof fn first_one_stands(h: Seq<char>, n: Seq<char>, at: int)
    requires
        occurs_at(h, n, at),
        forall|j: int| 0 <= j < at ==> !#[trigger] occurs_at(h, n, j),
    ensures
        first(h, n) == Some(at),
{
    first_from_is_first(h, n, 0);
    let found = first(h, n);
    assert(found is Some);
}

/// A text is cut at the first separator and at no later one.
pub proof fn cut_at_the_first(a: Seq<char>, c: char, b: Seq<char>)
    requires
        !a.contains(c),
    ensures
        first(a + seq![c] + b, seq![c]) == Some(a.len() as int),
        cut(a + seq![c] + b, seq![c]) == Some((a, b)),
        before(a + seq![c] + b, seq![c]) == a,
{
    let h = a + seq![c] + b;
    let n = a.len() as int;
    parts_are_found(a, seq![c], b);
    assert forall|j: int| 0 <= j < n implies !#[trigger] occurs_at(h, seq![c], j) by {
        one_character_stands(h, c, j);
        if occurs_at(h, seq![c], j) {
            assert(a[j] == c);
        }
    }
    first_one_stands(h, seq![c], n);
    assert(h.take(n) =~= a);
    assert(h.skip(n + 1) =~= b);
}

proof fn last_one_stands(h: Seq<char>, c: char, n: int)
    requires
        0 <= n < h.len(),
        h[n] == c,
        forall|i: int| n < i < h.len() ==> #[trigger] h[i] != c,
    ensures
        last(h, seq![c]) == Some(n),
{
    last_is_last(h, seq![c]);
    let found = last(h, seq![c]);
    one_character_stands(h, c, n);
    match found {
        Some(i) => {
            one_character_stands(h, c, i);
            assert(i <= n);
            assert(!(i < n));
        },
        None => {
            assert(occurs_at(h, seq![c], n));
        },
    }
}

/// A text is cut at the last separator and at no earlier one.
pub proof fn cut_at_the_last(a: Seq<char>, c: char, b: Seq<char>)
    requires
        !b.contains(c),
    ensures
        last(a + seq![c] + b, seq![c]) == Some(a.len() as int),
        cut_last(a + seq![c] + b, seq![c]) == Some((a, b)),
        after_last(a + seq![c] + b, seq![c]) == b,
{
    let h = a + seq![c] + b;
    let n = a.len() as int;
    last_one_stands(h, c, n);
    assert(h.take(n) =~= a);
    assert(h.skip(n + 1) =~= b);
}

/// Where no separator stands nothing is cut.
pub proof fn nothing_to_cut(a: Seq<char>, c: char)
    requires
        !a.contains(c),
    ensures
        first(a, seq![c]) is None,
        last(a, seq![c]) is None,
        cut(a, seq![c]) is None,
        cut_last(a, seq![c]) is None,
        before(a, seq![c]) == a,
        after_last(a, seq![c]) == a,
        split(a, seq![c]) == seq![a],
        !present(a, seq![c]),
{
    first_from_is_first(a, seq![c], 0);
    last_is_last(a, seq![c]);
    one_character_stands(a, c, 0);
    if let Some(i) = first(a, seq![c]) {
        one_character_stands(a, c, i);
    }
    if let Some(i) = last(a, seq![c]) {
        one_character_stands(a, c, i);
    }
}

/// Splitting takes one piece in front of each separator.
pub proof fn split_takes_the_first_piece(a: Seq<char>, c: char, b: Seq<char>)
    requires
        !a.contains(c),
    ensures
        split(a + seq![c] + b, seq![c]) == seq![a] + split(b, seq![c]),
{
    cut_at_the_first(a, c, b);
    let h = a + seq![c] + b;
    assert(h.take(a.len() as int) =~= a);
    assert(h.skip(a.len() as int + 1) =~= b);
}

/// Splitting undoes joining, where no part holds the separator.
pub proof fn splitting_undoes_joining(parts: Seq<Seq<char>>, c: char)
    requires
        parts.len() > 0,
        forall|i: int| 0 <= i < parts.len() ==> !(#[trigger] parts[i]).contains(c),
    ensures
        split(join(parts, seq![c]), seq![c]) == parts,
    decreases parts.len(),
{
    if parts.len() == 1 {
        nothing_to_cut(parts[0], c);
        assert(seq![parts[0]] =~= parts);
    } else {
        let rest = parts.skip(1);
        assert forall|i: int| 0 <= i < rest.len() implies !(#[trigger] rest[i]).contains(c) by {
            assert(rest[i] == parts[i + 1]);
        }
        splitting_undoes_joining(rest, c);
        crate::text::join_front(parts[0], rest, seq![c]);
        assert(seq![parts[0]] + rest =~= parts);
        assert(!parts[0].contains(c));
        split_takes_the_first_piece(parts[0], c, join(rest, seq![c]));
    }
}

/// The same of a longer separator, whose first character the text before it
/// does not hold.
pub proof fn cut_at_the_first_mark(a: Seq<char>, n: Seq<char>, b: Seq<char>)
    requires
        n.len() > 0,
        !a.contains(n[0]),
    ensures
        first(a + n + b, n) == Some(a.len() as int),
        cut(a + n + b, n) == Some((a, b)),
        before(a + n + b, n) == a,
        split(a + n + b, n) == seq![a] + split(b, n),
{
    let h = a + n + b;
    let at = a.len() as int;
    parts_are_found(a, n, b);
    assert forall|j: int| 0 <= j < at implies !#[trigger] occurs_at(h, n, j) by {
        if occurs_at(h, n, j) {
            assert(h.subrange(j, j + n.len())[0] == h[j]);
            assert(a[j] == n[0]);
        }
    }
    first_one_stands(h, n, at);
    assert(h.take(at) =~= a);
    assert(h.skip(at + n.len()) =~= b);
}

/// A separator whose last character the text behind it does not hold is the
/// last.
pub proof fn cut_at_the_last_mark(a: Seq<char>, n: Seq<char>, b: Seq<char>)
    requires
        n.len() > 0,
        !b.contains(n.last()),
    ensures
        last(a + n + b, n) == Some(a.len() as int),
        cut_last(a + n + b, n) == Some((a, b)),
        after_last(a + n + b, n) == b,
{
    let h = a + n + b;
    let at = a.len() as int;
    last_is_last(h, n);
    parts_are_found(a, n, b);
    let found = last(h, n);
    match found {
        Some(i) => {
            assert(!(i < at));
            if i > at {
                assert(h.subrange(i, i + n.len())[n.len() - 1] == h[i + n.len() - 1]);
                assert(b[i - at - 1] == n.last());
            }
        },
        None => {},
    }
    assert(h.take(at) =~= a);
    assert(h.skip(at + n.len()) =~= b);
}

/// A text does not hold what has a character that it does not hold.
pub proof fn a_missing_character_rules_out(h: Seq<char>, n: Seq<char>, k: int)
    requires
        0 <= k < n.len(),
        !h.contains(n[k]),
    ensures
        !present(h, n),
        first(h, n) is None,
        last(h, n) is None,
        before(h, n) == h,
        after_last(h, n) == h,
        cut(h, n) is None,
        split(h, n) == seq![h],
        !begins(h, n),
        !ends(h, n),
{
    assert forall|i: int| !occurs_at(h, n, i) by {
        if occurs_at(h, n, i) {
            assert(h.subrange(i, i + n.len())[k] == h[i + k]);
            assert(h.contains(n[k]));
        }
    }
    first_from_is_first(h, n, 0);
    last_is_last(h, n);
    let found = last(h, n);
    assert(found is None);
}

/// Splitting undoes joining with a longer separator too.
pub proof fn splitting_undoes_joining_with(parts: Seq<Seq<char>>, n: Seq<char>)
    requires
        parts.len() > 0,
        n.len() > 0,
        forall|i: int| 0 <= i < parts.len() ==> !(#[trigger] parts[i]).contains(n[0]),
    ensures
        split(join(parts, n), n) == parts,
    decreases parts.len(),
{
    if parts.len() == 1 {
        a_missing_character_rules_out(parts[0], n, 0);
        assert(seq![parts[0]] =~= parts);
    } else {
        let rest = parts.skip(1);
        assert forall|i: int| 0 <= i < rest.len() implies !(#[trigger] rest[i]).contains(n[0]) by {
            assert(rest[i] == parts[i + 1]);
        }
        splitting_undoes_joining_with(rest, n);
        crate::text::join_front(parts[0], rest, n);
        assert(seq![parts[0]] + rest =~= parts);
        assert(!parts[0].contains(n[0]));
        cut_at_the_first_mark(parts[0], n, join(rest, n));
    }
}

/// Pieces that are not empty all stay.
pub proof fn full_pieces_stay(parts: Seq<Seq<char>>)
    requires
        forall|i: int| 0 <= i < parts.len() ==> (#[trigger] parts[i]).len() > 0,
    ensures
        non_empty(parts) == parts,
    decreases parts.len(),
{
    reveal(Seq::filter);
    let keep = |p: Seq<char>| p.len() > 0;
    if parts.len() > 0 {
        let less = parts.drop_last();
        assert forall|i: int| 0 <= i < less.len() implies (#[trigger] less[i]).len() > 0 by {
            assert(less[i] == parts[i]);
        }
        full_pieces_stay(less);
        assert(keep(parts.last()));
        assert(parts.filter(keep) == less.filter(keep).push(parts.last()));
        assert(parts =~= less.push(parts.last()));
    } else {
        assert(parts.filter(keep) =~= parts);
    }
}

/// Trimming takes the white space at both ends, all of it and nothing else.
pub proof fn trimming_takes_the_ends(a: Seq<char>, s: Seq<char>, b: Seq<char>)
    requires
        forall|i: int| 0 <= i < a.len() ==> white(#[trigger] a[i]),
        forall|i: int| 0 <= i < b.len() ==> white(#[trigger] b[i]),
        s.len() > 0,
        !white(s[0]),
        !white(s.last()),
    ensures
        trimmed(a + s + b) == s,
        trimmed_start(a + s + b) == s + b,
        trimmed(a + b) == Seq::<char>::empty(),
    decreases a.len() + b.len(),
{
    trimmed_start_of(a, s + b);
    assert(a + (s + b) =~= a + s + b);
    trimmed_end_of(s, b);
    if a.len() > 0 || b.len() > 0 {
        all_white_goes(a + b);
    }
}

proof fn trimmed_start_of(a: Seq<char>, s: Seq<char>)
    requires
        forall|i: int| 0 <= i < a.len() ==> white(#[trigger] a[i]),
        s.len() > 0,
        !white(s[0]),
    ensures
        trimmed_start(a + s) == s,
    decreases a.len(),
{
    if a.len() == 0 {
        assert(a + s =~= s);
    } else {
        assert((a + s)[0] == a[0]);
        assert((a + s).skip(1) =~= a.skip(1) + s);
        trimmed_start_of(a.skip(1), s);
    }
}

proof fn trimmed_end_of(s: Seq<char>, b: Seq<char>)
    requires
        forall|i: int| 0 <= i < b.len() ==> white(#[trigger] b[i]),
        s.len() > 0,
        !white(s.last()),
    ensures
        trimmed_end(s + b) == s,
    decreases b.len(),
{
    if b.len() == 0 {
        assert(s + b =~= s);
    } else {
        assert((s + b).last() == b.last());
        assert(b.last() == b[b.len() - 1]);
        assert((s + b).drop_last() =~= s + b.drop_last());
        trimmed_end_of(s, b.drop_last());
    }
}

proof fn all_white_goes(a: Seq<char>)
    requires
        forall|i: int| 0 <= i < a.len() ==> white(#[trigger] a[i]),
    ensures
        trimmed_start(a) == Seq::<char>::empty(),
        trimmed(a) == Seq::<char>::empty(),
    decreases a.len(),
{
    if a.len() > 0 {
        assert(white(a[0]));
        all_white_goes(a.skip(1));
    } else {
        assert(a =~= Seq::<char>::empty());
    }
}

proof fn trimmed_start_is_a_suffix(s: Seq<char>)
    ensures
        trimmed_start(s).len() <= s.len(),
        trimmed_start(s) == s.skip(s.len() - trimmed_start(s).len()),
    decreases s.len(),
{
    if s.len() > 0 && white(s[0]) {
        trimmed_start_is_a_suffix(s.skip(1));
        let t = trimmed_start(s);
        assert(s.skip(1).skip(s.len() - 1 - t.len()) =~= s.skip(s.len() - t.len()));
    } else {
        assert(s.skip(0) =~= s);
    }
}

proof fn trimmed_end_is_a_prefix(s: Seq<char>)
    ensures
        trimmed_end(s).len() <= s.len(),
        trimmed_end(s) == s.take(trimmed_end(s).len() as int),
    decreases s.len(),
{
    if s.len() > 0 && white(s.last()) {
        trimmed_end_is_a_prefix(s.drop_last());
        let t = trimmed_end(s);
        assert(s.drop_last().take(t.len() as int) =~= s.take(t.len() as int));
    } else {
        assert(s.take(s.len() as int) =~= s);
    }
}

/// Where in a text that which is left of it by trimming stands.
pub open spec fn place_of_trimmed(s: Seq<char>) -> int {
    s.len() - trimmed_start(s).len()
}

/// What is left of a text by trimming stands in it.
pub proof fn trimmed_stands_within(s: Seq<char>)
    ensures
        occurs_at(s, trimmed(s), place_of_trimmed(s)),
{
    trimmed_start_is_a_suffix(s);
    trimmed_end_is_a_prefix(trimmed_start(s));
    let k = place_of_trimmed(s);
    assert(s.subrange(k, k + trimmed(s).len()) =~= trimmed(s));
}

/// Trimming changes nothing that has no white space at its ends.
pub proof fn trimming_keeps_the_rest(s: Seq<char>)
    requires
        s.len() > 0 ==> !white(s[0]) && !white(s.last()),
    ensures
        trimmed(s) == s,
{
}

/// Characters of a set are shed at both ends, all of them and no others.
pub proof fn shedding_takes_the_ends(a: Seq<char>, s: Seq<char>, b: Seq<char>, set: Seq<char>)
    requires
        forall|i: int| 0 <= i < a.len() ==> set.contains(#[trigger] a[i]),
        forall|i: int| 0 <= i < b.len() ==> set.contains(#[trigger] b[i]),
        s.len() > 0,
        !set.contains(s[0]),
        !set.contains(s.last()),
    ensures
        shed(a + s + b, set) == s,
    decreases a.len() + b.len(),
{
    if a.len() > 0 {
        let h = a + s + b;
        assert(h[0] == a[0]);
        assert(h.skip(1) =~= a.skip(1) + s + b);
        shedding_takes_the_ends(a.skip(1), s, b, set);
    } else {
        let h = a + s + b;
        assert(h =~= s + b);
        assert(h[0] == s[0]);
        shed_end_of(s, b, set);
    }
}

/// What is left of a text when its ends are shed stands in it.
pub proof fn shed_is_within(s: Seq<char>, set: Seq<char>)
    ensures
        present(s, shed(s, set)),
{
    shed_start_is_a_suffix(s, set);
    let t = shed_start(s, set);
    shed_end_is_a_prefix(t, set);
    let r = shed(s, set);
    let k = s.len() - t.len();
    assert(s.subrange(k, k + r.len()) =~= r);
    assert(occurs_at(s, r, k));
}

proof fn shed_start_is_a_suffix(s: Seq<char>, set: Seq<char>)
    ensures
        shed_start(s, set).len() <= s.len(),
        shed_start(s, set) == s.skip(s.len() - shed_start(s, set).len()),
    decreases s.len(),
{
    if s.len() > 0 && set.contains(s[0]) {
        shed_start_is_a_suffix(s.skip(1), set);
        let t = shed_start(s, set);
        assert(s.skip(1).skip(s.len() - 1 - t.len()) =~= s.skip(s.len() - t.len()));
    } else {
        assert(s.skip(0) =~= s);
    }
}

proof fn shed_end_is_a_prefix(s: Seq<char>, set: Seq<char>)
    ensures
        shed_end(s, set).len() <= s.len(),
        shed_end(s, set) == s.take(shed_end(s, set).len() as int),
    decreases s.len(),
{
    if s.len() > 0 && set.contains(s.last()) {
        shed_end_is_a_prefix(s.drop_last(), set);
        let t = shed_end(s, set);
        assert(s.drop_last().take(t.len() as int) =~= s.take(t.len() as int));
    } else {
        assert(s.take(s.len() as int) =~= s);
    }
}

proof fn shed_end_of(s: Seq<char>, b: Seq<char>, set: Seq<char>)
    requires
        forall|i: int| 0 <= i < b.len() ==> set.contains(#[trigger] b[i]),
        s.len() > 0,
        !set.contains(s.last()),
    ensures
        shed_end(s + b, set) == s,
    decreases b.len(),
{
    if b.len() == 0 {
        assert(s + b =~= s);
    } else {
        assert((s + b).last() == b[b.len() - 1]);
        assert((s + b).drop_last() =~= s + b.drop_last());
        shed_end_of(s, b.drop_last(), set);
    }
}

/// Every prefix of a kind goes, one after the other, and what does not begin
/// with one stays.
pub proof fn prefixes_go(n: Seq<char>, s: Seq<char>)
    requires
        n.len() > 0,
    ensures
        no_prefixes(n + s, n) == no_prefixes(s, n),
        !begins(s, n) ==> no_prefixes(s, n) == s,
{
    parts_are_found(n, n, s);
    assert((n + s).skip(n.len() as int) =~= s);
}

/// The same of suffixes.
pub proof fn suffixes_go(s: Seq<char>, n: Seq<char>)
    requires
        n.len() > 0,
    ensures
        no_suffixes(s + n, n) == no_suffixes(s, n),
        !ends(s, n) ==> no_suffixes(s, n) == s,
{
    parts_are_found(s, n, n);
    assert((s + n).take((s + n).len() - n.len()) =~= s);
}

/// A line ends at a line feed, with the carriage return before it; what
/// follows are the lines of the rest.
pub proof fn a_line_feed_ends_a_line(a: Seq<char>, rest: Seq<char>)
    requires
        !a.contains('\n'),
    ensures
        a.len() > 0 && a.last() == '\r' ==> lines_of(a + seq!['\n'] + rest) == seq![a.drop_last()]
            + lines_of(rest),
        !(a.len() > 0 && a.last() == '\r') ==> lines_of(a + seq!['\n'] + rest) == seq![a]
            + lines_of(rest),
        a.len() > 0 ==> lines_of(a) == seq![a],
        lines_of(seq![]) == Seq::<Seq<char>>::empty(),
{
    reveal_strlit("\n");
    assert("\n"@ =~= seq!['\n']);
    cut_at_the_first(a, '\n', rest);
    nothing_to_cut(a, '\n');
    nothing_to_cut(Seq::<char>::empty(), '\n');
    let h = a + seq!['\n'] + rest;
    assert(h.take(a.len() as int) =~= a);
    assert(h.skip(a.len() as int + 1) =~= rest);
}

/// A word is mentioned where it stands between characters that no word is
/// made of, and not inside a longer one.
pub proof fn words_stand_alone(a: Seq<char>, w: Seq<char>, b: Seq<char>)
    requires
        w.len() > 0,
    ensures
        (a.len() == 0 || !word_char(a.last())) && (b.len() == 0 || !word_char(b[0])) ==> mentions(
            a + w + b,
            w,
        ),
        mentions(a, w) ==> present(a, w),
{
    let h = a + w + b;
    parts_are_found(a, w, b);
    let n = a.len() as int;
    if (a.len() == 0 || !word_char(a.last())) && (b.len() == 0 || !word_char(b[0])) {
        if a.len() > 0 {
            assert(h[n - 1] == a.last());
        }
        if b.len() > 0 {
            assert(h[n + w.len()] == b[0]);
        }
        assert(word_at(h, w, n));
    }
    if mentions(a, w) {
        let i = choose|i: int| word_at(a, w, i);
        assert(occurs_at(a, w, i));
    }
}

/// A word inside a longer word is not mentioned.
pub proof fn no_word_inside_a_word(s: Seq<char>, w: Seq<char>)
    requires
        w.len() > 0,
        s != w,
        forall|i: int| 0 <= i < s.len() ==> word_char(#[trigger] s[i]),
    ensures
        !mentions(s, w),
{
    if mentions(s, w) {
        let i = choose|i: int| word_at(s, w, i);
        assert(i == 0);
        assert(s.len() == w.len());
        assert(s.subrange(0, s.len() as int) =~= s);
    }
}

/// Padding keeps the text in front, fills up with spaces, and cuts nothing.
pub proof fn padding_fills_up(s: Seq<char>, width: nat)
    ensures
        left(s, width).len() == (if s.len() >= width {
            s.len()
        } else {
            width
        }),
        left(s, width).take(s.len() as int) == s,
        forall|i: int| s.len() <= i < left(s, width).len() ==> #[trigger] left(s, width)[i] == ' ',
{
    assert(left(s, width).take(s.len() as int) =~= s);
}

/// A number that is written in decimal reads as itself: its last sign is that
/// of its last digit, and the others are the number without it.
pub proof fn decimals_read_back(n: nat)
    ensures
        value(decimal(n)) == n,
        decimal(n).len() > 0,
        crate::number::all_digits(decimal(n)),
        n > 0 ==> decimal(n)[0] != '0',
        parsed(decimal(n)) == Some(n),
    decreases n,
{
    let s = decimal(n);
    assert(signs()[0] == '0' && signs()[1] == '1' && signs()[2] == '2' && signs()[3] == '3'
        && signs()[4] == '4' && signs()[5] == '5' && signs()[6] == '6' && signs()[7] == '7'
        && signs()[8] == '8' && signs()[9] == '9');
    if n < 10 {
        assert(s =~= seq![signs()[n as int]]);
        assert(s.drop_last() =~= Seq::<char>::empty());
        assert(value(s.drop_last()) == 0);
    } else {
        let m = n / 10;
        decimals_read_back(m);
        assert(s == decimal(m).push(signs()[(n % 10) as int]));
        assert(s.drop_last() =~= decimal(m));
        assert(n == m * 10 + n % 10);
        assert(s[0] == decimal(m)[0]);
    }
}

/// Leading zeros fill a number up to its width and change nothing else.
pub proof fn zeros_fill_up(n: nat, base: nat, width: nat)
    ensures
        padded(n, base, width).len() >= width,
        ends(padded(n, base, width), numeral(n, base)),
        forall|i: int|
            0 <= i < padded(n, base, width).len() - numeral(n, base).len() ==> #[trigger] padded(
                n,
                base,
                width,
            )[i] == '0',
        numeral(n, base).len() >= width ==> padded(n, base, width) == numeral(n, base),
        numeral(n, base).len() < width ==> padded(n, base, width).len() == width,
{
    let s = numeral(n, base);
    if s.len() >= width {
        assert(s.subrange(0, s.len() as int) =~= s);
    } else {
        parts_are_found(Seq::new((width - s.len()) as nat, |i: int| '0'), s, s);
    }
}

/// Cutting at a character keeps a front that does not hold it.
pub proof fn cutting_keeps_the_front(a: Seq<char>, b: Seq<char>, c: char)
    requires
        !a.contains(c),
    ensures
        before(a + b, seq![c]) == a + before(b, seq![c]),
{
    if b.contains(c) {
        first_from_is_first(b, seq![c], 0);
        one_character_stands(b, c, 0);
        assert(present(b, seq![c]));
        let found = first(b, seq![c]);
        assert(found is Some);
        let k = found->0;
        one_character_stands(b, c, k);
        let b1 = b.take(k);
        let b2 = b.skip(k + 1);
        assert(b =~= b1 + seq![c] + b2);
        let front = a + b1;
        assert(!front.contains(c)) by {
            if front.contains(c) {
                let i = choose|i: int| 0 <= i < front.len() && front[i] == c;
                if i < a.len() {
                    assert(a[i] == c);
                } else {
                    one_character_stands(b, c, i - a.len());
                    assert(b[i - a.len()] == c);
                }
            }
        }
        assert(a + b =~= front + seq![c] + b2);
        cut_at_the_first(front, c, b2);
    } else {
        nothing_to_cut(b, c);
        let h = a + b;
        assert(!h.contains(c)) by {
            if h.contains(c) {
                let i = choose|i: int| 0 <= i < h.len() && h[i] == c;
                if i < a.len() {
                    assert(a[i] == c);
                } else {
                    assert(b[i - a.len()] == c);
                }
            }
        }
        nothing_to_cut(h, c);
    }
}

/// Digits are written as figures, and from ten on as small letters.
pub proof fn digits_have_their_signs(d: int)
    requires
        0 <= d < 16,
    ensures
        d < 10 ==> signs()[d] as int == '0' as int + d,
        d >= 10 ==> signs()[d] as int == 'a' as int + (d - 10),
{
    let s = signs();
    assert(s[0] == '0' && s[1] == '1' && s[2] == '2' && s[3] == '3' && s[4] == '4' && s[5] == '5'
        && s[6] == '6' && s[7] == '7' && s[8] == '8' && s[9] == '9' && s[10] == 'a' && s[11] == 'b'
        && s[12] == 'c' && s[13] == 'd' && s[14] == 'e' && s[15] == 'f');
}

/// What a numeral in a base stands for.
pub open spec fn stands_for(s: Seq<char>, base: nat) -> nat
    decreases s.len(),
{
    if s.len() == 0 {
        0
    } else {
        let c = s.last();
        let d = if '0' <= c <= '9' {
            (c as int - '0' as int) as nat
        } else {
            (c as int - 'a' as int + 10) as nat
        };
        stands_for(s.drop_last(), base) * base + d
    }
}

/// A number that is written in a base reads as itself in that base.
pub proof fn numerals_read_back(n: nat, base: nat)
    requires
        2 <= base <= 16,
    ensures
        stands_for(numeral(n, base), base) == n,
        numeral(n, base).len() > 0,
    decreases n,
{
    let s = numeral(n, base);
    if n < base {
        digits_have_their_signs(n as int);
        assert(s =~= seq![signs()[n as int]]);
        assert(s.drop_last() =~= Seq::<char>::empty());
        assert(stands_for(s.drop_last(), base) == 0);
        assert(0 * base == 0) by (nonlinear_arith);
    } else {
        let m = n / base;
        let d = n % base;
        vstd::arithmetic::div_mod::lemma_div_decreases(n as int, base as int);
        vstd::arithmetic::div_mod::lemma_fundamental_div_mod(n as int, base as int);
        vstd::arithmetic::div_mod::lemma_mod_bound(n as int, base as int);
        numerals_read_back(m, base);
        digits_have_their_signs(d as int);
        assert(s.drop_last() =~= numeral(m, base));
        assert(s.last() == signs()[d as int]);
        assert(m * base == base * m) by (nonlinear_arith);
    }
}

/// A plus sign in front says nothing; anything else that is no digit makes a
/// text no number, and so does having none.
pub proof fn only_digits_are_numbers(n: nat, s: Seq<char>, i: int)
    ensures
        parsed(seq!['+'] + decimal(n)) == Some(n),
        0 < i < s.len() && !('0' <= s[i] <= '9') ==> parsed(s) is None,
        s.len() > 0 && s[0] != '+' && !('0' <= s[0] <= '9') ==> parsed(s) is None,
        parsed(seq![]) is None,
        parsed(seq!['+']) is None,
{
    decimals_read_back(n);
    let p = seq!['+'] + decimal(n);
    assert(p.skip(1) =~= decimal(n));
    assert(p[0] == '+');
    if 0 < i < s.len() && s[0] == '+' {
        assert(s.skip(1)[i - 1] == s[i]);
    }
    assert(seq!['+'].skip(1) =~= Seq::<char>::empty());
}

/// Texts are ordered by their first difference, and a text stands before those
/// that it begins.
pub proof fn texts_are_ordered_by_their_first_difference(
    a: Seq<char>,
    x: char,
    y: char,
    b: Seq<char>,
    c: Seq<char>,
)
    ensures
        x < y ==> crate::order::text_less(a + seq![x] + b, a + seq![y] + c),
        crate::order::text_less(a, a + seq![x] + b),
        !crate::order::text_less(a + seq![x] + b, a),
    decreases a.len(),
{
    let p = a + seq![x] + b;
    let q = a + seq![y] + c;
    if a.len() > 0 {
        texts_are_ordered_by_their_first_difference(a.skip(1), x, y, b, c);
        assert(p.skip(1) =~= a.skip(1) + seq![x] + b);
        assert(q.skip(1) =~= a.skip(1) + seq![y] + c);
        assert(p[0] == a[0] && q[0] == a[0]);
    } else {
        assert(p[0] == x && q[0] == y);
    }
}

} // verus!
