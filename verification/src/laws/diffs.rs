//! What is read out of a diff.

use vstd::prelude::*;

use crate::changes::hunk_lines;
use crate::changes::read_diff;
use crate::changes::read_line;
use crate::changes::touching;
use crate::changes::Place;
use crate::changes::Reading;
use crate::laws::texts::cut_at_the_first;
use crate::laws::texts::decimals_read_back;
use crate::laws::texts::nothing_to_cut;
use crate::laws::texts::parts_are_found;
use crate::laws::texts::split_takes_the_first_piece;
use crate::laws::texts::trimming_keeps_the_rest;
use crate::number::decimal;
use crate::text::before;
use crate::text::begins;
use crate::text::split;
use crate::text::white;

verus! {

/// The lines that a list of touched files has for a file.
pub open spec fn lines_for(files: Seq<(Seq<char>, Seq<usize>)>, file: Seq<char>) -> Seq<usize>
    decreases files.len(),
{
    if files.len() == 0 {
        seq![]
    } else if files[0].0 == file {
        files[0].1
    } else {
        lines_for(files.skip(1), file)
    }
}

/// Touching a file adds lines to that file, behind those that it has, and
/// leaves every other file as it is.
pub proof fn touching_adds_lines(
    files: Seq<(Seq<char>, Seq<usize>)>,
    file: Seq<char>,
    more: Seq<usize>,
    other: Seq<char>,
)
    ensures
        lines_for(touching(files, file, more), file) == lines_for(files, file) + more,
        other != file ==> lines_for(touching(files, file, more), other) == lines_for(files, other),
    decreases files.len(),
{
    let now = touching(files, file, more);
    if files.len() == 0 {
        assert(now =~= seq![(file, more)]);
        assert(now.skip(1) =~= seq![]);
        assert(lines_for(files, file) + more =~= more);
        assert(lines_for(now.skip(1), other) =~= seq![]);
    } else if files[0].0 == file {
        assert(now.skip(1) =~= files.skip(1));
        assert(now[0] == (file, files[0].1 + more));
    } else {
        touching_adds_lines(files.skip(1), file, more, other);
        assert(now[0] == files[0]);
        assert(now.skip(1) =~= touching(files.skip(1), file, more));
    }
}

proof fn digits_hold_no_mark(n: nat)
    ensures
        !decimal(n).contains('+'),
        !decimal(n).contains(' '),
        !decimal(n).contains(','),
{
    decimals_read_back(n);
    let s = decimal(n);
    assert forall|c: char| s.contains(c) implies '0' <= c <= '9' by {
        let i = choose|i: int| 0 <= i < s.len() && s[i] == c;
        assert('0' <= s[i] <= '9');
    }
}

proof fn first_piece(x: Seq<char>, post: Seq<char>)
    requires
        !x.contains('+'),
        !x.contains(' '),
    ensures
        split(x + seq![' '] + post, "+"@).len() > 0,
        before(split(x + seq![' '] + post, "+"@)[0], " "@) == x,
{
    reveal_strlit("+");
    reveal_strlit(" ");
    assert("+"@ =~= seq!['+']);
    assert(" "@ =~= seq![' ']);
    let rest = x + seq![' '] + post;
    crate::text::first_from_is_first(rest, "+"@, 0);
    match crate::text::first(rest, "+"@) {
        Some(i) => {
            crate::laws::texts::one_character_stands(rest, '+', i);
            if i <= x.len() {
                if i < x.len() {
                    assert(x[i] == '+');
                }
            }
            let k = i - x.len() - 1;
            assert(rest.take(i) =~= x + seq![' '] + post.take(k));
            cut_at_the_first(x, ' ', post.take(k));
        },
        None => {
            cut_at_the_first(x, ' ', post);
        },
    }
}

/// A hunk header `-.. +start,count ..` touches the lines from `start` on, as
/// many as `count` says, and the one at `start` where nothing is left there.
/// Without a count it touches one line.
#[verifier::rlimit(40)]
pub proof fn hunks_touch_their_lines(
    pre: Seq<char>,
    start: nat,
    count: nat,
    post: Seq<char>,
    i: int,
)
    requires
        !pre.contains('+'),
        start + count <= usize::MAX,
    ensures
        hunk_lines(
            pre + seq!['+'] + (decimal(start) + seq![','] + decimal(count) + seq![' '] + post),
        ) matches Some(lines) && lines.len() == (if count == 0 {
            1
        } else {
            count
        }) && (0 <= i < lines.len() ==> lines[i] == start + i),
        hunk_lines(pre + seq!['+'] + (decimal(start) + seq![' '] + post)) matches Some(
            lines,
        ) && lines.len() == 1 && lines[0] == start,
{
    reveal_strlit("+");
    reveal_strlit(" ");
    reveal_strlit(",");
    assert("+"@ =~= seq!['+']);
    assert(" "@ =~= seq![' ']);
    assert(","@ =~= seq![',']);
    let s = decimal(start);
    let c = decimal(count);
    digits_hold_no_mark(start);
    digits_hold_no_mark(count);
    decimals_read_back(start);
    decimals_read_back(count);
    let x = s + seq![','] + c;
    assert forall|d: char| d == '+' || d == ' ' implies !x.contains(d) by {
        if x.contains(d) {
            let k = choose|k: int| 0 <= k < x.len() && x[k] == d;
            if k < s.len() {
                assert(s[k] == d);
            } else if k > s.len() {
                assert(c[k - s.len() - 1] == d);
            }
        }
    }
    let a = x + seq![' '] + post;
    let b = s + seq![' '] + post;
    split_takes_the_first_piece(pre, '+', a);
    split_takes_the_first_piece(pre, '+', b);
    first_piece(x, post);
    first_piece(s, post);
    let whole = pre + seq!['+'] + a;
    assert(split(whole, "+"@)[1] == split(a, "+"@)[0]);
    let short = pre + seq!['+'] + b;
    assert(split(short, "+"@)[1] == split(b, "+"@)[0]);
    split_takes_the_first_piece(s, ',', c);
    nothing_to_cut(c, ',');
    nothing_to_cut(s, ',');
    let range = split(x, ","@);
    assert(range =~= seq![s, c]);
    assert(range[0] == s && range[1] == c);
    let one = split(s, ","@);
    assert(one[0] == s && one.len() == 1);
}

/// The line that names a file in its new state says which file what follows is
/// in.
pub proof fn a_file_line_names_the_file(r: Reading, name: Seq<char>)
    requires
        name.len() > 0,
        !white(name[0]),
        !white(name.last()),
    ensures
        read_line(r, "+++ b/"@ + name).place == Place::In(name),
        read_line(r, "+++ b/"@ + name).files == r.files,
        read_line(r, "+++ b/"@ + name).skipped == r.skipped,
{
    let line = "+++ b/"@ + name;
    parts_are_found("+++ b/"@, name, name);
    assert(line.skip("+++ b/"@.len() as int) =~= name);
    trimming_keeps_the_rest(name);
}

proof fn other_starts(line: Seq<char>, c: char, n: Seq<char>)
    requires
        line.len() > 0,
        line[0] == c,
        n.len() > 0,
        n[0] != c,
    ensures
        !begins(line, n),
{
    if begins(line, n) {
        assert(line.subrange(0, n.len() as int)[0] == line[0]);
    }
}

/// The line that names a file in its old state keeps the name for the next
/// line, and says nothing else.
pub proof fn an_old_name_is_kept(r: Reading, name: Seq<char>)
    ensures
        ({
            let named = read_line(r, "--- "@ + name);
            &&& named.files == r.files
            &&& named.skipped == r.skipped
            &&& named.place == r.place
            &&& named.old == Some(name)
        }),
{
    reveal_strlit("--- ");
    reveal_strlit("+++ b/");
    reveal_strlit("+++ ");
    reveal_strlit("Binary files ");
    reveal_strlit("@@ ");
    let line = "--- "@ + name;
    assert(line[0] == '-');
    other_starts(line, '-', "+++ b/"@);
    other_starts(line, '-', "+++ "@);
    other_starts(line, '-', "Binary files "@);
    other_starts(line, '-', "@@ "@);
    parts_are_found("--- "@, name, name);
}

/// A file that is deleted is told, under its old name, and none of its hunks
/// are put down to any file.
#[verifier::rlimit(40)]
pub proof fn a_deleted_file_is_told(r: Reading, name: Seq<char>)
    requires
        name.len() > 0,
        !white(name[0]),
        !white(name.last()),
        r.old == Some("a/"@ + name),
    ensures
        ({
            let gone = read_line(r, "+++ /dev/null"@);
            &&& gone.place == Place::Lost
            &&& gone.files == r.files
            &&& gone.skipped == r.skipped.push(name + " (deleted)"@)
        }),
{
    let old = "a/"@ + name;
    let second = "+++ /dev/null"@;
    assert(!begins(second, "+++ b/"@)) by {
        reveal_strlit("+++ /dev/null");
        reveal_strlit("+++ b/");
        if begins(second, "+++ b/"@) {
            assert(second.subrange(0, 6)[4] == second[4]);
        }
    }
    assert(begins(second, "+++ "@)) by {
        reveal_strlit("+++ /dev/null");
        reveal_strlit("+++ ");
        assert(second.subrange(0, 4) =~= "+++ "@);
    }
    assert(begins(second, second)) by {
        assert(second.subrange(0, second.len() as int) =~= second);
    }
    assert(crate::changes::old_name(old) == name) by {
        parts_are_found("a/"@, name, name);
        trimming_keeps_the_rest(name);
    }
}

/// A hunk in a file touches its lines there; where it cannot be read, or where
/// no file was named, it is told instead, and nothing is touched.
pub proof fn hunks_touch_the_file_that_is_named(r: Reading, rest: Seq<char>)
    ensures
        ({
            let line = "@@ "@ + rest;
            let after = read_line(r, line);
            &&& after.place == r.place
            &&& (r.place matches Place::In(file) ==> match hunk_lines(rest) {
                Some(more) => after.files == touching(r.files, file, more) && after.skipped
                    == r.skipped,
                None => after.files == r.files && after.skipped == r.skipped.push(line),
            })
            &&& r.place is Start ==> after.files == r.files && after.skipped == r.skipped.push(line)
            &&& r.place is Lost ==> after.files == r.files && after.skipped == r.skipped
        }),
{
    reveal_strlit("+++ b/");
    reveal_strlit("+++ ");
    reveal_strlit("Binary files ");
    reveal_strlit("@@ ");
    let line = "@@ "@ + rest;
    assert(line[0] == '@');
    if begins(line, "+++ b/"@) {
        assert(line.subrange(0, 6)[0] == line[0]);
    }
    if begins(line, "+++ "@) {
        assert(line.subrange(0, 4)[0] == line[0]);
    }
    if begins(line, "Binary files "@) {
        assert(line.subrange(0, 13)[0] == line[0]);
    }
    parts_are_found("@@ "@, rest, rest);
    assert(line.skip("@@ "@.len() as int) =~= rest);
}

/// Every other line says nothing of what is touched; a binary file is told.
pub proof fn other_lines_touch_nothing(r: Reading, line: Seq<char>)
    requires
        !begins(line, "+++ "@),
        !begins(line, "@@ "@),
    ensures
        read_line(r, line).files == r.files,
        read_line(r, line).place == r.place,
        read_line(r, line).skipped == (if begins(line, "Binary files "@) {
            r.skipped.push(line)
        } else {
            r.skipped
        }),
{
    reveal_strlit("+++ b/");
    reveal_strlit("+++ ");
    if begins(line, "+++ b/"@) {
        assert(line.subrange(0, 4) =~= line.subrange(0, 6).subrange(0, 4));
        assert("+++ b/"@.subrange(0, 4) =~= "+++ "@);
    }
}

/// A diff is read line by line, from nothing.
pub proof fn diffs_are_read_line_by_line(lines: Seq<Seq<char>>, line: Seq<char>)
    ensures
        read_diff(lines.push(line)) == read_line(read_diff(lines), line),
        read_diff(seq![]).files == Seq::<(Seq<char>, Seq<usize>)>::empty(),
        read_diff(seq![]).skipped == Seq::<Seq<char>>::empty(),
        read_diff(seq![]).place is Start,
{
    assert(lines.push(line).drop_last() =~= lines);
    assert(lines.push(line).last() == line);
}

/// A file whose new name cannot be read is told by what stands there, and its
/// hunks are put down to no file; without an old name before it the line says
/// nothing.
pub proof fn an_unreadable_name_is_told(r: Reading, name: Seq<char>)
    requires
        name.len() > 0,
        !white(name[0]),
        !white(name.last()),
        !begins("+++ "@ + name, "+++ b/"@),
        !begins("+++ "@ + name, "+++ /dev/null"@),
    ensures
        ({
            let after = read_line(r, "+++ "@ + name);
            &&& after.files == r.files
            &&& r.old is Some ==> after.place == Place::Lost && after.skipped == r.skipped.push(
                name,
            )
            &&& r.old is None ==> after.place == r.place && after.skipped == r.skipped
        }),
{
    let line = "+++ "@ + name;
    assert(begins(line, "+++ "@) && line.skip("+++ "@.len() as int) == name) by {
        parts_are_found("+++ "@, name, name);
        assert(line.skip("+++ "@.len() as int) =~= name);
    }
    assert(!begins(line, "Binary files "@) && !begins(line, "@@ "@)) by {
        reveal_strlit("+++ ");
        reveal_strlit("Binary files ");
        reveal_strlit("@@ ");
        assert(line[0] == '+');
        other_starts(line, '+', "Binary files "@);
        other_starts(line, '+', "@@ "@);
    }
    assert(crate::text::trimmed(name) == name) by {
        trimming_keeps_the_rest(name);
    }
}

/// White space around the name of a file is no part of it.
pub proof fn names_of_files_are_trimmed(
    r: Reading,
    a: Seq<char>,
    name: Seq<char>,
    b: Seq<char>,
)
    requires
        forall|i: int| 0 <= i < a.len() ==> white(#[trigger] a[i]),
        forall|i: int| 0 <= i < b.len() ==> white(#[trigger] b[i]),
        name.len() > 0,
        !white(name[0]),
        !white(name.last()),
    ensures
        read_line(r, "+++ b/"@ + (a + name + b)).place == Place::In(name),
        crate::changes::old_name("a/"@ + (a + name + b)) == name,
{
    let full = a + name + b;
    crate::laws::texts::trimming_takes_the_ends(a, name, b);
    parts_are_found("+++ b/"@, full, full);
    parts_are_found("a/"@, full, full);
    let line = "+++ b/"@ + full;
    assert(line.skip("+++ b/"@.len() as int) =~= full);
}

/// Whether the range that two numbers give can be read: both are there, and it
/// ends within the lines that can be counted.
pub open spec fn countable(start: Option<nat>, count: Option<nat>) -> bool {
    match (start, count) {
        (Some(a), Some(n)) => a <= usize::MAX && n <= usize::MAX && (n > 0 ==> a + n - 1
            <= usize::MAX),
        _ => false,
    }
}

/// A hunk whose numbers cannot be read touches nothing that is known, and so
/// does one that has none, or whose lines cannot be counted.
pub proof fn unreadable_hunks_touch_nothing(
    pre: Seq<char>,
    start: Seq<char>,
    count: Seq<char>,
    post: Seq<char>,
)
    requires
        !pre.contains('+'),
        !start.contains('+') && !start.contains(' ') && !start.contains(','),
        !count.contains('+') && !count.contains(' ') && !count.contains(','),
        !countable(crate::number::parsed(start), crate::number::parsed(count)),
    ensures
        hunk_lines(pre + seq!['+'] + (start + seq![','] + count + seq![' '] + post)) is None,
        hunk_lines(pre) is None,
        crate::number::parsed(start) is None ==> hunk_lines(
            pre + seq!['+'] + (start + seq![' '] + post),
        ) is None,
{
    reveal_strlit("+");
    reveal_strlit(" ");
    reveal_strlit(",");
    assert("+"@ =~= seq!['+']);
    assert(" "@ =~= seq![' ']);
    assert(","@ =~= seq![',']);
    let x = start + seq![','] + count;
    assert forall|d: char| d == '+' || d == ' ' implies !x.contains(d) by {
        if x.contains(d) {
            let k = choose|k: int| 0 <= k < x.len() && x[k] == d;
            if k < start.len() {
                assert(start[k] == d);
            } else if k > start.len() {
                assert(count[k - start.len() - 1] == d);
            }
        }
    }
    let a = x + seq![' '] + post;
    let b = start + seq![' '] + post;
    split_takes_the_first_piece(pre, '+', a);
    split_takes_the_first_piece(pre, '+', b);
    nothing_to_cut(pre, '+');
    first_piece(x, post);
    first_piece(start, post);
    assert(split(pre + seq!['+'] + a, "+"@)[1] == split(a, "+"@)[0]);
    assert(split(pre + seq!['+'] + b, "+"@)[1] == split(b, "+"@)[0]);
    split_takes_the_first_piece(start, ',', count);
    nothing_to_cut(count, ',');
    nothing_to_cut(start, ',');
    let range = split(x, ","@);
    assert(range =~= seq![start, count]);
    assert(range[0] == start && range[1] == count);
    let one = split(start, ","@);
    assert(one[0] == start && one.len() == 1);
}

} // verus!
