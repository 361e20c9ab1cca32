//! What a change touches, and which tests that calls for.

use vstd::prelude::*;

use crate::evidence::answers_to;
use crate::evidence::meant;
use crate::impact::defs_at;
use crate::impact::key_at;
use crate::impact::must_run;
use crate::impact::test_functions;
use crate::impact::test_function;
use crate::impact::tests_of;
use crate::impact::tests_reaching;
use crate::impact::TestFunctionView;
use crate::ir::views;
use crate::ir::DefinitionView;
use crate::names::NameSet;
use crate::number::parse_usize;
use crate::number::parsed_usize;
use crate::order::sort_texts;
use crate::order::sorted_set;
use crate::scan::Scan;
use crate::scan::ScanView;
use crate::text::before;
use crate::text::begins;
use crate::text::cat2;
use crate::text::chars_of;
use crate::text::head_before;
use crate::text::lines;
use crate::text::lines_of;
use crate::text::pieces;
use crate::text::same;
use crate::text::split;
use crate::text::split_all;
use crate::text::starts_with;
use crate::text::string_of;
use crate::text::tail;
use crate::text::tell;
use crate::text::texts;
use crate::text::trim;
use crate::text::trimmed;
use crate::text::width;
use crate::text::without_prefix;

verus! {

// ---------------------------------------------------------------------------
// Reading a diff
// ---------------------------------------------------------------------------

/// The lines of a file that a change touches.
pub type Touched = (Seq<char>, Seq<usize>);

/// Where the reading of a diff stands.
pub enum Place {
    /// No file was named yet.
    Start,
    /// In a file that was deleted, or whose name could not be read.
    Lost,
    /// In this file.
    In(Seq<char>),
}

/// What was read of a diff so far.
#[verifier::ext_equal]
pub struct Reading {
    pub files: Seq<Touched>,
    pub skipped: Seq<Seq<char>>,
    pub place: Place,
    /// The old name, right behind the line that gives it.
    pub old: Option<Seq<char>>,
}

/// Nothing read yet.
pub open spec fn unread() -> Reading {
    Reading { files: seq![], skipped: seq![], place: Place::Start, old: None }
}

/// The files with more lines of one of them.
pub open spec fn touching(files: Seq<Touched>, file: Seq<char>, more: Seq<usize>) -> Seq<Touched>
    decreases files.len(),
{
    if files.len() == 0 {
        seq![(file, more)]
    } else if files[0].0 == file {
        seq![(file, files[0].1 + more)] + files.skip(1)
    } else {
        seq![files[0]] + touching(files.skip(1), file, more)
    }
}

/// The lines that a hunk gives to the new file, from what follows `@@ `. One
/// that only deletes touches the line in front of it.
pub open spec fn hunk_lines(rest: Seq<char>) -> Option<Seq<usize>> {
    let sides = split(rest, "+"@);
    if sides.len() < 2 {
        None
    } else {
        let range = split(before(sides[1], " "@), ","@);
        let count = if range.len() > 1 {
            parsed_usize(range[1])
        } else {
            Some(1nat)
        };
        match (parsed_usize(range[0]), count) {
            (Some(start), Some(count)) => {
                let n = if count == 0 {
                    1
                } else {
                    count
                };
                if start + n - 1 <= usize::MAX {
                    Some(Seq::new(n, |i: int| (start + i) as usize))
                } else {
                    None
                }
            },
            _ => None,
        }
    }
}

/// The name that a file had, as the line in front of its new name gives it.
pub open spec fn old_name(old: Seq<char>) -> Seq<char> {
    match without_prefix(old, "a/"@) {
        Some(name) => trimmed(name),
        None => trimmed(old),
    }
}

/// What was read of a diff once `line` is read too. What cannot be read is
/// listed, so that it widens the answer.
pub open spec fn read_line(r: Reading, line: Seq<char>) -> Reading {
    let at = Reading { old: without_prefix(line, "--- "@), ..r };
    if begins(line, "+++ b/"@) {
        Reading { place: Place::In(trimmed(line.skip("+++ b/"@.len() as int))), ..at }
    } else if begins(line, "+++ "@) && r.old is Some {
        Reading {
            place: Place::Lost,
            skipped: r.skipped.push(
                if begins(line, "+++ /dev/null"@) {
                    old_name(r.old->Some_0) + " (deleted)"@
                } else {
                    trimmed(line.skip("+++ "@.len() as int))
                },
            ),
            ..at
        }
    } else if begins(line, "Binary files "@) {
        Reading { skipped: r.skipped.push(line), ..at }
    } else if begins(line, "@@ "@) {
        match r.place {
            Place::Lost => at,
            Place::Start => Reading { skipped: r.skipped.push(line), ..at },
            Place::In(file) => match hunk_lines(line.skip("@@ "@.len() as int)) {
                Some(more) => Reading { files: touching(r.files, file, more), ..at },
                None => Reading { skipped: r.skipped.push(line), ..at },
            },
        }
    } else {
        at
    }
}

/// What is read of the lines of a diff.
pub open spec fn read_diff(lines: Seq<Seq<char>>) -> Reading
    decreases lines.len(),
{
    if lines.len() == 0 {
        unread()
    } else {
        read_line(read_diff(lines.drop_last()), lines.last())
    }
}

/// The lines of one file that a change touches.
#[derive(Debug)]
pub struct TouchedFile {
    /// From the top of the repository.
    pub file: String,
    pub lines: Vec<usize>,
}

impl View for TouchedFile {
    type V = Touched;

    open spec fn view(&self) -> Touched {
        (self.file@, self.lines@)
    }
}

/// What a diff tells of a change.
#[derive(Debug)]
pub struct Changes {
    pub files: Vec<TouchedFile>,
    /// What could not be read.
    pub skipped: Vec<String>,
}

proof fn touching_at(files: Seq<Touched>, file: Seq<char>, more: Seq<usize>, at: int)
    requires
        0 <= at <= files.len(),
        forall|i: int| 0 <= i < at ==> (#[trigger] files[i]).0 != file,
        at < files.len() ==> files[at].0 == file,
    ensures
        touching(files, file, more) == (if at < files.len() {
            files.update(at, (file, files[at].1 + more))
        } else {
            files.push((file, more))
        }),
    decreases at,
{
    if at > 0 {
        let rest = files.skip(1);
        assert forall|i: int| 0 <= i < at - 1 implies (#[trigger] rest[i]).0 != file by {
            assert(rest[i] == files[i + 1]);
        }
        touching_at(rest, file, more, at - 1);
        assert(files[0].0 != file);
    }
    assert(touching(files, file, more) =~= if at < files.len() {
        files.update(at, (file, files[at].1 + more))
    } else {
        files.push((file, more))
    });
}

fn touch(files: &mut Vec<TouchedFile>, file: &str, more: Vec<usize>)
    ensures
        views(final(files)@) == touching(views(old(files)@), file@, more@),
{
    let ghost all = views(files@);
    let ghost extra = more@;
    let len: usize = files.len();
    let mut at: usize = 0;
    while at < len && !same(files[at].file.as_str(), file)
        invariant
            0 <= at <= len,
            len == files@.len(),
            all == views(files@),
            forall|i: int| 0 <= i < at ==> (#[trigger] all[i]).0 != file@,
        decreases len - at,
    {
        assert(all[at as int] == files@[at as int]@);
        at += 1;
    }
    proof {
        if at < len {
            assert(all[at as int] == files@[at as int]@);
        }
        touching_at(all, file@, extra, at as int);
    }
    if at == len {
        files.push(TouchedFile { file: file.to_owned(), lines: more });
        assert(views(files@) =~= all.push((file@, extra)));
        return;
    }
    let mut more = more;
    let mut t = TouchedFile { file: file.to_owned(), lines: Vec::new() };
    std::mem::swap(&mut files[at], &mut t);
    let mut lines = t.lines;
    lines.append(&mut more);
    let mut u = TouchedFile { file: file.to_owned(), lines };
    std::mem::swap(&mut files[at], &mut u);
    assert(views(files@) =~= all.update(at as int, (file@, all[at as int].1 + extra)));
}

fn parse_hunk(rest: &[char]) -> (r: Option<Vec<usize>>)
    ensures
        match r {
            Some(v) => hunk_lines(rest@) == Some(v@),
            None => hunk_lines(rest@) is None,
        },
{
    proof {
        reveal_strlit("+");
        reveal_strlit(" ");
        reveal_strlit(",");
    }
    let sides = split_all(rest, "+");
    if sides.len() < 2 {
        return None;
    }
    let range = split_all(head_before(sides[1], " "), ",");
    assert(pieces(sides@)[1] == sides@[1]@);
    assert(pieces(range@)[0] == range@[0]@);
    let count: usize = if range.len() > 1 {
        assert(pieces(range@)[1] == range@[1]@);
        match parse_usize(range[1]) {
            Some(c) => c,
            None => {
                return None;
            },
        }
    } else {
        1
    };
    let start: usize = match parse_usize(range[0]) {
        Some(s) => s,
        None => {
            return None;
        },
    };
    let n: usize = if count == 0 {
        1
    } else {
        count
    };
    if n - 1 > usize::MAX - start {
        return None;
    }
    let mut v: Vec<usize> = Vec::new();
    let mut i: usize = 0;
    while i < n
        invariant
            0 <= i <= n,
            start + n - 1 <= usize::MAX,
            v@ == Seq::new(i as nat, |k: int| (start + k) as usize),
        decreases n - i,
    {
        v.push(start + i);
        i += 1;
        assert(v@ =~= Seq::new(i as nat, |k: int| (start + k) as usize));
    }
    assert(v@ =~= Seq::new(n as nat, |k: int| (start as nat + k) as usize));
    Some(v)
}

enum Spot {
    Start,
    Lost,
    In(String),
}

impl Spot {
    spec fn model(&self) -> Place {
        match self {
            Spot::Start => Place::Start,
            Spot::Lost => Place::Lost,
            Spot::In(f) => Place::In(f@),
        }
    }
}

struct Reader {
    files: Vec<TouchedFile>,
    skipped: Vec<String>,
    spot: Spot,
    old: Option<String>,
}

impl Reader {
    spec fn model(&self) -> Reading {
        Reading {
            files: views(self.files@),
            skipped: texts(self.skipped@),
            place: self.spot.model(),
            old: crate::ir::opt(self.old),
        }
    }
}

fn name_before(old: &str) -> (r: String)
    ensures
        r@ == old_name(old@),
{
    let c = chars_of(old);
    match crate::text::strip_prefix(&c, "a/") {
        Some(name) => string_of(trim(name)),
        None => string_of(trim(&c)),
    }
}

fn step(reader: &mut Reader, line: &[char])
    ensures
        final(reader).model() == read_line(old(reader).model(), line@),
{
    let ghost start = reader.model();
    let mut old: Option<String> = match crate::text::strip_prefix(line, "--- ") {
        Some(rest) => Some(string_of(rest)),
        None => None,
    };
    std::mem::swap(&mut reader.old, &mut old);
    if starts_with(line, "+++ b/") {
        reader.spot = Spot::In(string_of(trim(tail(line, width("+++ b/")))));
        return;
    }
    if starts_with(line, "+++ ") {
        if let Some(was) = old {
            let what = if starts_with(line, "+++ /dev/null") {
                cat2(name_before(was.as_str()).as_str(), " (deleted)")
            } else {
                string_of(trim(tail(line, width("+++ "))))
            };
            tell(&mut reader.skipped, what);
            reader.spot = Spot::Lost;
            return;
        }
    }
    if starts_with(line, "Binary files ") {
        tell(&mut reader.skipped, string_of(line));
        return;
    }
    if !starts_with(line, "@@ ") {
        return;
    }
    let mut spot = Spot::Start;
    std::mem::swap(&mut reader.spot, &mut spot);
    match &spot {
        Spot::Lost => {},
        Spot::Start => {
            tell(&mut reader.skipped, string_of(line));
        },
        Spot::In(file) => {
            match parse_hunk(tail(line, width("@@ "))) {
                Some(more) => {
                    touch(&mut reader.files, file.as_str(), more);
                },
                None => {
                    tell(&mut reader.skipped, string_of(line));
                },
            }
        },
    }
    reader.spot = spot;
}

/// The lines per file that the text of a diff without context touches, and
/// what in it could not be read.
pub fn changed_lines(diff: &str) -> (r: Changes)
    ensures
        views(r.files@) == read_diff(lines_of(diff@)).files,
        texts(r.skipped@) == read_diff(lines_of(diff@)).skipped,
{
    let c = chars_of(diff);
    let all = lines(&c);
    let ghost told = pieces(all@);
    let mut reader = Reader {
        files: Vec::new(),
        skipped: Vec::new(),
        spot: Spot::Start,
        old: None,
    };
    assert(reader.model() =~= unread());
    let mut i: usize = 0;
    while i < all.len()
        invariant
            0 <= i <= all@.len(),
            told == pieces(all@),
            reader.model() == read_diff(told.take(i as int)),
        decreases all@.len() - i,
    {
        step(&mut reader, all[i]);
        proof {
            let t = told.take(i + 1);
            assert(t.drop_last() =~= told.take(i as int));
            assert(t.last() == all@[i as int]@);
        }
        i += 1;
    }
    assert(told.take(told.len() as int) =~= told);
    Changes { files: reader.files, skipped: reader.skipped }
}

/// What could not be read stays listed, whatever follows it.
pub proof fn what_is_skipped_stays(lines: Seq<Seq<char>>, n: int)
    requires
        0 <= n <= lines.len(),
    ensures
        read_diff(lines.take(n)).skipped.is_prefix_of(read_diff(lines).skipped),
    decreases lines.len() - n,
{
    if n < lines.len() {
        what_is_skipped_stays(lines, n + 1);
        let t = lines.take(n + 1);
        assert(t.drop_last() =~= lines.take(n));
        assert(read_diff(lines.take(n)).skipped.is_prefix_of(read_diff(t).skipped));
    } else {
        assert(lines.take(n) =~= lines);
    }
}

/// A hunk is never passed over in silence while a file is read: it adds lines
/// or is listed.
pub proof fn every_hunk_counts(r: Reading, file: Seq<char>, line: Seq<char>)
    requires
        r.place == Place::In(file),
        begins(line, "@@ "@),
    ensures
        read_line(r, line).files == touching(
            r.files,
            file,
            hunk_lines(line.skip("@@ "@.len() as int))->Some_0,
        ) && hunk_lines(line.skip("@@ "@.len() as int)) is Some || read_line(r, line).skipped
            == r.skipped.push(line),
{
    reveal_strlit("@@ ");
    reveal_strlit("+++ ");
    reveal_strlit("+++ b/");
    reveal_strlit("Binary files ");
    assert(line.subrange(0, 3)[0] == '@');
    if begins(line, "+++ "@) {
        assert(line.subrange(0, 4)[0] == '+');
    }
    if begins(line, "+++ b/"@) {
        assert(line.subrange(0, 6)[0] == '+');
    }
    if begins(line, "Binary files "@) {
        assert(line.subrange(0, 13)[0] == 'B');
    }
}

// ---------------------------------------------------------------------------
// Which tests to run
// ---------------------------------------------------------------------------

/// What a change comes to.
#[derive(Debug)]
pub struct Impact {
    /// The keys of the functions that it touches, in order.
    pub changed: Vec<String>,
    /// What of it could not be put down to a function.
    pub unmapped: Vec<String>,
    /// The tests that it calls for, in order.
    pub tests: Vec<String>,
    /// How many tests there are.
    pub all_tests: usize,
    /// How many of them always run.
    pub always: usize,
}

/// `key` is that of a function that goes by one of `symbols`.
pub open spec fn named_by(s: ScanView, symbols: Seq<Seq<char>>, key: Seq<char>) -> bool {
    exists|i: int, n: int|
        0 <= i < s.defs.len() && 0 <= n < symbols.len() && answers_to(
            #[trigger] s.defs[i],
            #[trigger] symbols[n],
        ) && s.defs[i].key() == key
}

/// `key` is that of a function that a touched line stands in.
pub open spec fn touched_by(s: ScanView, files: Seq<Touched>, key: Seq<char>) -> bool {
    exists|n: int|
        0 <= n < files.len() && key_at(s.defs, (#[trigger] files[n]).0, files[n].1, key)
}

/// No touched line of the file stands in a function.
pub open spec fn unplaced(s: ScanView, t: Touched) -> bool {
    forall|k: Seq<char>| !key_at(s.defs, t.0, t.1, k)
}

/// The functions that a change touches.
pub open spec fn changed_keys(
    s: ScanView,
    symbols: Seq<Seq<char>>,
    files: Seq<Touched>,
) -> Set<Seq<char>> {
    Set::new(|k: Seq<char>| named_by(s, symbols, k) || touched_by(s, files, k))
}

/// What of a change cannot be put down to a function.
pub open spec fn unmapped_parts(
    s: ScanView,
    symbols: Seq<Seq<char>>,
    files: Seq<Touched>,
    skipped: Seq<Seq<char>>,
) -> Seq<Seq<char>> {
    symbols.filter(|n: Seq<char>| meant(s, n).len() == 0) + files.filter(
        |t: Touched| unplaced(s, t),
    ).map_values(|t: Touched| t.0 + " (no function matched)"@) + skipped
}

impl Impact {
    /// Everything about the change is accounted for.
    pub fn is_sound(&self) -> (r: bool)
        ensures
            r == (self.unmapped@.len() == 0),
    {
        self.unmapped.len() == 0
    }
}

proof fn meant_members(s: ScanView, name: Seq<char>)
    ensures
        (meant(s, name).len() == 0) == forall|i: int|
            0 <= i < s.defs.len() ==> !answers_to(#[trigger] s.defs[i], name),
{
    let asked = |d: DefinitionView| answers_to(d, name);
    if meant(s, name).len() > 0 {
        let d = meant(s, name)[0];
        assert(meant(s, name).contains(d));
        crate::seqs::filter_members(s.defs, asked, d);
        let i = choose|i: int| 0 <= i < s.defs.len() && s.defs[i] == d;
        assert(answers_to(s.defs[i], name));
    }
    if exists|i: int| 0 <= i < s.defs.len() && answers_to(#[trigger] s.defs[i], name) {
        let i = choose|i: int| 0 <= i < s.defs.len() && answers_to(#[trigger] s.defs[i], name);
        assert(s.defs.contains(s.defs[i]));
        crate::seqs::filter_members(s.defs, asked, s.defs[i]);
        assert(meant(s, name).contains(s.defs[i]));
    }
}

/// Adds the keys of the functions that go by `name`; says whether there are
/// any.
fn add_named(scan: &Scan, changed: &mut NameSet, name: &str) -> (r: bool)
    ensures
        r == (meant(scan@, name@).len() > 0),
        forall|k: Seq<char>| #[trigger]
            final(changed)@.contains(k) == (old(changed)@.contains(k) || named_by(
                scan@,
                seq![name@],
                k,
            )),
{
    let ghost s = scan@;
    let ghost start = changed@;
    let mut any: bool = false;
    let mut i: usize = 0;
    while i < scan.defs.len()
        invariant
            0 <= i <= scan.defs@.len(),
            s == scan@,
            any == exists|j: int| 0 <= j < i && answers_to(#[trigger] s.defs[j], name@),
            forall|k: Seq<char>| #[trigger]
                changed@.contains(k) == (start.contains(k) || exists|j: int|
                    0 <= j < i && answers_to(#[trigger] s.defs[j], name@) && s.defs[j].key() == k),
        decreases scan.defs@.len() - i,
    {
        let d = &scan.defs[i];
        let ghost so_far = changed@;
        assert(s.defs[i as int] == d@);
        let key = d.key();
        let hit = same(d.name(), name) || same(key.as_str(), name);
        if hit {
            changed.insert(key.as_str());
            any = true;
        }
        proof {
            assert(hit == answers_to(s.defs[i as int], name@));
            assert forall|k: Seq<char>| #[trigger]
                changed@.contains(k) == (start.contains(k) || exists|j: int|
                    0 <= j < i + 1 && answers_to(#[trigger] s.defs[j], name@) && s.defs[j].key()
                        == k) by {
                if so_far.contains(k) && !start.contains(k) {
                    let j = choose|j: int|
                        0 <= j < i && answers_to(#[trigger] s.defs[j], name@) && s.defs[j].key()
                            == k;
                    assert(answers_to(s.defs[j], name@));
                }
            }
        }
        i += 1;
    }
    proof {
        meant_members(s, name@);
        assert forall|k: Seq<char>| #[trigger]
            changed@.contains(k) == (start.contains(k) || named_by(s, seq![name@], k)) by {
            if named_by(s, seq![name@], k) {
                let (j, n) = choose|j: int, n: int|
                    0 <= j < s.defs.len() && 0 <= n < seq![name@].len() && answers_to(
                        #[trigger] s.defs[j],
                        #[trigger] seq![name@][n],
                    ) && s.defs[j].key() == k;
                assert(answers_to(s.defs[j], name@));
            }
            if changed@.contains(k) && !start.contains(k) {
                let j = choose|j: int|
                    0 <= j < s.defs.len() && answers_to(#[trigger] s.defs[j], name@)
                        && s.defs[j].key() == k;
                assert(seq![name@][0] == name@);
            }
        }
    }
    any
}

fn name_changes(scan: &Scan, symbols: &Vec<String>, changed: &mut NameSet) -> (r: Vec<String>)
    requires
        old(changed)@ == Set::<Seq<char>>::empty(),
    ensures
        forall|k: Seq<char>| #[trigger]
            final(changed)@.contains(k) == named_by(scan@, texts(symbols@), k),
        texts(r@) == texts(symbols@).filter(|n: Seq<char>| meant(scan@, n).len() == 0),
{
    let ghost s = scan@;
    let ghost all = texts(symbols@);
    let ghost unknown = |n: Seq<char>| meant(s, n).len() == 0;
    let mut r: Vec<String> = Vec::new();
    let mut i: usize = 0;
    proof {
        reveal(Seq::filter);
        assert(texts(r@) =~= all.take(0).filter(unknown));
    }
    while i < symbols.len()
        invariant
            0 <= i <= symbols@.len(),
            s == scan@,
            all == texts(symbols@),
            unknown == (|n: Seq<char>| meant(s, n).len() == 0),
            texts(r@) == all.take(i as int).filter(unknown),
            forall|k: Seq<char>| #[trigger]
                changed@.contains(k) == named_by(s, all.take(i as int), k),
        decreases symbols@.len() - i,
    {
        let ghost so_far = changed@;
        let name = symbols[i].as_str();
        proof {
            assert(all[i as int] == name@);
            crate::seqs::filter_step(all, unknown, i as int);
        }
        if !add_named(scan, changed, name) {
            tell(&mut r, symbols[i].clone());
        }
        proof {
            let short = all.take(i as int);
            let long = all.take(i + 1);
            assert forall|k: Seq<char>| #[trigger] changed@.contains(k) == named_by(s, long, k) by {
                named_by_more(s, short, name@, k);
                assert(long =~= short.push(name@));
                assert(so_far.contains(k) == named_by(s, short, k));
            }
        }
        i += 1;
    }
    assert(all.take(all.len() as int) =~= all);
    r
}

proof fn named_by_more(s: ScanView, names: Seq<Seq<char>>, name: Seq<char>, k: Seq<char>)
    ensures
        named_by(s, names.push(name), k) == (named_by(s, names, k) || named_by(s, seq![name], k)),
{
    let long = names.push(name);
    if named_by(s, names, k) {
        let (j, n) = choose|j: int, n: int|
            0 <= j < s.defs.len() && 0 <= n < names.len() && answers_to(
                #[trigger] s.defs[j],
                #[trigger] names[n],
            ) && s.defs[j].key() == k;
        assert(answers_to(s.defs[j], long[n]));
    }
    if named_by(s, seq![name], k) {
        let (j, n) = choose|j: int, n: int|
            0 <= j < s.defs.len() && 0 <= n < seq![name].len() && answers_to(
                #[trigger] s.defs[j],
                #[trigger] seq![name][n],
            ) && s.defs[j].key() == k;
        assert(answers_to(s.defs[j], long[names.len() as int]));
    }
    if named_by(s, long, k) {
        let (j, n) = choose|j: int, n: int|
            0 <= j < s.defs.len() && 0 <= n < long.len() && answers_to(
                #[trigger] s.defs[j],
                #[trigger] long[n],
            ) && s.defs[j].key() == k;
        if n < names.len() {
            assert(answers_to(s.defs[j], names[n]));
        } else {
            assert(answers_to(s.defs[j], seq![name][0]));
        }
    }
}

fn line_changes(scan: &Scan, files: &Vec<TouchedFile>, changed: &mut NameSet) -> (r: Vec<String>)
    ensures
        forall|k: Seq<char>| #[trigger]
            final(changed)@.contains(k) == (old(changed)@.contains(k) || touched_by(
                scan@,
                views(files@),
                k,
            )),
        texts(r@) == views(files@).filter(|t: Touched| unplaced(scan@, t)).map_values(
            |t: Touched| t.0 + " (no function matched)"@,
        ),
{
    let ghost s = scan@;
    let ghost all = views(files@);
    let ghost start = changed@;
    let ghost lost = |t: Touched| unplaced(s, t);
    let ghost told = |t: Touched| t.0 + " (no function matched)"@;
    let mut r: Vec<String> = Vec::new();
    let mut i: usize = 0;
    proof {
        reveal(Seq::filter);
        assert(texts(r@) =~= all.take(0).filter(lost).map_values(told));
    }
    while i < files.len()
        invariant
            0 <= i <= files@.len(),
            s == scan@,
            all == views(files@),
            lost == (|t: Touched| unplaced(s, t)),
            told == (|t: Touched| t.0 + " (no function matched)"@),
            texts(r@) == all.take(i as int).filter(lost).map_values(told),
            forall|k: Seq<char>| #[trigger]
                changed@.contains(k) == (start.contains(k) || touched_by(
                    s,
                    all.take(i as int),
                    k,
                )),
        decreases files@.len() - i,
    {
        let ghost so_far = changed@;
        let t = &files[i];
        let keys = defs_at(scan, t.file.as_str(), &t.lines);
        proof {
            assert(all[i as int] == t@);
            crate::seqs::filter_step(all, lost, i as int);
            crate::seqs::map_push(all.take(i as int).filter(lost), told, t@);
        }
        if keys.len() == 0 {
            proof {
                assert forall|k: Seq<char>| !key_at(s.defs, t.file@, t.lines@, k) by {
                    assert(!keys@.contains(k));
                }
                assert(unplaced(s, t@));
            }
            tell(&mut r, cat2(t.file.as_str(), " (no function matched)"));
        } else {
            proof {
                assert(keys@.contains(keys.list()[0]));
                assert(key_at(s.defs, t.file@, t.lines@, keys.list()[0]));
                assert(!unplaced(s, t@));
            }
        }
        changed.extend(&keys);
        proof {
            let short = all.take(i as int);
            let long = all.take(i + 1);
            assert(long =~= short.push(t@));
            assert forall|k: Seq<char>| #[trigger]
                changed@.contains(k) == (start.contains(k) || touched_by(s, long, k)) by {
                if touched_by(s, short, k) {
                    let n = choose|n: int|
                        0 <= n < short.len() && key_at(
                            s.defs,
                            (#[trigger] short[n]).0,
                            short[n].1,
                            k,
                        );
                    assert(long[n] == short[n]);
                }
                if touched_by(s, long, k) {
                    let n = choose|n: int|
                        0 <= n < long.len() && key_at(s.defs, (#[trigger] long[n]).0, long[n].1, k);
                    if n < i {
                        assert(short[n] == long[n]);
                    } else {
                        assert(keys@.contains(k));
                    }
                }
                if keys@.contains(k) {
                    assert(long[i as int] == t@);
                }
            }
        }
        i += 1;
    }
    assert(all.take(all.len() as int) =~= all);
    r
}

/// How many tests cross a boundary and always run.
pub open spec fn always_run(s: ScanView) -> Seq<TestFunctionView> {
    tests_of(s).map_values(|d: DefinitionView| test_function(s, d)).filter(
        |t: TestFunctionView| t.opaque,
    )
}

/// The answer says what a change of these functions and these lines comes to.
pub open spec fn answers(
    s: ScanView,
    symbols: Seq<Seq<char>>,
    files: Seq<Touched>,
    skipped: Seq<Seq<char>>,
    r: Impact,
) -> bool {
    let changed = changed_keys(s, symbols, files);
    &&& texts(r.changed@) == sorted_set(changed)
    &&& texts(r.unmapped@) == unmapped_parts(s, symbols, files, skipped)
    &&& texts(r.tests@) == sorted_set(Set::new(|k: Seq<char>| must_run(s, changed, k)))
    &&& r.all_tests == tests_of(s).len()
    &&& r.always == always_run(s).len()
}

/// What a change of the functions named `symbols`, of the lines that `changes`
/// touches, and of what it could not read, comes to.
pub fn impact(scan: &Scan, symbols: &Vec<String>, changes: &Changes) -> (r: Impact)
    ensures
        answers(
            scan@,
            texts(symbols@),
            views(changes.files@),
            texts(changes.skipped@),
            r,
        ),
        texts(r.changed@) == sorted_set(
            changed_keys(scan@, texts(symbols@), views(changes.files@)),
        ),
        texts(r.unmapped@) == unmapped_parts(
            scan@,
            texts(symbols@),
            views(changes.files@),
            texts(changes.skipped@),
        ),
        texts(r.tests@) == sorted_set(
            Set::new(
                |k: Seq<char>|
                    must_run(
                        scan@,
                        changed_keys(scan@, texts(symbols@), views(changes.files@)),
                        k,
                    ),
            ),
        ),
        r.all_tests == tests_of(scan@).len(),
        r.always == always_run(scan@).len(),
{
    let tests = test_functions(scan);
    let all_tests: usize = tests.len();
    let ghost told = views(tests@);
    let ghost blind = |t: TestFunctionView| t.opaque;
    let mut always: usize = 0;
    let mut i: usize = 0;
    proof {
        reveal(Seq::filter);
        assert(told.take(0).filter(blind).len() == 0);
    }
    while i < tests.len()
        invariant
            0 <= i <= tests@.len(),
            told == views(tests@),
            blind == (|t: TestFunctionView| t.opaque),
            always == told.take(i as int).filter(blind).len(),
            always <= i,
        decreases tests@.len() - i,
    {
        proof {
            assert(told[i as int] == tests@[i as int]@);
            crate::seqs::filter_step(told, blind, i as int);
        }
        if tests[i].opaque {
            always += 1;
        }
        i += 1;
    }
    assert(told.take(told.len() as int) =~= told);
    let mut changed = NameSet::new();
    let mut unmapped = name_changes(scan, symbols, &mut changed);
    let lost = line_changes(scan, &changes.files, &mut changed);
    crate::text::tell_all(&mut unmapped, lost);
    crate::text::tell_all(&mut unmapped, crate::text::copy_all(&changes.skipped));
    let hits = tests_reaching(scan, &changed);
    proof {
        let keys = changed_keys(scan@, texts(symbols@), views(changes.files@));
        assert(changed@ =~= keys);
    }
    let sorted = sort_texts(crate::text::copy_all(changed.items()));
    Impact { changed: sorted, unmapped, tests: hits, all_tests, always }
}

/// A change is accounted for only where every part of it is put down to a
/// function: one symbol that nothing goes by, one file without a function or
/// one part that could not be read is enough to say that it is not.
pub proof fn unsound_where_anything_is_lost(
    s: ScanView,
    symbols: Seq<Seq<char>>,
    files: Seq<Touched>,
    skipped: Seq<Seq<char>>,
)
    ensures
        (unmapped_parts(s, symbols, files, skipped).len() == 0) == (skipped.len() == 0 && (forall|
            n: int,
        |
            0 <= n < symbols.len() ==> meant(s, #[trigger] symbols[n]).len() > 0) && (forall|n: int|
            0 <= n < files.len() ==> !unplaced(s, #[trigger] files[n]))),
{
    let unknown = |n: Seq<char>| meant(s, n).len() == 0;
    let lost = |t: Touched| unplaced(s, t);
    if symbols.filter(unknown).len() > 0 {
        let x = symbols.filter(unknown)[0];
        assert(symbols.filter(unknown).contains(x));
        crate::seqs::filter_members(symbols, unknown, x);
        let n = choose|n: int| 0 <= n < symbols.len() && symbols[n] == x;
        assert(meant(s, symbols[n]).len() == 0);
    }
    if files.filter(lost).len() > 0 {
        let x = files.filter(lost)[0];
        assert(files.filter(lost).contains(x));
        crate::seqs::filter_members(files, lost, x);
        let n = choose|n: int| 0 <= n < files.len() && files[n] == x;
        assert(unplaced(s, files[n]));
    }
    if exists|n: int| 0 <= n < symbols.len() && meant(s, #[trigger] symbols[n]).len() == 0 {
        let n = choose|n: int| 0 <= n < symbols.len() && meant(s, #[trigger] symbols[n]).len() == 0;
        assert(symbols.contains(symbols[n]));
        crate::seqs::filter_members(symbols, unknown, symbols[n]);
        assert(symbols.filter(unknown).contains(symbols[n]));
    }
    if exists|n: int| 0 <= n < files.len() && unplaced(s, #[trigger] files[n]) {
        let n = choose|n: int| 0 <= n < files.len() && unplaced(s, #[trigger] files[n]);
        assert(files.contains(files[n]));
        crate::seqs::filter_members(files, lost, files[n]);
        assert(files.filter(lost).contains(files[n]));
    }
}

} // verus!
