//! What a page tells, and that it leaves nothing out in silence.

use vstd::prelude::*;

use crate::baseline::AcceptedView;
use crate::evidence::Caller;
use crate::findings::Confidence;
use crate::findings::FindingView;
use crate::laws::reporting::files_are_told_from_the_root;
use crate::number::decimal;
use crate::regions::total_size;
use crate::regions::RegionView;
use crate::render::added_lines;
use crate::render::affected_lines;
use crate::render::and_more;
use crate::render::caller_line;
use crate::render::callers_lines;
use crate::render::caveat_lines;
use crate::render::cleared_lines;
use crate::render::conclusion_lines;
use crate::render::defined_lines;
use crate::render::downstream_lines;
use crate::render::entered_lines;
use crate::render::example_lines;
use crate::render::finding_lines;
use crate::render::findings_lines;
use crate::render::first_of;
use crate::render::format_named;
use crate::render::header_lines;
use crate::render::indented;
use crate::render::live_callers;
use crate::render::lone_lines;
use crate::render::loners;
use crate::render::nothing_lines;
use crate::render::plural;
use crate::render::region_lines;
use crate::render::regions_lines;
use crate::render::regions_page;
use crate::render::report_lines;
use crate::render::span_lines;
use crate::render::spared;
use crate::render::stale_lines;
use crate::render::status_of;
use crate::render::subsystems;
use crate::render::suppressed_lines;
use crate::render::sure_regions;
use crate::render::tests_lines;
use crate::render::totals_lines;
use crate::render::unsound_lines;
use crate::render::written_lines;
use crate::render::Format;
use crate::report::trusted;
use crate::report::trusted_regions;
use crate::scan::ScanView;

verus! {

// ---------------------------------------------------------------------------
// Lists
// ---------------------------------------------------------------------------

/// A list that is cut short keeps its first entries as they are; a shorter one
/// stays whole.
pub proof fn lists_are_cut_short<T>(s: Seq<T>, n: int)
    requires
        n >= 0,
    ensures
        first_of(s, n).len() == (if s.len() < n {
            s.len() as int
        } else {
            n
        }),
        forall|i: int| 0 <= i < first_of(s, n).len() ==> #[trigger] first_of(s, n)[i] == s[i],
{
}

/// What is left out of a list is counted: what is shown and what is left out
/// are together all there is, and nothing is said where nothing is left out.
pub proof fn what_is_left_out_is_counted(lead: Seq<char>, n: nat, shown: nat, tail: Seq<char>)
    ensures
        n <= shown ==> and_more(lead, n, shown, tail).len() == 0,
        n > shown ==> and_more(lead, n, shown, tail).len() == 1 && exists|rest: nat|
            rest + shown == n && and_more(lead, n, shown, tail)[0] == lead + #[trigger] decimal(
                rest,
            ) + tail,
{
    if n > shown {
        let rest = (n - shown) as nat;
        assert(and_more(lead, n, shown, tail)[0] == lead + decimal(rest) + tail);
    }
}

/// One thing is told without an `s`, and any other number with one.
pub proof fn numbers_have_their_plural(n: nat)
    ensures
        n == 1 ==> plural(n) == ""@,
        n != 1 ==> plural(n) == "s"@,
{
}

/// Indenting puts the indent before every line and changes nothing else.
pub proof fn every_line_is_indented(indent: Seq<char>, lines: Seq<Seq<char>>)
    ensures
        indented(indent, lines).len() == lines.len(),
        forall|i: int| 0 <= i < lines.len() ==> #[trigger] indented(indent, lines)[i] == indent
            + lines[i],
{
}

// ---------------------------------------------------------------------------
// Findings
// ---------------------------------------------------------------------------

/// A finding is told by its name, by the place where it is defined, and by its
/// callers; of the places where tests call it the first two are shown.
pub proof fn a_finding_is_told(f: FindingView, root: Seq<char>, rel: Seq<char>)
    requires
        rel.len() > 0,
        rel[0] != '/',
        f.file == root + "/"@ + rel,
    ensures
        ({
            let lines = finding_lines(f, root);
            let examples = if f.examples.len() < 2 {
                f.examples.len()
            } else {
                2
            };
            &&& lines[0] == ""@
            &&& lines[1] == "  "@ + f.name
            &&& lines[2] == "    defined  "@ + rel + ":"@ + decimal(f.line)
            &&& f.prod_calls == 0 ==> lines[3] == "    callers  "@ + decimal(f.test_calls)
                + " test call(s), no production caller"@
            &&& f.prod_calls == 0 ==> lines.len() == 4 + examples
            &&& f.prod_calls > 0 ==> lines[3] == "    callers  "@ + decimal(f.test_calls)
                + " test call(s), "@ + decimal(f.prod_calls) + " production call(s) — but every"@
            &&& f.prod_calls > 0 ==> lines[4]
                == "             caller is itself unreachable, so this is uncertain"@
            &&& f.prod_calls > 0 ==> lines.len() == 5 + examples
        }),
{
    files_are_told_from_the_root(root, rel);
}

/// The place of an example is told from the root.
pub proof fn examples_are_told(examples: Seq<Seq<char>>, root: Seq<char>, rel: Seq<char>, i: int)
    requires
        0 <= i < examples.len(),
        i < 2,
        rel.len() > 0,
        rel[0] != '/',
        examples[i] == root + "/"@ + rel,
    ensures
        i < example_lines(examples, root).len(),
        example_lines(examples, root)[i] == "             "@ + rel,
{
    files_are_told_from_the_root(root, rel);
}

/// Findings are told one after the other, each in full.
pub proof fn findings_are_told_in_order(
    a: Seq<FindingView>,
    f: FindingView,
    b: Seq<FindingView>,
    root: Seq<char>,
)
    ensures
        findings_lines(a + seq![f] + b, root) == findings_lines(a, root) + finding_lines(f, root)
            + findings_lines(b, root),
        findings_lines(seq![], root) == Seq::<Seq<char>>::empty(),
    decreases b.len(),
{
    if b.len() == 0 {
        let all = a + seq![f] + b;
        assert(all.drop_last() =~= a);
        assert(all.last() == f);
        assert(findings_lines(b, root) =~= seq![]);
        assert(findings_lines(all, root) =~= findings_lines(a, root) + finding_lines(f, root)
            + findings_lines(b, root));
    } else {
        findings_are_told_in_order(a, f, b.drop_last(), root);
        let all = a + seq![f] + b;
        assert(all.drop_last() =~= a + seq![f] + b.drop_last());
        assert(all.last() == b.last());
        assert(findings_lines(all, root) =~= findings_lines(a, root) + finding_lines(f, root)
            + findings_lines(b, root));
    }
}

/// A report begins with what was read. Where nothing was read it says so, and
/// is no clean result; where nothing was found it says that; and otherwise it
/// tells every finding, in order, and how many there are.
pub proof fn reports_tell_what_was_found(
    s: ScanView,
    description: Seq<char>,
    nominal: Option<usize>,
    found: Seq<FindingView>,
    root: Seq<char>,
    share: Seq<char>,
)
    ensures
        ({
            let page = report_lines(s, description, nominal, found, root, share);
            let head = header_lines(s, description, share);
            &&& head.is_prefix_of(page)
            &&& s.defs.len() == 0 ==> page == head + nothing_lines(description)
            &&& s.defs.len() > 0 && found.len() == 0 ==> page == head.push(
                "  No never-run functions found."@,
            )
            &&& s.defs.len() > 0 && found.len() > 0 ==> page.last() == "  "@ + decimal(found.len())
                + " function(s) shipped that nothing runs"@
            &&& s.defs.len() > 0 && found.len() > 0 ==> ({
                let from = head.len() + caveat_lines(nominal, found.len()).len() + 2;
                let told = findings_lines(found, root);
                page.subrange(from as int, (from + told.len()) as int) == told
            })
        }),
{
    let page = report_lines(s, description, nominal, found, root, share);
    let head = header_lines(s, description, share);
    if s.defs.len() > 0 && found.len() == 0 {
        assert(page =~= head.push("  No never-run functions found."@));
    }
    if s.defs.len() > 0 && found.len() > 0 {
        let from = head.len() + caveat_lines(nominal, found.len()).len() + 2;
        let told = findings_lines(found, root);
        assert(page.subrange(from as int, (from + told.len()) as int) =~= told);
    }
    assert(head.is_prefix_of(page));
}

/// A page says how many functions were read, how the project was read, and how
/// many of them share a name.
pub proof fn a_header_tells_the_coverage(s: ScanView, description: Seq<char>, share: Seq<char>)
    ensures
        ({
            let lines = header_lines(s, description, share);
            let all = s.defs.filter(|d: crate::ir::DefinitionView| !d.in_test);
            let twice = s.defs.filter(
                |d: crate::ir::DefinitionView|
                    !d.in_test && crate::laws::judging::shared(s.defs, d.id.text()),
            );
            let n: int = if description.len() > 0 {
                3
            } else {
                2
            };
            &&& lines[1] == "  "@ + decimal(all.len()) + " production functions scanned"@
            &&& description.len() > 0 ==> lines[2] == "  read as "@ + description
            &&& twice.len() > 0 ==> lines.len() == n + 2 && lines[n] == "  "@ + decimal(
                twice.len(),
            ) + " ("@ + share + "%) share a name with another function and are not analysed"@
            &&& twice.len() == 0 ==> lines.len() == n + 1
            &&& lines.last() == ""@
        }),
{
    let any = |k: Seq<char>| true;
    let amb = |k: Seq<char>| crate::findings::ambiguous(s, k);
    crate::laws::judging::production_is_counted(s.defs, any);
    crate::laws::judging::production_is_counted(s.defs, amb);
    let p = |d: crate::ir::DefinitionView| !d.in_test && any(d.id.text());
    let q = |d: crate::ir::DefinitionView| !d.in_test;
    same_filter(s.defs, p, q);
    let p2 = |d: crate::ir::DefinitionView| !d.in_test && amb(d.id.text());
    let q2 = |d: crate::ir::DefinitionView|
        !d.in_test && crate::laws::judging::shared(s.defs, d.id.text());
    assert forall|d: crate::ir::DefinitionView| #[trigger] p2(d) == q2(d) by {
        crate::laws::judging::shared_keys_are_ambiguous(s, d.id.text());
    }
    same_filter(s.defs, p2, q2);
}

/// Two tests that agree keep the same.
pub proof fn same_filter<T>(s: Seq<T>, p: spec_fn(T) -> bool, q: spec_fn(T) -> bool)
    requires
        forall|x: T| #[trigger] p(x) == q(x),
    ensures
        s.filter(p) == s.filter(q),
    decreases s.len(),
{
    reveal(Seq::filter);
    if s.len() > 0 {
        same_filter(s.drop_last(), p, q);
        assert(p(s.last()) == q(s.last()));
    }
}

/// A precise run is doubted where it finds more than a fifth more than the
/// default does, and more than two more.
pub proof fn a_sudden_increase_is_doubted(nominal: usize, found: nat)
    ensures
        found * 5 > nominal * 6 && found > nominal + 2 ==> ({
            let lines = caveat_lines(Some(nominal), found);
            lines.len() > 0 && lines[0] == "CAUTION — precise mode reports "@ + decimal(found)
                + " findings; the default reports "@ + decimal(nominal as nat) + "."@
        }),
        found * 5 <= nominal * 6 || found <= nominal + 2 ==> caveat_lines(Some(nominal), found).len()
            == 0,
        caveat_lines(None, found).len() == 0,
{
}

// ---------------------------------------------------------------------------
// Regions
// ---------------------------------------------------------------------------

/// A region is told by its number, its size and how far it is trusted, by its
/// way in and where that stands, and by what is to be done.
pub proof fn a_region_is_told(n: nat, r: RegionView, root: Seq<char>, rel: Seq<char>)
    requires
        rel.len() > 0,
        rel[0] != '/',
        r.entry.file == root + "/"@ + rel,
    ensures
        ({
            let lines = region_lines(n, r, root);
            let trust = match r.confidence {
                Confidence::High => "confident"@,
                Confidence::Medium => "UNCERTAIN — may be an entry point this analyzer cannot see"@,
            };
            &&& lines[2] == "Region "@ + decimal(n) + " — "@ + decimal(r.size) + " function"@
                + plural(r.size) + "  ["@ + trust + "]"@
            &&& lines[4] == "  frontier   "@ + r.entry.name
            &&& lines[5] == "             "@ + rel + ":"@ + decimal(r.entry.line)
            &&& lines.last() == "  fix        make "@ + r.entry.name
                + " reachable, or delete the region"@
            &&& lines.len() == 9 + entered_lines(r.entry, root).len() + span_lines(r).len()
                + downstream_lines(r).len()
        }),
{
    files_are_told_from_the_root(root, rel);
}

/// How the way in is entered is told: by production calls that are themselves
/// out of reach, by tests alone, or by nothing.
pub proof fn ways_in_are_told(e: FindingView, root: Seq<char>)
    ensures
        ({
            let lines = entered_lines(e, root);
            &&& e.prod_calls > 0 ==> lines.len() == 3 && lines[0] == "  entered    "@ + decimal(
                e.prod_calls,
            ) + " production call(s) and "@ + decimal(e.test_calls) + " test call(s) — but every"@
            &&& e.prod_calls == 0 && e.test_calls > 0 ==> lines[0] == "  entered    "@ + decimal(
                e.test_calls,
            ) + " test call(s), 0 from production"@ && lines.len() == 1 + (if e.examples.len() < 2 {
                e.examples.len()
            } else {
                2
            })
            &&& e.prod_calls == 0 && e.test_calls == 0 ==> lines == seq![
                "  entered    nothing calls it, in tests or production"@,
            ]
        }),
{
}

/// What lies behind the way in is counted, and the first six are named.
pub proof fn members_are_told(r: RegionView)
    ensures
        r.members.len() == 0 ==> downstream_lines(r).len() == 0,
        r.members.len() > 0 ==> ({
            let lines = downstream_lines(r);
            let named = crate::render::shown_members(r);
            &&& lines[1] == "  downstream "@ + decimal(r.members.len())
                + " function(s) reachable only through the frontier:"@
            &&& lines[2] == "             "@ + crate::text::join(named, ", "@)
            &&& named.len() == (if r.members.len() < 6 {
                r.members.len()
            } else {
                6
            })
            &&& forall|i: int| 0 <= i < named.len() ==> #[trigger] named[i] == r.members[i].name
            &&& r.members.len() > 6 ==> lines.len() == 4 && lines[3] == "             ... and "@
                + decimal((r.members.len() - 6) as nat) + " more"@
            &&& r.members.len() <= 6 ==> lines.len() == 3
        }),
        r.files.len() > 1 ==> span_lines(r) == seq![
            ""@,
            "  spans      "@ + decimal(r.files.len()) + " files"@,
        ],
        r.files.len() <= 1 ==> span_lines(r).len() == 0,
{
}

/// Regions are told one after the other, numbered from one.
pub proof fn regions_are_numbered(rs: Seq<RegionView>, r: RegionView, root: Seq<char>)
    ensures
        regions_lines(rs.push(r), root) == regions_lines(rs, root) + region_lines(
            rs.len() + 1,
            r,
            root,
        ),
        regions_lines(seq![], root) == Seq::<Seq<char>>::empty(),
{
    assert(rs.push(r).drop_last() =~= rs);
    assert(rs.push(r).last() == r);
}

/// Regions of several functions are told apart from those of one: every region
/// is in one of the two lists, and in their order.
pub proof fn subsystems_and_loners(rs: Seq<RegionView>, r: RegionView)
    ensures
        subsystems(rs).len() + loners(rs).len() == rs.len(),
        subsystems(rs).contains(r) <==> rs.contains(r) && r.size > 1,
        loners(rs).contains(r) <==> rs.contains(r) && r.size <= 1,
        sure_regions(rs).contains(r) <==> rs.contains(r) && r.confidence == Confidence::High,
    decreases rs.len(),
{
    let many = |x: RegionView| x.size > 1;
    let one = |x: RegionView| x.size <= 1;
    let sure = |x: RegionView| x.confidence == Confidence::High;
    crate::seqs::filter_members(rs, many, r);
    crate::seqs::filter_members(rs, one, r);
    crate::seqs::filter_members(rs, sure, r);
    split_in_two(rs, many, one);
}

proof fn split_in_two<T>(s: Seq<T>, p: spec_fn(T) -> bool, q: spec_fn(T) -> bool)
    requires
        forall|x: T| #[trigger] p(x) == !q(x),
    ensures
        s.filter(p).len() + s.filter(q).len() == s.len(),
    decreases s.len(),
{
    reveal(Seq::filter);
    if s.len() > 0 {
        split_in_two(s.drop_last(), p, q);
        assert(p(s.last()) == !q(s.last()));
    }
}

/// The totals count functions and regions, and split the regions by trust.
pub proof fn totals_are_told(rs: Seq<RegionView>)
    ensures
        ({
            let lines = totals_lines(rs);
            let sure = rs.filter(|r: RegionView| r.confidence == Confidence::High).len();
            let unsure = rs.filter(|r: RegionView| r.confidence == Confidence::Medium).len();
            &&& lines[0] == decimal(total_size(rs)) + " unreachable function"@ + plural(
                total_size(rs),
            ) + " in "@ + decimal(rs.len()) + " region"@ + plural(rs.len())
            &&& lines[1] == "  "@ + decimal(sure) + " confident, "@ + decimal(unsure)
                + " uncertain (production callers exist but look unreachable)"@
            &&& loners(rs).len() > 0 ==> lines.len() == 3 && lines[2] == "  "@ + decimal(
                subsystems(rs).len(),
            ) + " subsystem"@ + plural(subsystems(rs).len()) + " of 2+ functions, and "@ + decimal(
                loners(rs).len(),
            ) + " lone function"@ + plural(loners(rs).len())
            &&& loners(rs).len() == 0 ==> lines.len() == 2
        }),
{
    let sure = |r: RegionView| r.confidence == Confidence::High;
    let unsure = |r: RegionView| r.confidence == Confidence::Medium;
    split_in_two(rs, sure, unsure);
}

/// The size of several regions together is the sum of their sizes.
pub proof fn sizes_are_summed(a: Seq<RegionView>, b: Seq<RegionView>, r: RegionView)
    ensures
        total_size(a + b) == total_size(a) + total_size(b),
        total_size(seq![r]) == r.size,
        total_size(seq![]) == 0,
    decreases a.len(),
{
    assert(seq![r].skip(1) =~= seq![]);
    assert(total_size(seq![]) == 0);
    if a.len() == 0 {
        assert(a + b =~= b);
    } else {
        sizes_are_summed(a.skip(1), b, r);
        assert((a + b).skip(1) =~= a.skip(1) + b);
        assert((a + b)[0] == a[0]);
    }
}

/// Of the lone functions the first twenty are told, each with its place, and
/// the others are counted.
pub proof fn lone_functions_are_told(rs: Seq<RegionView>, root: Seq<char>, rel: Seq<char>, i: int)
    requires
        0 <= i < rs.len(),
        i < 20,
        rel.len() > 0,
        rel[0] != '/',
        rs[i].entry.file == root + "/"@ + rel,
    ensures
        ({
            let lines = lone_lines(rs, root);
            &&& lines[2] == "Lone functions — "@ + decimal(rs.len())
                + " with no unreachable callees"@
            &&& lines[4 + i] == "  "@ + crate::text::left(rs[i].entry.name, 32) + " "@ + rel + ":"@
                + decimal(rs[i].entry.line)
            &&& rs.len() <= 20 ==> lines.len() == 4 + rs.len()
            &&& rs.len() > 20 ==> lines.len() == 25 && lines[24] == "  ... and "@ + decimal(
                (rs.len() - 20) as nat,
            ) + " more (--json for the full list)"@
        }),
{
    files_are_told_from_the_root(root, rel);
}

/// A page of regions tells every region: those of several functions in full,
/// the others in a list. Where nothing was read it says so.
pub proof fn pages_of_regions_tell_all(
    s: ScanView,
    description: Seq<char>,
    nominal: Option<usize>,
    rs: Seq<RegionView>,
    root: Seq<char>,
    share: Seq<char>,
)
    ensures
        ({
            let page = regions_page(s, description, nominal, rs, root, share);
            let head = header_lines(s, description, share) + caveat_lines(nominal, total_size(rs));
            &&& head.is_prefix_of(page)
            &&& s.defs.len() == 0 ==> page == head + nothing_lines(description)
            &&& s.defs.len() > 0 && rs.len() == 0 ==> page == head.push(
                "  Everything is reachable from production entry points."@,
            )
            &&& s.defs.len() > 0 && rs.len() > 0 ==> ({
                let from = head.len() + totals_lines(rs).len();
                let full = regions_lines(subsystems(rs), root);
                let list = lone_lines(loners(rs), root);
                page.subrange(from as int, (from + full.len() + list.len()) as int) == full + list
            })
        }),
{
    let page = regions_page(s, description, nominal, rs, root, share);
    let head = header_lines(s, description, share) + caveat_lines(nominal, total_size(rs));
    if s.defs.len() > 0 && rs.len() == 0 {
        assert(page =~= head.push("  Everything is reachable from production entry points."@));
    }
    if s.defs.len() > 0 && rs.len() > 0 {
        let from = head.len() + totals_lines(rs).len();
        let full = regions_lines(subsystems(rs), root);
        let list = lone_lines(loners(rs), root);
        assert(page.subrange(from as int, (from + full.len() + list.len()) as int) =~= full + list);
    }
    assert(head.is_prefix_of(page));
}

/// A report counts each tier of confidence: together they are all findings, and
/// each counts just its own.
pub proof fn tiers_are_counted(
    found: Seq<FindingView>,
    f: FindingView,
    rs: Seq<RegionView>,
    r: RegionView,
    c: Confidence,
)
    ensures
        trusted(found, Confidence::High).len() + trusted(found, Confidence::Medium).len()
            == found.len(),
        trusted(found, c).contains(f) <==> found.contains(f) && f.confidence == c,
        trusted_regions(rs, Confidence::High).len() + trusted_regions(
            rs,
            Confidence::Medium,
        ).len() == rs.len(),
        trusted_regions(rs, c).contains(r) <==> rs.contains(r) && r.confidence == c,
{
    let high = |x: FindingView| x.confidence == Confidence::High;
    let medium = |x: FindingView| x.confidence == Confidence::Medium;
    split_in_two(found, high, medium);
    crate::seqs::filter_members(found, |x: FindingView| x.confidence == c, f);
    let sure = |x: RegionView| x.confidence == Confidence::High;
    let unsure = |x: RegionView| x.confidence == Confidence::Medium;
    split_in_two(rs, sure, unsure);
    crate::seqs::filter_members(rs, |x: RegionView| x.confidence == c, r);
}

// ---------------------------------------------------------------------------
// One function
// ---------------------------------------------------------------------------

/// What is said of a function depends on what reaches it: suppressed, it is
/// not analysed; else production decides, then tests.
pub proof fn a_status_is_told(suppressed: bool, alive: bool, tested: bool)
    ensures
        suppressed ==> status_of(suppressed, alive, tested) == "NOT ANALYSED"@,
        !suppressed && alive ==> status_of(suppressed, alive, tested)
            == "reachable from production"@,
        !suppressed && !alive && tested ==> status_of(suppressed, alive, tested)
            == "UNREACHABLE — tests reach it, production cannot"@,
        !suppressed && !alive && !tested ==> status_of(suppressed, alive, tested)
            == "UNREACHABLE — nothing reaches it at all"@,
{
}

/// Every place where a function is defined is told.
pub proof fn places_are_told(
    places: Seq<(Seq<char>, nat)>,
    root: Seq<char>,
    rel: Seq<char>,
    i: int,
)
    requires
        rel.len() > 0,
        rel[0] != '/',
    ensures
        places.len() == 0 ==> defined_lines(places, root) == seq![
            "  not defined in the scanned crates"@,
        ],
        places.len() > 0 ==> defined_lines(places, root).len() == places.len(),
        0 <= i < places.len() && places[i].0 == root + "/"@ + rel ==> defined_lines(places, root)[i]
            == "  defined      "@ + rel + ":"@ + decimal(places[i].1),
{
    files_are_told_from_the_root(root, rel);
}

/// Callers are counted, the first twelve are told as live or dead, and what
/// follows from them is said.
pub proof fn callers_are_told(callers: Seq<Caller>, alive: bool, i: int)
    ensures
        callers.len() == 0 ==> callers_lines(callers, alive) == seq![
            "  callers      none recorded"@,
        ],
        callers.len() > 0 ==> callers_lines(callers, alive)[0] == "  callers      ("@ + decimal(
            callers.len(),
        ) + " recorded — 'live' means the caller is itself"@,
        0 <= i < callers.len() && i < 12 ==> callers_lines(callers, alive)[2 + i]
            == "                 "@ + crate::text::left(callers[i].name@, 34) + " "@ + (
        if callers[i].live {
            "live"@
        } else {
            "dead"@
        }),
        callers.len() > 12 ==> callers_lines(callers, alive)[14] == "                 ... and "@
            + decimal((callers.len() - 12) as nat) + " more"@,
        callers.len() > 0 && (forall|k: int| 0 <= k < callers.len() ==> !(#[trigger]
        callers[k]).live) ==> callers_lines(callers, alive).last()
            == "               downstream of a dead region rather than its cause"@,
        callers.len() > 0 && (exists|k: int| 0 <= k < callers.len() && (#[trigger]
        callers[k]).live) && !alive ==> callers_lines(callers, alive).last()
            == "               was resolved — likely a limit of name-based matching"@,
        callers.len() > 0 && (exists|k: int| 0 <= k < callers.len() && (#[trigger]
        callers[k]).live) && alive ==> callers_lines(callers, alive).last() == ""@,
{
    let lines = callers_lines(callers, alive);
    let live = |c: Caller| c.live;
    if callers.len() > 0 {
        let shown = first_of(callers, 12).map_values(|c: Caller| caller_line(c));
        let more = and_more("                 ... and "@, callers.len(), 12, " more"@);
        let last = conclusion_lines(live_callers(callers).len(), alive);
        let kept = live_callers(callers);
        if exists|k: int| 0 <= k < callers.len() && (#[trigger] callers[k]).live {
            let k = choose|k: int| 0 <= k < callers.len() && (#[trigger] callers[k]).live;
            assert(callers.contains(callers[k]));
            crate::seqs::filter_members(callers, live, callers[k]);
            assert(kept.contains(callers[k]));
            assert(kept.len() > 0);
        }
        if kept.len() > 0 {
            assert(kept.contains(kept[0]));
            crate::seqs::filter_members(callers, live, kept[0]);
            let k = choose|k: int| 0 <= k < callers.len() && callers[k] == kept[0];
            assert(callers[k].live);
        }
        if 0 <= i < callers.len() && i < 12 {
            assert(lines[2 + i] == shown[i]);
        }
        if callers.len() > 12 {
            assert(lines[14] == more[0]);
        }
    }
}

/// The reason why a function is not judged is told, where there is one.
pub proof fn reasons_are_told(why: Seq<char>)
    ensures
        suppressed_lines(Some(why)) == seq!["  suppressed   "@ + why],
        suppressed_lines(None) == Seq::<Seq<char>>::empty(),
{
}

// ---------------------------------------------------------------------------
// Changes and baselines
// ---------------------------------------------------------------------------

/// What a change calls for is told: what changed, which tests it affects out of
/// how many, and how many need not run.
pub proof fn affected_tests_are_told(
    changed: Seq<Seq<char>>,
    tests: Seq<Seq<char>>,
    all: nat,
    share: Seq<char>,
)
    requires
        changed.len() <= 12,
        tests.len() <= 20,
        tests.len() <= all,
    ensures
        changed.len() == 0 ==> affected_lines(changed, tests, all, share) == seq![
            "  No changed function was identified."@,
        ],
        changed.len() > 0 ==> ({
            let lines = affected_lines(changed, tests, all, share);
            let n = changed.len() as int;
            let m = tests.len() as int;
            &&& lines[0] == "changed"@
            &&& forall|i: int| 0 <= i < n ==> #[trigger] lines[1 + i] == "  "@ + changed[i]
            &&& lines[n + 2] == "affected   "@ + decimal(tests.len()) + " of "@ + decimal(all)
                + " test(s)"@
            &&& forall|i: int| 0 <= i < m ==> #[trigger] lines[n + 3 + i] == "  "@ + tests[i]
            &&& all > 0 ==> lines.last() == "reduction  "@ + share + "%  ("@ + decimal(
                (all - tests.len()) as nat,
            ) + " test(s) need not run)"@
        }),
{
    if changed.len() > 0 {
        let lines = affected_lines(changed, tests, all, share);
        let n = changed.len() as int;
        let a = indented("  "@, first_of(changed, 12));
        let b = indented("  "@, first_of(tests, 20));
        assert(and_more("  … and "@, changed.len(), 12, " more"@) =~= seq![]);
        assert(and_more("  … and "@, tests.len(), 20, " more"@) =~= seq![]);
        let total = if all > tests.len() {
            all
        } else {
            tests.len()
        };
        let mid = seq![
            ""@,
            "affected   "@ + decimal(tests.len()) + " of "@ + decimal(total) + " test(s)"@,
        ];
        let end = if all > 0 {
            seq![
                "reduction  "@ + share + "%  ("@ + decimal(spared(all, tests.len()))
                    + " test(s) need not run)"@,
            ]
        } else {
            seq![]
        };
        assert(lines =~= seq!["changed"@] + a + mid + b + seq![""@] + end);
    }
}

/// How many tests there are is told, and how many of them always run.
pub proof fn tests_are_counted(all: nat, always: nat)
    ensures
        tests_lines(all, always)[1] == "  "@ + decimal(all) + " test(s) found in this project"@,
        always > 0 ==> tests_lines(all, always).len() == 4 && tests_lines(all, always)[2] == "  "@
            + decimal(always) + " of them cross a process boundary and always run"@,
        always == 0 ==> tests_lines(all, always).len() == 3,
{
}

/// What could not be put down to a function is told, and the answer with it is
/// called unsound; where there is nothing of the kind nothing is said.
pub proof fn unsound_answers_are_told(unmapped: Seq<Seq<char>>, i: int)
    ensures
        unmapped.len() == 0 <==> unsound_lines(unmapped).len() == 0,
        unmapped.len() > 0 ==> unsound_lines(unmapped)[1] == "NOT SOUND — "@ + decimal(
            unmapped.len(),
        ) + " part(s) of this change could not be"@,
        0 <= i < unmapped.len() && i < 10 ==> unsound_lines(unmapped)[3 + i] == "  "@ + unmapped[i],
{
}

/// What is new since a baseline is told in full, and what is carried is
/// counted; where nothing is new that is said.
pub proof fn what_is_new_is_told(added: Seq<AcceptedView>, carried: nat, i: int)
    ensures
        added.len() == 0 ==> added_lines(added, carried) == seq![
            "No new unreachable code. "@ + decimal(carried)
                + " finding(s) carried from the baseline."@,
        ],
        added.len() > 0 ==> added_lines(added, carried)[0] == "NEW — "@ + decimal(added.len())
            + " finding(s) not in the baseline"@,
        added.len() > 0 ==> added_lines(added, carried).len() == added.len() + 4,
        added.len() > 0 ==> added_lines(added, carried).last() == "  "@ + decimal(carried)
            + " carried from the baseline, not shown"@,
        0 <= i < added.len() ==> added_lines(added, carried)[2 + i] == "  "@ + crate::text::left(
            added[i].name,
            32,
        ) + " "@ + added[i].file,
{
    if 0 <= i < added.len() {
        let told = added.map_values(
            |e: AcceptedView| "  "@ + crate::text::left(e.name, 32) + " "@ + e.file,
        );
        assert(added_lines(added, carried)[2 + i] == told[i]);
    }
}

/// What is gone since a baseline is counted, and the first ten are told.
pub proof fn what_is_gone_is_told(cleared: Seq<AcceptedView>, i: int)
    ensures
        cleared.len() == 0 ==> cleared_lines(cleared).len() == 0,
        cleared.len() > 0 ==> cleared_lines(cleared)[0] == "CLEARED — "@ + decimal(cleared.len())
            + " baseline finding(s) no longer present"@,
        0 <= i < cleared.len() && i < 10 ==> cleared_lines(cleared)[1 + i] == "  "@
            + cleared[i].name + "  "@ + cleared[i].file,
        cleared.len() > 10 ==> cleared_lines(cleared)[11] == "  ... and "@ + decimal(
            (cleared.len() - 10) as nat,
        ) + " more"@,
{
    if cleared.len() > 0 {
        let told = first_of(cleared, 10).map_values(
            |e: AcceptedView| "  "@ + e.name + "  "@ + e.file,
        );
        let more = and_more("  ... and "@, cleared.len(), 10, " more"@);
        if 0 <= i < cleared.len() && i < 10 {
            assert(cleared_lines(cleared)[1 + i] == told[i]);
        }
        if cleared.len() > 10 {
            assert(cleared_lines(cleared)[11] == more[0]);
        }
    }
}

/// A baseline that the analysis has drifted from is called stale, with the
/// reason; another is not.
pub proof fn stale_baselines_are_told(why: Seq<char>)
    ensures
        stale_lines(Some(why)).len() > 0,
        stale_lines(Some(why))[0] == "STALE BASELINE — "@ + why,
        stale_lines(None).len() == 0,
{
}

/// What was written is told.
pub proof fn what_is_written_is_told(file: Seq<char>, accepted: nat)
    ensures
        written_lines(file, accepted)[0] == "wrote "@ + file + " — "@ + decimal(accepted)
            + " finding(s) accepted"@,
{
}

/// The form is the one that is asked for: the switch wins over the word, and
/// a word that means nothing is text.
pub proof fn forms_are_asked_for(json: bool, word: Seq<char>)
    ensures
        format_named(true, word) == Format::Json,
        format_named(json, word) == Format::Json <==> json || word == "json"@,
        !json && word == "github"@ ==> format_named(json, word) == Format::Github,
        !json && word == "sarif"@ ==> format_named(json, word) == Format::Sarif,
        format_named(json, word) == Format::Github ==> word == "github"@,
        format_named(json, word) == Format::Sarif ==> word == "sarif"@,
        !json && word != "json"@ && word != "github"@ && word != "sarif"@ <==> format_named(
            json,
            word,
        ) == Format::Text,
{
    reveal_strlit("json");
    reveal_strlit("github");
    reveal_strlit("sarif");
    assert("json"@.len() == 4 && "github"@.len() == 6 && "sarif"@.len() == 5);
}

/// The page of one function tells its name, where it is defined, what reaches
/// it, what keeps it from being judged, why it is a root, how often it is
/// called and by whom, in this order.
pub proof fn the_page_of_a_function(e: crate::evidence::Evidence, root: Seq<char>)
    ensures
        ({
            let lines = crate::render::evidence_lines(e, root);
            let places = defined_lines(crate::evidence::place_views(e.defined@), root);
            let n = places.len() as int;
            let why = suppressed_lines(crate::evidence::opt_lit(e.suppressed));
            let m = n + 4 + why.len();
            let callers = callers_lines(e.callers@, e.in_production_set);
            &&& lines[0] == e.name@
            &&& lines.subrange(2, 2 + n) == places
            &&& lines[n + 3] == "  status       "@ + status_of(
                e.suppressed is Some,
                e.in_production_set,
                e.in_test_set,
            )
            &&& lines.subrange(n + 4, m) == why
            &&& e.is_root ==> lines[m] == "  entry point  "@ + e.root_reason@
            &&& !e.is_root ==> lines[m] == "  entry point  "@ + "no"@
            &&& lines[m + 1] == "  call sites   "@ + decimal(e.prod_call_sites as nat)
                + " production, "@ + decimal(e.test_call_sites as nat) + " test"@
            &&& lines.subrange(m + 3, lines.len() as int) == callers
        }),
{
    let lines = crate::render::evidence_lines(e, root);
    let places = defined_lines(crate::evidence::place_views(e.defined@), root);
    let n = places.len() as int;
    let why = suppressed_lines(crate::evidence::opt_lit(e.suppressed));
    let m = n + 4 + why.len();
    let callers = callers_lines(e.callers@, e.in_production_set);
    assert(lines.subrange(2, 2 + n) =~= places);
    assert(lines.subrange(n + 4, m) =~= why);
    assert(lines.subrange(m + 3, lines.len() as int) =~= callers);
}

/// The page of a change tells how many tests there are, which the change
/// affects, and what is unsound about the answer; that of a comparison tells
/// first whether the baseline is stale, then what is gone, then what is new.
pub proof fn pages_are_put_together(
    i: crate::changes::Impact,
    share: Seq<char>,
    c: crate::baseline::Comparison,
    why: Option<Seq<char>>,
)
    ensures
        crate::render::impact_lines(i, share) == tests_lines(i.all_tests as nat, i.always as nat)
            + affected_lines(
            crate::text::texts(i.changed@),
            crate::text::texts(i.tests@),
            i.all_tests as nat,
            share,
        ) + unsound_lines(crate::text::texts(i.unmapped@)),
        crate::render::comparison_lines(c, why) == stale_lines(why) + cleared_lines(
            crate::ir::views(c.cleared@),
        ) + added_lines(crate::ir::views(c.added@), c.carried as nat),
{
}

/// The page of statistics counts the functions of production and those that
/// share a name.
pub proof fn statistics_are_told(s: ScanView, share: Seq<char>)
    ensures
        ({
            let lines = crate::render::stats_lines(s, share);
            let all = s.defs.filter(|d: crate::ir::DefinitionView| !d.in_test);
            let twice = s.defs.filter(
                |d: crate::ir::DefinitionView|
                    !d.in_test && crate::laws::judging::shared(s.defs, d.id.text()),
            );
            &&& lines[0] == "production functions      "@ + decimal(all.len())
            &&& lines[1] == "non-unique names          "@ + decimal(twice.len()) + " ("@ + share
                + "%)"@
        }),
{
    let any = |k: Seq<char>| true;
    let amb = |k: Seq<char>| crate::findings::ambiguous(s, k);
    crate::laws::judging::production_is_counted(s.defs, any);
    crate::laws::judging::production_is_counted(s.defs, amb);
    let p = |d: crate::ir::DefinitionView| !d.in_test && any(d.id.text());
    let q = |d: crate::ir::DefinitionView| !d.in_test;
    same_filter(s.defs, p, q);
    let p2 = |d: crate::ir::DefinitionView| !d.in_test && amb(d.id.text());
    let q2 = |d: crate::ir::DefinitionView|
        !d.in_test && crate::laws::judging::shared(s.defs, d.id.text());
    assert forall|d: crate::ir::DefinitionView| #[trigger] p2(d) == q2(d) by {
        crate::laws::judging::shared_keys_are_ambiguous(s, d.id.text());
    }
    same_filter(s.defs, p2, q2);
}

/// The totals of a report are those of the scan.
pub proof fn reports_have_the_coverage(s: ScanView, m: crate::report::Summary)
    requires
        crate::report::coverage(s, m),
    ensures
        m.production_functions == s.defs.filter(|d: crate::ir::DefinitionView| !d.in_test).len(),
        m.unanalysable_names == s.defs.filter(
            |d: crate::ir::DefinitionView|
                !d.in_test && crate::laws::judging::shared(s.defs, d.id.text()),
        ).len(),
{
    let any = |k: Seq<char>| true;
    let amb = |k: Seq<char>| crate::findings::ambiguous(s, k);
    crate::laws::judging::production_is_counted(s.defs, any);
    crate::laws::judging::production_is_counted(s.defs, amb);
    let p = |d: crate::ir::DefinitionView| !d.in_test && any(d.id.text());
    let q = |d: crate::ir::DefinitionView| !d.in_test;
    same_filter(s.defs, p, q);
    let p2 = |d: crate::ir::DefinitionView| !d.in_test && amb(d.id.text());
    let q2 = |d: crate::ir::DefinitionView|
        !d.in_test && crate::laws::judging::shared(s.defs, d.id.text());
    assert forall|d: crate::ir::DefinitionView| #[trigger] p2(d) == q2(d) by {
        crate::laws::judging::shared_keys_are_ambiguous(s, d.id.text());
    }
    same_filter(s.defs, p2, q2);
}

/// Where nothing was read the page says so, how the project was read, and what
/// to do about it.
pub proof fn nothing_read_is_no_clean_result(description: Seq<char>)
    ensures
        nothing_lines(description)[0] == "  No source was read."@,
        nothing_lines(description)[2] == "  The project was read as: "@ + description,
        nothing_lines(description)[4]
            == "  This is not a clean result — nothing was analysed. Either the"@,
        nothing_lines(description)[6]
            == "  wrong one. State it with --lang <rust|python|typescript|go>."@,
{
}

/// Every page begins with the name of the program and its version, and a page
/// of findings puts them between a heading and a sum.
pub proof fn pages_have_their_headings(
    s: ScanView,
    description: Seq<char>,
    nominal: Option<usize>,
    found: Seq<FindingView>,
    rs: Seq<RegionView>,
    root: Seq<char>,
    share: Seq<char>,
)
    requires
        s.defs.len() > 0,
        found.len() > 0,
        rs.len() > 0,
    ensures
        header_lines(s, description, share)[0] == "landed v"@ + "0.1.0"@,
        report_lines(s, description, nominal, found, root, share) == header_lines(
            s,
            description,
            share,
        ) + caveat_lines(nominal, found.len()) + seq![
            "NEVER RUN — defined in production, called only by tests"@,
            Seq::new(78, |i: int| '\u{2500}'),
        ] + findings_lines(found, root) + seq![
            ""@,
            Seq::new(78, |i: int| '\u{2500}'),
            "  "@ + decimal(found.len()) + " function(s) shipped that nothing runs"@,
        ],
        regions_page(s, description, nominal, rs, root, share) == header_lines(
            s,
            description,
            share,
        ) + caveat_lines(nominal, total_size(rs)) + (totals_lines(rs) + regions_lines(
            subsystems(rs),
            root,
        ) + lone_lines(loners(rs), root) + seq![
            ""@,
            Seq::new(74, |i: int| '\u{2500}'),
            "  Start at each subsystem's frontier. Everything downstream of it"@,
            "  resolves when the frontier does."@,
        ]),
{
    assert(report_lines(s, description, nominal, found, root, share) =~= header_lines(
        s,
        description,
        share,
    ) + caveat_lines(nominal, found.len()) + seq![
        "NEVER RUN — defined in production, called only by tests"@,
        Seq::new(78, |i: int| '\u{2500}'),
    ] + findings_lines(found, root) + seq![
        ""@,
        Seq::new(78, |i: int| '\u{2500}'),
        "  "@ + decimal(found.len()) + " function(s) shipped that nothing runs"@,
    ]);
}

/// What is asked for by name goes first: one function, then statistics, the
/// drawing, the baseline; regions are told where the graph is asked for and
/// nothing flat.
pub proof fn pages_are_asked_for(
    explain: bool,
    stats: bool,
    dot: bool,
    baseline: bool,
    graph: bool,
    flat: bool,
)
    ensures
        ({
            let p = crate::render::page_asked(explain, stats, dot, baseline, graph, flat);
            &&& explain <==> p == crate::render::Page::Explain
            &&& !explain && stats <==> p == crate::render::Page::Stats
            &&& !explain && !stats && dot <==> p == crate::render::Page::Dot
            &&& !explain && !stats && !dot && baseline <==> p == crate::render::Page::Baseline
            &&& !explain && !stats && !dot && !baseline && graph && !flat <==> p
                == crate::render::Page::Regions
            &&& !explain && !stats && !dot && !baseline && (!graph || flat) <==> p
                == crate::render::Page::Findings
        }),
{
}

/// A run fails where there is a limit and more is found than it allows; without
/// a limit it never does. Against a baseline any new finding stops it, unless
/// a limit allows for as many. What stops a run, more of it stops too.
pub proof fn limits_are_kept(n: nat, more: nat, limit: nat)
    requires
        more >= n,
    ensures
        !crate::render::too_many(n, 0),
        limit > 0 ==> !crate::render::too_many(limit, limit) && crate::render::too_many(
            limit + 1,
            limit,
        ),
        crate::render::too_many(n, limit) ==> crate::render::too_many(more, limit),
        !crate::render::stopped(0, limit),
        crate::render::stopped(1, 0),
        !crate::render::stopped(limit, limit) && crate::render::stopped(limit + 1, limit),
        crate::render::stopped(n, limit) ==> crate::render::stopped(more, limit),
{
}

/// The totals of a report are what it tells: every finding is in one of the two
/// tiers, and every region too.
pub proof fn totals_add_up(
    found: Seq<FindingView>,
    rs: Seq<RegionView>,
    a: crate::report::Summary,
    b: crate::report::Summary,
)
    requires
        crate::report::flat_totals(found, a),
        crate::report::grouped_totals(rs, b),
    ensures
        a.unreachable == found.len(),
        a.confident + a.uncertain == found.len(),
        a.confident == found.filter(|f: FindingView| f.confidence == Confidence::High).len(),
        a.regions == 0,
        b.unreachable == total_size(rs),
        b.regions == rs.len(),
        b.confident == rs.filter(|r: RegionView| r.confidence == Confidence::High).len(),
        b.uncertain == rs.filter(|r: RegionView| r.confidence == Confidence::Medium).len(),
        crate::report::analysis_word(true) == "graph"@,
        crate::report::analysis_word(false) == "direct"@,
{
    let high = |f: FindingView| f.confidence == Confidence::High;
    let medium = |f: FindingView| f.confidence == Confidence::Medium;
    split_in_two(found, high, medium);
    let sure = |r: RegionView| r.confidence == Confidence::High;
    let unsure = |r: RegionView| r.confidence == Confidence::Medium;
    split_in_two(rs, sure, unsure);
}

} // verus!
