//! What a person reads: the pages that a run prints, line by line, and when a
//! run fails.

use vstd::prelude::*;

use crate::baseline::relative;
use crate::baseline::relative_to;
use crate::baseline::Comparison;
use crate::baseline::Entry;
use crate::baseline::AcceptedView;
use crate::baseline::VERSION;
use crate::changes::Impact;
use crate::evidence::opt_lit;
use crate::evidence::place_views;
use crate::evidence::Caller;
use crate::evidence::Evidence;
use crate::findings::ambiguity_report;
use crate::findings::ambiguous;
use crate::findings::production_count;
use crate::findings::Confidence;
use crate::findings::Finding;
use crate::findings::FindingView;
use crate::ir::views;
use crate::number::decimal;
use crate::number::decimal_of;
use crate::regions::total_size;
use crate::regions::Region;
use crate::regions::RegionView;
use crate::scan::Scan;
use crate::scan::ScanView;
use crate::text::cat2;
use crate::text::cat3;
use crate::text::cat4;
use crate::text::cat5;
use crate::text::join;
use crate::text::join_strings;
use crate::text::left;
use crate::text::left_of;
use crate::text::rule;
use crate::text::rule_of;
use crate::text::say;
use crate::text::tell;
use crate::text::tell_all;
use crate::text::texts;

verus! {

// ---------------------------------------------------------------------------
// Small parts
// ---------------------------------------------------------------------------

/// `s` where there is not exactly one.
pub open spec fn plural(n: nat) -> Seq<char> {
    if n == 1 {
        ""@
    } else {
        "s"@
    }
}

fn plural_of(n: usize) -> (r: &'static str)
    ensures
        r@ == plural(n as nat),
{
    if n == 1 {
        ""
    } else {
        "s"
    }
}

/// The first `n` of a list, or all where there are fewer.
pub open spec fn first_of<T>(s: Seq<T>, n: int) -> Seq<T> {
    if s.len() > n {
        s.take(n)
    } else {
        s
    }
}

/// Each of `lines` behind `indent`.
pub open spec fn indented(indent: Seq<char>, lines: Seq<Seq<char>>) -> Seq<Seq<char>> {
    lines.map_values(|l: Seq<char>| indent + l)
}

fn indent_first(indent: &str, lines: &Vec<String>, most: usize) -> (r: Vec<String>)
    ensures
        texts(r@) == indented(indent@, first_of(texts(lines@), most as int)),
{
    let ghost all = texts(lines@);
    let ghost f = |l: Seq<char>| indent@ + l;
    let mut r: Vec<String> = Vec::new();
    let mut i: usize = 0;
    assert(texts(r@) =~= all.take(0).map_values(f));
    while i < lines.len() && i < most
        invariant
            0 <= i <= lines@.len(),
            i <= most,
            all == texts(lines@),
            f == (|l: Seq<char>| indent@ + l),
            texts(r@) == all.take(i as int).map_values(f),
        decreases lines@.len() - i,
    {
        tell(&mut r, cat2(indent, lines[i].as_str()));
        proof {
            assert(all.take(i + 1).map_values(f) =~= all.take(i as int).map_values(f).push(
                f(all[i as int]),
            ));
        }
        i += 1;
    }
    assert(all.take(i as int) =~= first_of(all, most as int));
    r
}

/// Says how many more there are than were shown.
pub open spec fn and_more(lead: Seq<char>, n: nat, shown: nat, tail: Seq<char>) -> Seq<Seq<char>> {
    if n > shown {
        seq![lead + decimal((n - shown) as nat) + tail]
    } else {
        seq![]
    }
}

fn tell_more(lead: &str, n: usize, shown: usize, tail: &str) -> (r: Vec<String>)
    ensures
        texts(r@) == and_more(lead@, n as nat, shown as nat, tail@),
{
    let mut r: Vec<String> = Vec::new();
    assert(texts(r@) =~= seq![]);
    if n > shown {
        tell(&mut r, cat3(lead, decimal_of(n - shown).as_str(), tail));
    }
    r
}

/// The name and version of the tool.
pub open spec fn title() -> Seq<char> {
    "landed v"@ + VERSION@
}

/// The functions outside test code.
pub open spec fn production(s: ScanView) -> nat {
    production_count(s.defs, |k: Seq<char>| true)
}

/// Those of them that share a name.
pub open spec fn shared(s: ScanView) -> nat {
    production_count(s.defs, |k: Seq<char>| ambiguous(s, k))
}

/// What was scanned.
pub open spec fn scanned_line(s: ScanView) -> Seq<char> {
    "  "@ + decimal(production(s)) + " production functions scanned"@
}

/// What was scanned and how, and what of it cannot be judged; `share` is the
/// percentage of that, written out.
pub open spec fn header_lines(s: ScanView, description: Seq<char>, share: Seq<char>) -> Seq<
    Seq<char>,
> {
    seq![title(), scanned_line(s)] + (if description.len() > 0 {
        seq!["  read as "@ + description]
    } else {
        seq![]
    }) + (if shared(s) > 0 {
        seq![
            "  "@ + decimal(shared(s)) + " ("@ + share
                + "%) share a name with another function and are not analysed"@,
        ]
    } else {
        seq![]
    }) + seq![""@]
}

/// The head of every page on a scan.
pub fn header(scan: &Scan, share: &str) -> (r: Vec<String>)
    ensures
        texts(r@) == header_lines(scan@, scan.project_description@, share@),
{
    let (ambiguous, total) = ambiguity_report(scan);
    let mut out: Vec<String> = Vec::new();
    tell(&mut out, cat2("landed v", VERSION));
    tell(&mut out, cat3("  ", decimal_of(total).as_str(), " production functions scanned"));
    if crate::text::width(scan.project_description.as_str()) > 0 {
        tell(&mut out, cat2("  read as ", scan.project_description.as_str()));
    }
    if ambiguous > 0 {
        tell(
            &mut out,
            cat5(
                "  ",
                decimal_of(ambiguous).as_str(),
                " (",
                share,
                "%) share a name with another function and are not analysed",
            ),
        );
    }
    say(&mut out, "");
    assert(texts(out@) =~= header_lines(scan@, scan.project_description@, share@));
    out
}

/// The precise tier should mostly take findings away, by settling names that
/// the default one leaves alone. This many it may add before that is said to
/// be more likely a call form that was not read.
pub open spec fn plausible(nominal: nat, found: nat) -> bool {
    found <= nominal + nominal / 5 || found <= nominal + 2
}

/// The warning that goes with a precise run that adds many findings.
pub open spec fn caution(found: nat, nominal: nat) -> Seq<Seq<char>> {
    seq![
        "CAUTION — precise mode reports "@ + decimal(found) + " findings; the default reports "@
            + decimal(nominal) + "."@,
        "  This tier resolves identity from the compiler's human-readable MIR"@,
        "  dump. A call form its parser does not recognise is a call it does not"@,
        "  see, and everything that call reached then looks unreachable. A large"@,
        "  increase is more likely that than newly discovered dead code."@,
        "  Treat the additions as leads, verify with --explain, and trust the"@,
        "  default tier where the two disagree."@,
        ""@,
    ]
}

/// The warning, where it is due.
pub open spec fn caveat_lines(nominal: Option<usize>, found: nat) -> Seq<Seq<char>> {
    match nominal {
        Some(n) => if plausible(n as nat, found) {
            seq![]
        } else {
            caution(found, n as nat)
        },
        None => seq![],
    }
}

/// The warning that goes with a precise run that adds many findings, where it
/// is due.
pub fn precision_caveat(scan: &Scan, found: usize) -> (r: Vec<String>)
    ensures
        texts(r@) == caveat_lines(scan.nominal_findings, found as nat),
{
    let mut out: Vec<String> = Vec::new();
    assert(texts(out@) =~= seq![]);
    let nominal = match scan.nominal_findings {
        Some(n) => n,
        None => {
            return out;
        },
    };
    if found <= nominal || found - nominal <= nominal / 5 || found - nominal <= 2 {
        return out;
    }
    tell(
        &mut out,
        cat5(
            "CAUTION — precise mode reports ",
            decimal_of(found).as_str(),
            " findings; the default reports ",
            decimal_of(nominal).as_str(),
            ".",
        ),
    );
    say(&mut out, "  This tier resolves identity from the compiler's human-readable MIR");
    say(&mut out, "  dump. A call form its parser does not recognise is a call it does not");
    say(&mut out, "  see, and everything that call reached then looks unreachable. A large");
    say(&mut out, "  increase is more likely that than newly discovered dead code.");
    say(&mut out, "  Treat the additions as leads, verify with --explain, and trust the");
    say(&mut out, "  default tier where the two disagree.");
    say(&mut out, "");
    out
}

/// What is said where nothing was read: never in the words of a clean result.
pub open spec fn nothing_lines(description: Seq<char>) -> Seq<Seq<char>> {
    seq![
        "  No source was read."@,
        ""@,
        "  The project was read as: "@ + description,
        ""@,
        "  This is not a clean result — nothing was analysed. Either the"@,
        "  path holds no source of that language, or detection picked the"@,
        "  wrong one. State it with --lang <rust|python|typescript|go>."@,
    ]
}

/// What is said where nothing was read.
pub fn nothing_read(scan: &Scan) -> (r: Vec<String>)
    ensures
        texts(r@) == nothing_lines(scan.project_description@),
{
    let mut out: Vec<String> = Vec::new();
    assert(texts(out@) =~= seq![]);
    say(&mut out, "  No source was read.");
    say(&mut out, "");
    tell(&mut out, cat2("  The project was read as: ", scan.project_description.as_str()));
    say(&mut out, "");
    say(&mut out, "  This is not a clean result — nothing was analysed. Either the");
    say(&mut out, "  path holds no source of that language, or detection picked the");
    say(&mut out, "  wrong one. State it with --lang <rust|python|typescript|go>.");
    out
}

// ---------------------------------------------------------------------------
// Findings one by one
// ---------------------------------------------------------------------------

/// Places as they are told from the root, the first two.
pub open spec fn example_lines(examples: Seq<Seq<char>>, root: Seq<char>) -> Seq<Seq<char>> {
    first_of(examples, 2).map_values(|e: Seq<char>| "             "@ + relative_to(e, root))
}

fn show_examples(examples: &Vec<String>, root: &str) -> (r: Vec<String>)
    ensures
        texts(r@) == example_lines(texts(examples@), root@),
{
    let ghost all = texts(examples@);
    let ghost f = |e: Seq<char>| "             "@ + relative_to(e, root@);
    let mut r: Vec<String> = Vec::new();
    let mut i: usize = 0;
    assert(texts(r@) =~= all.take(0).map_values(f));
    while i < examples.len() && i < 2
        invariant
            0 <= i <= examples@.len(),
            i <= 2,
            all == texts(examples@),
            f == (|e: Seq<char>| "             "@ + relative_to(e, root@)),
            texts(r@) == all.take(i as int).map_values(f),
        decreases examples@.len() - i,
    {
        tell(&mut r, cat2("             ", relative(examples[i].as_str(), root).as_str()));
        proof {
            assert(all.take(i + 1).map_values(f) =~= all.take(i as int).map_values(f).push(
                f(all[i as int]),
            ));
        }
        i += 1;
    }
    assert(all.take(i as int) =~= first_of(all, 2));
    r
}

/// Who calls a finding. Callers in production make it uncertain, and are said.
pub open spec fn caller_lines(f: FindingView) -> Seq<Seq<char>> {
    if f.prod_calls == 0 {
        seq!["    callers  "@ + decimal(f.test_calls) + " test call(s), no production caller"@]
    } else {
        seq![
            "    callers  "@ + decimal(f.test_calls) + " test call(s), "@ + decimal(f.prod_calls)
                + " production call(s) — but every"@,
            "             caller is itself unreachable, so this is uncertain"@,
        ]
    }
}

/// One finding on the page.
pub open spec fn finding_lines(f: FindingView, root: Seq<char>) -> Seq<Seq<char>> {
    seq![
        ""@,
        "  "@ + f.name,
        "    defined  "@ + relative_to(f.file, root) + ":"@ + decimal(f.line),
    ] + caller_lines(f) + example_lines(f.examples, root)
}

/// Findings on the page.
pub open spec fn findings_lines(found: Seq<FindingView>, root: Seq<char>) -> Seq<Seq<char>>
    decreases found.len(),
{
    if found.len() == 0 {
        seq![]
    } else {
        findings_lines(found.drop_last(), root) + finding_lines(found.last(), root)
    }
}

/// The page of a run function by function.
pub open spec fn report_lines(
    s: ScanView,
    description: Seq<char>,
    nominal: Option<usize>,
    found: Seq<FindingView>,
    root: Seq<char>,
    share: Seq<char>,
) -> Seq<Seq<char>> {
    header_lines(s, description, share) + (if s.defs.len() == 0 {
        nothing_lines(description)
    } else if found.len() == 0 {
        seq!["  No never-run functions found."@]
    } else {
        caveat_lines(nominal, found.len()) + seq![
            "NEVER RUN — defined in production, called only by tests"@,
            rule(78),
        ] + findings_lines(found, root) + seq![
            ""@,
            rule(78),
            "  "@ + decimal(found.len()) + " function(s) shipped that nothing runs"@,
        ]
    })
}

fn show_finding(f: &Finding, root: &str) -> (r: Vec<String>)
    ensures
        texts(r@) == finding_lines(f@, root@),
{
    let mut out: Vec<String> = Vec::new();
    say(&mut out, "");
    tell(&mut out, cat2("  ", f.name.as_str()));
    tell(
        &mut out,
        cat4(
            "    defined  ",
            relative(f.file.as_str(), root).as_str(),
            ":",
            decimal_of(f.line).as_str(),
        ),
    );
    if f.prod_calls == 0 {
        tell(
            &mut out,
            cat3(
                "    callers  ",
                decimal_of(f.test_calls).as_str(),
                " test call(s), no production caller",
            ),
        );
    } else {
        tell(
            &mut out,
            cat5(
                "    callers  ",
                decimal_of(f.test_calls).as_str(),
                " test call(s), ",
                decimal_of(f.prod_calls).as_str(),
                " production call(s) — but every",
            ),
        );
        say(&mut out, "             caller is itself unreachable, so this is uncertain");
    }
    assert(texts(out@) =~= seq![
        ""@,
        "  "@ + f@.name,
        "    defined  "@ + relative_to(f@.file, root@) + ":"@ + decimal(f@.line),
    ] + caller_lines(f@));
    tell_all(&mut out, show_examples(&f.examples, root));
    out
}

/// The page of a run function by function.
pub fn report(scan: &Scan, findings: &Vec<Finding>, root: &str, share: &str) -> (r: Vec<String>)
    ensures
        texts(r@) == report_lines(
            scan@,
            scan.project_description@,
            scan.nominal_findings,
            views(findings@),
            root@,
            share@,
        ),
{
    let ghost all = views(findings@);
    let mut out = header(scan, share);
    let ghost top = texts(out@);
    if scan.defs.len() == 0 {
        tell_all(&mut out, nothing_read(scan));
        return out;
    }
    if findings.len() == 0 {
        say(&mut out, "  No never-run functions found.");
        assert(texts(out@) =~= top + seq!["  No never-run functions found."@]);
        return out;
    }
    let mut body = precision_caveat(scan, findings.len());
    let ghost caveat = texts(body@);
    say(&mut body, "NEVER RUN — defined in production, called only by tests");
    tell(&mut body, rule_of(78));
    let ghost lead = texts(body@);
    assert(lead =~= caveat + seq![
        "NEVER RUN — defined in production, called only by tests"@,
        rule(78),
    ]);
    let mut i: usize = 0;
    assert(lead =~= lead + findings_lines(all.take(0), root@));
    while i < findings.len()
        invariant
            0 <= i <= findings@.len(),
            all == views(findings@),
            texts(body@) == lead + findings_lines(all.take(i as int), root@),
        decreases findings@.len() - i,
    {
        tell_all(&mut body, show_finding(&findings[i], root));
        proof {
            let t = all.take(i + 1);
            assert(t.drop_last() =~= all.take(i as int));
            assert(t.last() == findings@[i as int]@);
            assert(lead + findings_lines(t, root@) =~= lead + findings_lines(
                all.take(i as int),
                root@,
            ) + finding_lines(t.last(), root@));
        }
        i += 1;
    }
    assert(all.take(all.len() as int) =~= all);
    let ghost shown = texts(body@);
    say(&mut body, "");
    tell(&mut body, rule_of(78));
    tell(
        &mut body,
        cat3("  ", decimal_of(findings.len()).as_str(), " function(s) shipped that nothing runs"),
    );
    assert(texts(body@) =~= shown + seq![
        ""@,
        rule(78),
        "  "@ + decimal(all.len()) + " function(s) shipped that nothing runs"@,
    ]);
    tell_all(&mut out, body);
    out
}

// ---------------------------------------------------------------------------
// Findings by region
// ---------------------------------------------------------------------------

/// How far a region is to be trusted, in words.
pub open spec fn trust_words(c: Confidence) -> Seq<char> {
    match c {
        Confidence::High => "confident"@,
        Confidence::Medium => "UNCERTAIN — may be an entry point this analyzer cannot see"@,
    }
}

/// How a region is entered.
pub open spec fn entered_lines(e: FindingView, root: Seq<char>) -> Seq<Seq<char>> {
    if e.prod_calls > 0 {
        seq![
            "  entered    "@ + decimal(e.prod_calls) + " production call(s) and "@ + decimal(
                e.test_calls,
            ) + " test call(s) — but every"@,
            "             caller is itself unreachable, so this is either a dead"@,
            "             subsystem or a root the analyzer failed to resolve"@,
        ]
    } else if e.test_calls > 0 {
        seq!["  entered    "@ + decimal(e.test_calls) + " test call(s), 0 from production"@]
            + example_lines(e.examples, root)
    } else {
        seq!["  entered    nothing calls it, in tests or production"@]
    }
}

/// The files that a region spans, where they are several.
pub open spec fn span_lines(r: RegionView) -> Seq<Seq<char>> {
    if r.files.len() > 1 {
        seq![""@, "  spans      "@ + decimal(r.files.len()) + " files"@]
    } else {
        seq![]
    }
}

/// The names of the first six members.
pub open spec fn shown_members(r: RegionView) -> Seq<Seq<char>> {
    first_of(r.members, 6).map_values(|m: FindingView| m.name)
}

/// What lies behind the frontier of a region.
pub open spec fn downstream_lines(r: RegionView) -> Seq<Seq<char>> {
    if r.members.len() > 0 {
        seq![
            ""@,
            "  downstream "@ + decimal(r.members.len())
                + " function(s) reachable only through the frontier:"@,
            "             "@ + join(shown_members(r), ", "@),
        ] + and_more("             ... and "@, r.members.len(), 6, " more"@)
    } else {
        seq![]
    }
}

/// A region of several functions on the page, the `n`th.
pub open spec fn region_lines(n: nat, r: RegionView, root: Seq<char>) -> Seq<Seq<char>> {
    seq![
        ""@,
        rule(74),
        "Region "@ + decimal(n) + " — "@ + decimal(r.size) + " function"@ + plural(r.size) + "  ["@
            + trust_words(r.confidence) + "]"@,
        rule(74),
        "  frontier   "@ + r.entry.name,
        "             "@ + relative_to(r.entry.file, root) + ":"@ + decimal(r.entry.line),
        ""@,
    ] + entered_lines(r.entry, root) + span_lines(r) + downstream_lines(r) + seq![
        ""@,
        "  fix        make "@ + r.entry.name + " reachable, or delete the region"@,
    ]
}

/// The regions of several functions on the page.
pub open spec fn regions_lines(rs: Seq<RegionView>, root: Seq<char>) -> Seq<Seq<char>>
    decreases rs.len(),
{
    if rs.len() == 0 {
        seq![]
    } else {
        regions_lines(rs.drop_last(), root) + region_lines(rs.len(), rs.last(), root)
    }
}

/// A function that makes a region of its own.
pub open spec fn lone_line(r: RegionView, root: Seq<char>) -> Seq<char> {
    "  "@ + left(r.entry.name, 32) + " "@ + relative_to(r.entry.file, root) + ":"@ + decimal(
        r.entry.line,
    )
}

/// The functions that make regions of their own.
pub open spec fn lone_lines(rs: Seq<RegionView>, root: Seq<char>) -> Seq<Seq<char>> {
    if rs.len() > 0 {
        seq![
            ""@,
            rule(74),
            "Lone functions — "@ + decimal(rs.len()) + " with no unreachable callees"@,
            rule(74),
        ] + first_of(rs, 20).map_values(|r: RegionView| lone_line(r, root)) + and_more(
            "  ... and "@,
            rs.len(),
            20,
            " more (--json for the full list)"@,
        )
    } else {
        seq![]
    }
}

/// The regions of several functions.
pub open spec fn subsystems(rs: Seq<RegionView>) -> Seq<RegionView> {
    rs.filter(|r: RegionView| r.size > 1)
}

/// The regions of a single function.
pub open spec fn loners(rs: Seq<RegionView>) -> Seq<RegionView> {
    rs.filter(|r: RegionView| r.size <= 1)
}

/// The regions that are trusted to be dead.
pub open spec fn sure_regions(rs: Seq<RegionView>) -> Seq<RegionView> {
    rs.filter(|r: RegionView| r.confidence == Confidence::High)
}

/// How many regions there are, and of what kind.
pub open spec fn totals_lines(rs: Seq<RegionView>) -> Seq<Seq<char>> {
    seq![
        decimal(total_size(rs)) + " unreachable function"@ + plural(total_size(rs)) + " in "@
            + decimal(rs.len()) + " region"@ + plural(rs.len()),
        "  "@ + decimal(sure_regions(rs).len()) + " confident, "@ + decimal(
            (rs.len() - sure_regions(rs).len()) as nat,
        ) + " uncertain (production callers exist but look unreachable)"@,
    ] + (if loners(rs).len() > 0 {
        seq![
            "  "@ + decimal(subsystems(rs).len()) + " subsystem"@ + plural(subsystems(rs).len())
                + " of 2+ functions, and "@ + decimal(loners(rs).len()) + " lone function"@
                + plural(loners(rs).len()),
        ]
    } else {
        seq![]
    })
}

/// How to go about the regions.
pub open spec fn advice_lines() -> Seq<Seq<char>> {
    seq![
        ""@,
        rule(74),
        "  Start at each subsystem's frontier. Everything downstream of it"@,
        "  resolves when the frontier does."@,
    ]
}

/// The page of a run by region.
pub open spec fn regions_page(
    s: ScanView,
    description: Seq<char>,
    nominal: Option<usize>,
    rs: Seq<RegionView>,
    root: Seq<char>,
    share: Seq<char>,
) -> Seq<Seq<char>> {
    header_lines(s, description, share) + caveat_lines(nominal, total_size(rs)) + (if s.defs.len()
        == 0 {
        nothing_lines(description)
    } else if rs.len() == 0 {
        seq!["  Everything is reachable from production entry points."@]
    } else {
        totals_lines(rs) + regions_lines(subsystems(rs), root) + lone_lines(loners(rs), root)
            + advice_lines()
    })
}

fn show_entered(e: &Finding, root: &str) -> (r: Vec<String>)
    ensures
        texts(r@) == entered_lines(e@, root@),
{
    let mut out: Vec<String> = Vec::new();
    assert(texts(out@) =~= seq![]);
    if e.prod_calls > 0 {
        tell(
            &mut out,
            cat5(
                "  entered    ",
                decimal_of(e.prod_calls).as_str(),
                " production call(s) and ",
                decimal_of(e.test_calls).as_str(),
                " test call(s) — but every",
            ),
        );
        say(&mut out, "             caller is itself unreachable, so this is either a dead");
        say(&mut out, "             subsystem or a root the analyzer failed to resolve");
    } else if e.test_calls > 0 {
        tell(
            &mut out,
            cat3(
                "  entered    ",
                decimal_of(e.test_calls).as_str(),
                " test call(s), 0 from production",
            ),
        );
        tell_all(&mut out, show_examples(&e.examples, root));
    } else {
        say(&mut out, "  entered    nothing calls it, in tests or production");
    }
    out
}

fn show_downstream(x: &Region) -> (r: Vec<String>)
    ensures
        texts(r@) == downstream_lines(x@),
{
    let mut out: Vec<String> = Vec::new();
    assert(texts(out@) =~= seq![]);
    if x.members.len() == 0 {
        return out;
    }
    let ghost all = views(x.members@);
    let ghost f = |m: FindingView| m.name;
    let mut names: Vec<String> = Vec::new();
    let mut i: usize = 0;
    assert(texts(names@) =~= all.take(0).map_values(f));
    while i < x.members.len() && i < 6
        invariant
            0 <= i <= x.members@.len(),
            i <= 6,
            all == views(x.members@),
            f == (|m: FindingView| m.name),
            texts(names@) == all.take(i as int).map_values(f),
        decreases x.members@.len() - i,
    {
        tell(&mut names, x.members[i].name.clone());
        proof {
            assert(all[i as int] == x.members@[i as int]@);
            assert(all.take(i + 1).map_values(f) =~= all.take(i as int).map_values(f).push(
                f(all[i as int]),
            ));
        }
        i += 1;
    }
    assert(all.take(i as int) =~= first_of(all, 6));
    say(&mut out, "");
    tell(
        &mut out,
        cat3(
            "  downstream ",
            decimal_of(x.members.len()).as_str(),
            " function(s) reachable only through the frontier:",
        ),
    );
    tell(&mut out, cat2("             ", join_strings(&names, ", ").as_str()));
    tell_all(&mut out, tell_more("             ... and ", x.members.len(), 6, " more"));
    out
}

fn show_region(n: usize, x: &Region, root: &str) -> (r: Vec<String>)
    ensures
        texts(r@) == region_lines(n as nat, x@, root@),
{
    let mut out: Vec<String> = Vec::new();
    assert(texts(out@) =~= seq![]);
    say(&mut out, "");
    tell(&mut out, rule_of(74));
    let trust = match x.confidence {
        Confidence::High => "confident",
        Confidence::Medium => "UNCERTAIN — may be an entry point this analyzer cannot see",
    };
    let mut name = cat5(
        "Region ",
        decimal_of(n).as_str(),
        " — ",
        decimal_of(x.size).as_str(),
        " function",
    );
    name.append(plural_of(x.size));
    name.append("  [");
    name.append(trust);
    name.append("]");
    tell(&mut out, name);
    tell(&mut out, rule_of(74));
    tell(&mut out, cat2("  frontier   ", x.entry.name.as_str()));
    tell(
        &mut out,
        cat4(
            "             ",
            relative(x.entry.file.as_str(), root).as_str(),
            ":",
            decimal_of(x.entry.line).as_str(),
        ),
    );
    say(&mut out, "");
    tell_all(&mut out, show_entered(&x.entry, root));
    let mut spans: Vec<String> = Vec::new();
    assert(texts(spans@) =~= seq![]);
    if x.files.len() > 1 {
        say(&mut spans, "");
        tell(&mut spans, cat3("  spans      ", decimal_of(x.files.len()).as_str(), " files"));
    }
    tell_all(&mut out, spans);
    tell_all(&mut out, show_downstream(x));
    let mut fix: Vec<String> = Vec::new();
    assert(texts(fix@) =~= seq![]);
    say(&mut fix, "");
    tell(
        &mut fix,
        cat3("  fix        make ", x.entry.name.as_str(), " reachable, or delete the region"),
    );
    tell_all(&mut out, fix);
    out
}

fn show_lone(lone: &Vec<&Region>, root: &str) -> (r: Vec<String>)
    ensures
        texts(r@) == lone_lines(lone@.map_values(|x: &Region| x@), root@),
{
    let ghost all = lone@.map_values(|x: &Region| x@);
    let ghost f = |x: RegionView| lone_line(x, root@);
    let mut out: Vec<String> = Vec::new();
    assert(texts(out@) =~= seq![]);
    if lone.len() == 0 {
        return out;
    }
    say(&mut out, "");
    tell(&mut out, rule_of(74));
    tell(
        &mut out,
        cat3(
            "Lone functions — ",
            decimal_of(lone.len()).as_str(),
            " with no unreachable callees",
        ),
    );
    tell(&mut out, rule_of(74));
    let ghost lead = texts(out@);
    let mut i: usize = 0;
    assert(lead =~= lead + all.take(0).map_values(f));
    while i < lone.len() && i < 20
        invariant
            0 <= i <= lone@.len(),
            i <= 20,
            all == lone@.map_values(|x: &Region| x@),
            f == (|x: RegionView| lone_line(x, root@)),
            texts(out@) == lead + all.take(i as int).map_values(f),
        decreases lone@.len() - i,
    {
        let x = lone[i];
        let mut line = cat5(
            "  ",
            left_of(x.entry.name.as_str(), 32).as_str(),
            " ",
            relative(x.entry.file.as_str(), root).as_str(),
            ":",
        );
        line.append(decimal_of(x.entry.line).as_str());
        tell(&mut out, line);
        proof {
            assert(all[i as int] == x@);
            assert(lead + all.take(i + 1).map_values(f) =~= (lead + all.take(
                i as int,
            ).map_values(f)).push(f(all[i as int])));
        }
        i += 1;
    }
    assert(all.take(i as int) =~= first_of(all, 20));
    tell_all(
        &mut out,
        tell_more("  ... and ", lone.len(), 20, " more (--json for the full list)"),
    );
    out
}

fn part_by_size<'a>(regions: &'a Vec<Region>) -> (r: (Vec<&'a Region>, Vec<&'a Region>, usize))
    ensures
        r.0@.map_values(|x: &Region| x@) == subsystems(views(regions@)),
        r.1@.map_values(|x: &Region| x@) == loners(views(regions@)),
        r.2 == sure_regions(views(regions@)).len(),
        r.2 <= regions@.len(),
{
    let ghost all = views(regions@);
    let ghost seen = |x: &Region| x@;
    let ghost large = |r: RegionView| r.size > 1;
    let ghost small = |r: RegionView| r.size <= 1;
    let ghost sure = |r: RegionView| r.confidence == Confidence::High;
    let mut multi: Vec<&'a Region> = Vec::new();
    let mut single: Vec<&'a Region> = Vec::new();
    let mut hi: usize = 0;
    let mut i: usize = 0;
    proof {
        reveal(Seq::filter);
        assert(multi@.map_values(seen) =~= all.take(0).filter(large));
        assert(single@.map_values(seen) =~= all.take(0).filter(small));
        assert(all.take(0).filter(sure).len() == 0);
    }
    while i < regions.len()
        invariant
            0 <= i <= regions@.len(),
            all == views(regions@),
            seen == (|x: &Region| x@),
            large == (|r: RegionView| r.size > 1),
            small == (|r: RegionView| r.size <= 1),
            sure == (|r: RegionView| r.confidence == Confidence::High),
            multi@.map_values(seen) == all.take(i as int).filter(large),
            single@.map_values(seen) == all.take(i as int).filter(small),
            hi == all.take(i as int).filter(sure).len(),
            hi <= i,
        decreases regions@.len() - i,
    {
        let x = &regions[i];
        proof {
            assert(all[i as int] == x@);
            crate::seqs::filter_step(all, large, i as int);
            crate::seqs::filter_step(all, small, i as int);
            crate::seqs::filter_step(all, sure, i as int);
            crate::seqs::map_push(multi@, seen, x);
            crate::seqs::map_push(single@, seen, x);
        }
        if x.size > 1 {
            multi.push(x);
        } else {
            single.push(x);
        }
        if x.confidence == Confidence::High {
            hi += 1;
        }
        i += 1;
    }
    assert(all.take(all.len() as int) =~= all);
    (multi, single, hi)
}

fn show_totals(regions: &Vec<Region>, multi: usize, single: usize, sure: usize) -> (r: Vec<String>)
    requires
        total_size(views(regions@)) <= usize::MAX,
        multi == subsystems(views(regions@)).len(),
        single == loners(views(regions@)).len(),
        sure == sure_regions(views(regions@)).len(),
        sure <= regions@.len(),
    ensures
        texts(r@) == totals_lines(views(regions@)),
{
    let (total, _) = crate::report::sizes(regions.as_slice());
    let mut out: Vec<String> = Vec::new();
    assert(texts(out@) =~= seq![]);
    let mut line = cat4(
        decimal_of(total).as_str(),
        " unreachable function",
        plural_of(total),
        " in ",
    );
    line.append(decimal_of(regions.len()).as_str());
    line.append(" region");
    line.append(plural_of(regions.len()));
    tell(&mut out, line);
    tell(
        &mut out,
        cat5(
            "  ",
            decimal_of(sure).as_str(),
            " confident, ",
            decimal_of(regions.len() - sure).as_str(),
            " uncertain (production callers exist but look unreachable)",
        ),
    );
    let mut kinds: Vec<String> = Vec::new();
    assert(texts(kinds@) =~= seq![]);
    if single > 0 {
        let mut line = cat5(
            "  ",
            decimal_of(multi).as_str(),
            " subsystem",
            plural_of(multi),
            " of 2+ functions, and ",
        );
        line.append(decimal_of(single).as_str());
        line.append(" lone function");
        line.append(plural_of(single));
        tell(&mut kinds, line);
    }
    tell_all(&mut out, kinds);
    out
}

/// The page of a run by region.
pub fn report_regions(scan: &Scan, regions: &Vec<Region>, root: &str, share: &str) -> (r: Vec<
    String,
>)
    requires
        total_size(views(regions@)) <= usize::MAX,
    ensures
        texts(r@) == regions_page(
            scan@,
            scan.project_description@,
            scan.nominal_findings,
            views(regions@),
            root@,
            share@,
        ),
{
    let (total, _) = crate::report::sizes(regions.as_slice());
    let mut out = header(scan, share);
    tell_all(&mut out, precision_caveat(scan, total));
    if scan.defs.len() == 0 {
        tell_all(&mut out, nothing_read(scan));
        return out;
    }
    let ghost top = texts(out@);
    if regions.len() == 0 {
        say(&mut out, "  Everything is reachable from production entry points.");
        assert(texts(out@) =~= top + seq![
            "  Everything is reachable from production entry points."@,
        ]);
        return out;
    }
    let (multi, single, sure) = part_by_size(regions);
    let mut body = show_totals(regions, multi.len(), single.len(), sure);
    let ghost lead = texts(body@);
    let ghost all = subsystems(views(regions@));
    let mut i: usize = 0;
    assert(lead =~= lead + regions_lines(all.take(0), root@));
    while i < multi.len()
        invariant
            0 <= i <= multi@.len(),
            all == multi@.map_values(|x: &Region| x@),
            texts(body@) == lead + regions_lines(all.take(i as int), root@),
        decreases multi@.len() - i,
    {
        let n: usize = i + 1;
        tell_all(&mut body, show_region(n, multi[i], root));
        proof {
            let t = all.take(i + 1);
            assert(t.drop_last() =~= all.take(i as int));
            assert(t.last() == multi@[i as int]@);
            assert(t.len() == n);
            assert(lead + regions_lines(t, root@) =~= lead + regions_lines(
                all.take(i as int),
                root@,
            ) + region_lines(n as nat, t.last(), root@));
        }
        i = n;
    }
    assert(all.take(all.len() as int) =~= all);
    tell_all(&mut body, show_lone(&single, root));
    let mut advice: Vec<String> = Vec::new();
    assert(texts(advice@) =~= seq![]);
    say(&mut advice, "");
    tell(&mut advice, rule_of(74));
    say(&mut advice, "  Start at each subsystem's frontier. Everything downstream of it");
    say(&mut advice, "  resolves when the frontier does.");
    tell_all(&mut body, advice);
    tell_all(&mut out, body);
    out
}

// ---------------------------------------------------------------------------
// One function explained
// ---------------------------------------------------------------------------

/// Where a function is defined.
pub open spec fn defined_lines(places: Seq<(Seq<char>, nat)>, root: Seq<char>) -> Seq<Seq<char>> {
    if places.len() == 0 {
        seq!["  not defined in the scanned crates"@]
    } else {
        places.map_values(
            |p: (Seq<char>, nat)|
                "  defined      "@ + relative_to(p.0, root) + ":"@ + decimal(p.1),
        )
    }
}

/// The verdict on a function.
pub open spec fn status_of(suppressed: bool, alive: bool, tested: bool) -> Seq<char> {
    if suppressed {
        "NOT ANALYSED"@
    } else if alive {
        "reachable from production"@
    } else if tested {
        "UNREACHABLE — tests reach it, production cannot"@
    } else {
        "UNREACHABLE — nothing reaches it at all"@
    }
}

/// One caller.
pub open spec fn caller_line(c: Caller) -> Seq<char> {
    "                 "@ + left(c.name@, 34) + " "@ + if c.live {
        "live"@
    } else {
        "dead"@
    }
}

/// The callers that are live.
pub open spec fn live_callers(callers: Seq<Caller>) -> Seq<Caller> {
    callers.filter(|c: Caller| c.live)
}

/// What follows from the callers.
pub open spec fn conclusion_lines(live: nat, alive: bool) -> Seq<Seq<char>> {
    if live == 0 {
        seq![
            "  conclusion   every caller is itself unreachable, so this is"@,
            "               downstream of a dead region rather than its cause"@,
        ]
    } else if !alive {
        seq![
            "  conclusion   "@ + decimal(live)
                + " caller(s) are live but no edge to this function"@,
            "               was resolved — likely a limit of name-based matching"@,
        ]
    } else {
        seq![]
    }
}

/// Who calls a function, and what follows from it.
pub open spec fn callers_lines(callers: Seq<Caller>, alive: bool) -> Seq<Seq<char>> {
    if callers.len() == 0 {
        seq!["  callers      none recorded"@]
    } else {
        seq![
            "  callers      ("@ + decimal(callers.len())
                + " recorded — 'live' means the caller is itself"@,
            "               reachable from a production entry point)"@,
        ] + first_of(callers, 12).map_values(|c: Caller| caller_line(c)) + and_more(
            "                 ... and "@,
            callers.len(),
            12,
            " more"@,
        ) + seq![""@] + conclusion_lines(live_callers(callers).len(), alive)
    }
}

/// Why a function is not judged, where it is not.
pub open spec fn suppressed_lines(why: Option<Seq<char>>) -> Seq<Seq<char>> {
    match why {
        Some(why) => seq!["  suppressed   "@ + why],
        None => seq![],
    }
}

/// What the analysis knows of one function.
pub open spec fn evidence_lines(e: Evidence, root: Seq<char>) -> Seq<Seq<char>> {
    seq![e.name@, ""@] + defined_lines(place_views(e.defined@), root) + seq![
        ""@,
        "  status       "@ + status_of(e.suppressed is Some, e.in_production_set, e.in_test_set),
    ] + suppressed_lines(opt_lit(e.suppressed)) + seq![
        "  entry point  "@ + if e.is_root {
            e.root_reason@
        } else {
            "no"@
        },
        "  call sites   "@ + decimal(e.prod_call_sites as nat) + " production, "@ + decimal(
            e.test_call_sites as nat,
        ) + " test"@,
        ""@,
    ] + callers_lines(e.callers@, e.in_production_set)
}

fn show_defined(defined: &Vec<(String, usize)>, root: &str) -> (r: Vec<String>)
    ensures
        texts(r@) == defined_lines(place_views(defined@), root@),
{
    let ghost all = place_views(defined@);
    let ghost f = |p: (Seq<char>, nat)|
        "  defined      "@ + relative_to(p.0, root@) + ":"@ + decimal(p.1);
    let mut out: Vec<String> = Vec::new();
    assert(texts(out@) =~= seq![]);
    if defined.len() == 0 {
        say(&mut out, "  not defined in the scanned crates");
        return out;
    }
    let mut i: usize = 0;
    assert(texts(out@) =~= all.take(0).map_values(f));
    while i < defined.len()
        invariant
            0 <= i <= defined@.len(),
            all == place_views(defined@),
            f == (|p: (Seq<char>, nat)|
                "  defined      "@ + relative_to(p.0, root@) + ":"@ + decimal(p.1)),
            texts(out@) == all.take(i as int).map_values(f),
        decreases defined@.len() - i,
    {
        tell(
            &mut out,
            cat4(
                "  defined      ",
                relative(defined[i].0.as_str(), root).as_str(),
                ":",
                decimal_of(defined[i].1).as_str(),
            ),
        );
        proof {
            assert(all[i as int] == (defined@[i as int].0@, defined@[i as int].1 as nat));
            assert(all.take(i + 1).map_values(f) =~= all.take(i as int).map_values(f).push(
                f(all[i as int]),
            ));
        }
        i += 1;
    }
    assert(all.take(all.len() as int) =~= all);
    out
}

fn show_callers(callers: &Vec<Caller>, alive: bool) -> (r: Vec<String>)
    ensures
        texts(r@) == callers_lines(callers@, alive),
{
    let ghost all = callers@;
    let ghost f = |c: Caller| caller_line(c);
    let ghost lives = |c: Caller| c.live;
    let mut out: Vec<String> = Vec::new();
    assert(texts(out@) =~= seq![]);
    if callers.len() == 0 {
        say(&mut out, "  callers      none recorded");
        return out;
    }
    tell(
        &mut out,
        cat3(
            "  callers      (",
            decimal_of(callers.len()).as_str(),
            " recorded — 'live' means the caller is itself",
        ),
    );
    say(&mut out, "               reachable from a production entry point)");
    let ghost lead = texts(out@);
    let mut live: usize = 0;
    let mut i: usize = 0;
    proof {
        reveal(Seq::filter);
        assert(lead =~= lead + first_of(all.take(0), 12).map_values(f));
        assert(all.take(0).filter(lives).len() == 0);
    }
    while i < callers.len()
        invariant
            0 <= i <= callers@.len(),
            all == callers@,
            f == (|c: Caller| caller_line(c)),
            lives == (|c: Caller| c.live),
            texts(out@) == lead + first_of(all.take(i as int), 12).map_values(f),
            live == all.take(i as int).filter(lives).len(),
            live <= i,
        decreases callers@.len() - i,
    {
        let c = &callers[i];
        let ghost shown = texts(out@);
        if i < 12 {
            tell(
                &mut out,
                cat4(
                    "                 ",
                    left_of(c.name.as_str(), 34).as_str(),
                    " ",
                    if c.live {
                        "live"
                    } else {
                        "dead"
                    },
                ),
            );
        }
        if c.live {
            live += 1;
        }
        proof {
            crate::seqs::filter_step(all, lives, i as int);
            let short = first_of(all.take(i as int), 12).map_values(f);
            let long = first_of(all.take(i + 1), 12).map_values(f);
            if i < 12 {
                assert(lead + long =~= (lead + short).push(f(all[i as int])));
            } else {
                assert(long =~= short);
            }
        }
        i += 1;
    }
    assert(all.take(all.len() as int) =~= all);
    tell_all(&mut out, tell_more("                 ... and ", callers.len(), 12, " more"));
    let ghost listed = texts(out@);
    say(&mut out, "");
    assert(texts(out@) =~= listed + seq![""@]);
    let mut end: Vec<String> = Vec::new();
    assert(texts(end@) =~= seq![]);
    if live == 0 {
        say(&mut end, "  conclusion   every caller is itself unreachable, so this is");
        say(&mut end, "               downstream of a dead region rather than its cause");
    } else if !alive {
        tell(
            &mut end,
            cat3(
                "  conclusion   ",
                decimal_of(live).as_str(),
                " caller(s) are live but no edge to this function",
            ),
        );
        say(&mut end, "               was resolved — likely a limit of name-based matching");
    }
    tell_all(&mut out, end);
    out
}

/// What the analysis knows of one function, as a page.
pub fn explain(e: &Evidence, root: &str) -> (r: Vec<String>)
    ensures
        texts(r@) == evidence_lines(*e, root@),
{
    let mut out: Vec<String> = Vec::new();
    assert(texts(out@) =~= seq![]);
    tell(&mut out, e.name.clone());
    say(&mut out, "");
    tell_all(&mut out, show_defined(&e.defined, root));
    let mut verdict: Vec<String> = Vec::new();
    assert(texts(verdict@) =~= seq![]);
    say(&mut verdict, "");
    let status = if e.suppressed.is_some() {
        "NOT ANALYSED"
    } else if e.in_production_set {
        "reachable from production"
    } else if e.in_test_set {
        "UNREACHABLE — tests reach it, production cannot"
    } else {
        "UNREACHABLE — nothing reaches it at all"
    };
    tell(&mut verdict, cat2("  status       ", status));
    tell_all(&mut out, verdict);
    let mut held: Vec<String> = Vec::new();
    assert(texts(held@) =~= seq![]);
    if let Some(why) = e.suppressed {
        tell(&mut held, cat2("  suppressed   ", why));
    }
    tell_all(&mut out, held);
    let mut sites: Vec<String> = Vec::new();
    assert(texts(sites@) =~= seq![]);
    tell(
        &mut sites,
        cat2(
            "  entry point  ",
            if e.is_root {
                e.root_reason
            } else {
                "no"
            },
        ),
    );
    tell(
        &mut sites,
        cat5(
            "  call sites   ",
            decimal_of(e.prod_call_sites).as_str(),
            " production, ",
            decimal_of(e.test_call_sites).as_str(),
            " test",
        ),
    );
    say(&mut sites, "");
    tell_all(&mut out, sites);
    tell_all(&mut out, show_callers(&e.callers, e.in_production_set));
    out
}

// ---------------------------------------------------------------------------
// Coverage
// ---------------------------------------------------------------------------

/// How much of a crate the analysis leaves alone; `share` is the percentage,
/// written out.
pub open spec fn stats_lines(s: ScanView, share: Seq<char>) -> Seq<Seq<char>> {
    seq![
        "production functions      "@ + decimal(production(s)),
        "non-unique names          "@ + decimal(shared(s)) + " ("@ + share + "%)"@,
        ""@,
        "Findings are suppressed for non-unique names, because a"@,
        "name-keyed graph cannot tell A::process from B::process."@,
        "That share of the crate is never reported on, either way."@,
    ]
}

/// How much of a crate the analysis leaves alone, as a page.
pub fn stats(scan: &Scan, share: &str) -> (r: Vec<String>)
    ensures
        texts(r@) == stats_lines(scan@, share@),
{
    let (ambiguous, total) = ambiguity_report(scan);
    let mut out: Vec<String> = Vec::new();
    assert(texts(out@) =~= seq![]);
    tell(&mut out, cat2("production functions      ", decimal_of(total).as_str()));
    tell(
        &mut out,
        cat5(
            "non-unique names          ",
            decimal_of(ambiguous).as_str(),
            " (",
            share,
            "%)",
        ),
    );
    say(&mut out, "");
    say(&mut out, "Findings are suppressed for non-unique names, because a");
    say(&mut out, "name-keyed graph cannot tell A::process from B::process.");
    say(&mut out, "That share of the crate is never reported on, either way.");
    out
}

// ---------------------------------------------------------------------------
// The tests that a change calls for
// ---------------------------------------------------------------------------

/// The head of the page on a change.
pub open spec fn tests_lines(all: nat, always: nat) -> Seq<Seq<char>> {
    seq![title(), "  "@ + decimal(all) + " test(s) found in this project"@] + (if always > 0 {
        seq!["  "@ + decimal(always) + " of them cross a process boundary and always run"@]
    } else {
        seq![]
    }) + seq![""@]
}

/// The tests that need not run.
pub open spec fn spared(all: nat, hits: nat) -> nat {
    if all > hits {
        (all - hits) as nat
    } else {
        0
    }
}

/// What a change touches, and the tests that it calls for; `share` is the
/// percentage of tests that need not run, written out.
pub open spec fn affected_lines(
    changed: Seq<Seq<char>>,
    tests: Seq<Seq<char>>,
    all: nat,
    share: Seq<char>,
) -> Seq<Seq<char>> {
    if changed.len() == 0 {
        seq!["  No changed function was identified."@]
    } else {
        seq!["changed"@] + indented("  "@, first_of(changed, 12)) + and_more(
            "  … and "@,
            changed.len(),
            12,
            " more"@,
        ) + seq![
            ""@,
            "affected   "@ + decimal(tests.len()) + " of "@ + decimal(
                if all > tests.len() {
                    all
                } else {
                    tests.len()
                },
            ) + " test(s)"@,
        ] + indented("  "@, first_of(tests, 20)) + and_more(
            "  … and "@,
            tests.len(),
            20,
            " more"@,
        ) + seq![""@] + (if all > 0 {
            seq![
                "reduction  "@ + share + "%  ("@ + decimal(spared(all, tests.len()))
                    + " test(s) need not run)"@,
            ]
        } else {
            seq![]
        })
    }
}

/// What of a change could not be accounted for.
pub open spec fn unsound_lines(unmapped: Seq<Seq<char>>) -> Seq<Seq<char>> {
    if unmapped.len() == 0 {
        seq![]
    } else {
        seq![
            ""@,
            "NOT SOUND — "@ + decimal(unmapped.len()) + " part(s) of this change could not be"@,
            "attributed to a function, so the set below is incomplete:"@,
        ] + indented("  "@, first_of(unmapped, 10)) + seq![
            ""@,
            "Run the whole suite. A test-selection answer is only worth"@,
            "having when nothing about the change is unaccounted for."@,
        ]
    }
}

/// The page on a change.
pub open spec fn impact_lines(i: Impact, share: Seq<char>) -> Seq<Seq<char>> {
    tests_lines(i.all_tests as nat, i.always as nat) + affected_lines(
        texts(i.changed@),
        texts(i.tests@),
        i.all_tests as nat,
        share,
    ) + unsound_lines(texts(i.unmapped@))
}

fn show_affected(i: &Impact, share: &str) -> (r: Vec<String>)
    ensures
        texts(r@) == affected_lines(
            texts(i.changed@),
            texts(i.tests@),
            i.all_tests as nat,
            share@,
        ),
{
    let mut out: Vec<String> = Vec::new();
    assert(texts(out@) =~= seq![]);
    if i.changed.len() == 0 {
        say(&mut out, "  No changed function was identified.");
        return out;
    }
    let hits: usize = i.tests.len();
    say(&mut out, "changed");
    tell_all(&mut out, indent_first("  ", &i.changed, 12));
    tell_all(&mut out, tell_more("  … and ", i.changed.len(), 12, " more"));
    let mut affected: Vec<String> = Vec::new();
    assert(texts(affected@) =~= seq![]);
    say(&mut affected, "");
    let most: usize = if i.all_tests > hits {
        i.all_tests
    } else {
        hits
    };
    tell(
        &mut affected,
        cat5(
            "affected   ",
            decimal_of(hits).as_str(),
            " of ",
            decimal_of(most).as_str(),
            " test(s)",
        ),
    );
    tell_all(&mut out, affected);
    tell_all(&mut out, indent_first("  ", &i.tests, 20));
    tell_all(&mut out, tell_more("  … and ", hits, 20, " more"));
    let ghost listed = texts(out@);
    say(&mut out, "");
    assert(texts(out@) =~= listed + seq![""@]);
    let mut reduction: Vec<String> = Vec::new();
    assert(texts(reduction@) =~= seq![]);
    if i.all_tests > 0 {
        let left_out: usize = if i.all_tests > hits {
            i.all_tests - hits
        } else {
            0
        };
        tell(
            &mut reduction,
            cat5(
                "reduction  ",
                share,
                "%  (",
                decimal_of(left_out).as_str(),
                " test(s) need not run)",
            ),
        );
    }
    tell_all(&mut out, reduction);
    out
}

/// The page on a change.
pub fn report_impact(i: &Impact, share: &str) -> (r: Vec<String>)
    ensures
        texts(r@) == impact_lines(*i, share@),
{
    let mut out: Vec<String> = Vec::new();
    assert(texts(out@) =~= seq![]);
    tell(&mut out, cat2("landed v", VERSION));
    tell(&mut out, cat3("  ", decimal_of(i.all_tests).as_str(), " test(s) found in this project"));
    if i.always > 0 {
        tell(
            &mut out,
            cat3(
                "  ",
                decimal_of(i.always).as_str(),
                " of them cross a process boundary and always run",
            ),
        );
    }
    say(&mut out, "");
    assert(texts(out@) =~= tests_lines(i.all_tests as nat, i.always as nat));
    tell_all(&mut out, show_affected(i, share));
    let mut lost: Vec<String> = Vec::new();
    assert(texts(lost@) =~= seq![]);
    if i.unmapped.len() > 0 {
        say(&mut lost, "");
        tell(
            &mut lost,
            cat3(
                "NOT SOUND — ",
                decimal_of(i.unmapped.len()).as_str(),
                " part(s) of this change could not be",
            ),
        );
        say(&mut lost, "attributed to a function, so the set below is incomplete:");
        tell_all(&mut lost, indent_first("  ", &i.unmapped, 10));
        let ghost listed = texts(lost@);
        say(&mut lost, "");
        say(&mut lost, "Run the whole suite. A test-selection answer is only worth");
        say(&mut lost, "having when nothing about the change is unaccounted for.");
        assert(texts(lost@) =~= listed + seq![
            ""@,
            "Run the whole suite. A test-selection answer is only worth"@,
            "having when nothing about the change is unaccounted for."@,
        ]);
    }
    tell_all(&mut out, lost);
    out
}

// ---------------------------------------------------------------------------
// Against a baseline
// ---------------------------------------------------------------------------

/// What is said of a stale baseline.
pub open spec fn stale_lines(why: Option<Seq<char>>) -> Seq<Seq<char>> {
    match why {
        Some(why) => seq![
            "STALE BASELINE — "@ + why,
            "  Findings can move because the analysis changed, not because the"@,
            "  code did. Re-take it with `landed baseline` once you have read"@,
            "  what follows."@,
            ""@,
        ],
        None => seq![],
    }
}

/// What is gone since the baseline was taken.
pub open spec fn cleared_lines(cleared: Seq<AcceptedView>) -> Seq<Seq<char>> {
    if cleared.len() == 0 {
        seq![]
    } else {
        seq!["CLEARED — "@ + decimal(cleared.len()) + " baseline finding(s) no longer present"@]
            + first_of(cleared, 10).map_values(
            |e: AcceptedView| "  "@ + e.name + "  "@ + e.file,
        ) + and_more("  ... and "@, cleared.len(), 10, " more"@) + seq![""@]
    }
}

/// What is new since the baseline was taken.
pub open spec fn added_lines(added: Seq<AcceptedView>, carried: nat) -> Seq<Seq<char>> {
    if added.len() == 0 {
        seq![
            "No new unreachable code. "@ + decimal(carried)
                + " finding(s) carried from the baseline."@,
        ]
    } else {
        seq![
            "NEW — "@ + decimal(added.len()) + " finding(s) not in the baseline"@,
            rule(74),
        ] + added.map_values(|e: AcceptedView| "  "@ + left(e.name, 32) + " "@ + e.file) + seq![
            rule(74),
            "  "@ + decimal(carried) + " carried from the baseline, not shown"@,
        ]
    }
}

/// The page of a run against a baseline, below its head.
pub open spec fn comparison_lines(c: Comparison, why: Option<Seq<char>>) -> Seq<Seq<char>> {
    stale_lines(why) + cleared_lines(views(c.cleared@)) + added_lines(
        views(c.added@),
        c.carried as nat,
    )
}

fn show_cleared(cleared: &Vec<Entry>) -> (r: Vec<String>)
    ensures
        texts(r@) == cleared_lines(views(cleared@)),
{
    let ghost all = views(cleared@);
    let ghost f = |e: AcceptedView| "  "@ + e.name + "  "@ + e.file;
    let mut out: Vec<String> = Vec::new();
    assert(texts(out@) =~= seq![]);
    if cleared.len() == 0 {
        return out;
    }
    tell(
        &mut out,
        cat3(
            "CLEARED — ",
            decimal_of(cleared.len()).as_str(),
            " baseline finding(s) no longer present",
        ),
    );
    let ghost lead = texts(out@);
    let mut i: usize = 0;
    assert(lead =~= lead + all.take(0).map_values(f));
    while i < cleared.len() && i < 10
        invariant
            0 <= i <= cleared@.len(),
            i <= 10,
            all == views(cleared@),
            f == (|e: AcceptedView| "  "@ + e.name + "  "@ + e.file),
            texts(out@) == lead + all.take(i as int).map_values(f),
        decreases cleared@.len() - i,
    {
        tell(
            &mut out,
            cat4("  ", cleared[i].name.as_str(), "  ", cleared[i].file.as_str()),
        );
        proof {
            assert(all[i as int] == cleared@[i as int]@);
            assert(lead + all.take(i + 1).map_values(f) =~= (lead + all.take(
                i as int,
            ).map_values(f)).push(f(all[i as int])));
        }
        i += 1;
    }
    assert(all.take(i as int) =~= first_of(all, 10));
    tell_all(&mut out, tell_more("  ... and ", cleared.len(), 10, " more"));
    let ghost listed = texts(out@);
    say(&mut out, "");
    assert(texts(out@) =~= listed + seq![""@]);
    out
}

fn show_added(added: &Vec<Entry>, carried: usize) -> (r: Vec<String>)
    ensures
        texts(r@) == added_lines(views(added@), carried as nat),
{
    let ghost all = views(added@);
    let ghost f = |e: AcceptedView| "  "@ + left(e.name, 32) + " "@ + e.file;
    let mut out: Vec<String> = Vec::new();
    assert(texts(out@) =~= seq![]);
    if added.len() == 0 {
        tell(
            &mut out,
            cat3(
                "No new unreachable code. ",
                decimal_of(carried).as_str(),
                " finding(s) carried from the baseline.",
            ),
        );
        return out;
    }
    tell(
        &mut out,
        cat3("NEW — ", decimal_of(added.len()).as_str(), " finding(s) not in the baseline"),
    );
    tell(&mut out, rule_of(74));
    let ghost lead = texts(out@);
    let mut i: usize = 0;
    assert(lead =~= lead + all.take(0).map_values(f));
    while i < added.len()
        invariant
            0 <= i <= added@.len(),
            all == views(added@),
            f == (|e: AcceptedView| "  "@ + left(e.name, 32) + " "@ + e.file),
            texts(out@) == lead + all.take(i as int).map_values(f),
        decreases added@.len() - i,
    {
        tell(
            &mut out,
            cat4(
                "  ",
                left_of(added[i].name.as_str(), 32).as_str(),
                " ",
                added[i].file.as_str(),
            ),
        );
        proof {
            assert(all[i as int] == added@[i as int]@);
            assert(lead + all.take(i + 1).map_values(f) =~= (lead + all.take(
                i as int,
            ).map_values(f)).push(f(all[i as int])));
        }
        i += 1;
    }
    assert(all.take(all.len() as int) =~= all);
    let ghost listed = texts(out@);
    tell(&mut out, rule_of(74));
    tell(
        &mut out,
        cat3("  ", decimal_of(carried).as_str(), " carried from the baseline, not shown"),
    );
    assert(texts(out@) =~= listed + seq![
        rule(74),
        "  "@ + decimal(carried as nat) + " carried from the baseline, not shown"@,
    ]);
    out
}

/// The page of a run against a baseline, below its head.
pub fn report_comparison(c: &Comparison, why: &Option<String>) -> (r: Vec<String>)
    ensures
        texts(r@) == comparison_lines(*c, crate::ir::opt(*why)),
{
    let mut out: Vec<String> = Vec::new();
    assert(texts(out@) =~= seq![]);
    if let Some(why) = why {
        tell(&mut out, cat2("STALE BASELINE — ", why.as_str()));
        say(&mut out, "  Findings can move because the analysis changed, not because the");
        say(&mut out, "  code did. Re-take it with `landed baseline` once you have read");
        say(&mut out, "  what follows.");
        say(&mut out, "");
    }
    tell_all(&mut out, show_cleared(&c.cleared));
    tell_all(&mut out, show_added(&c.added, c.carried));
    out
}

/// What is said once a baseline is written.
pub open spec fn written_lines(file: Seq<char>, accepted: nat) -> Seq<Seq<char>> {
    seq![
        "wrote "@ + file + " — "@ + decimal(accepted) + " finding(s) accepted"@,
        ""@,
        "Commit this file. Later runs with --baseline report only what is"@,
        "new, so CI can gate on additions without demanding the backlog"@,
        "be cleared first."@,
    ]
}

/// What is said once a baseline is written.
pub fn report_written(file: &str, accepted: usize) -> (r: Vec<String>)
    ensures
        texts(r@) == written_lines(file@, accepted as nat),
{
    let mut out: Vec<String> = Vec::new();
    assert(texts(out@) =~= seq![]);
    tell(
        &mut out,
        cat5("wrote ", file, " — ", decimal_of(accepted).as_str(), " finding(s) accepted"),
    );
    say(&mut out, "");
    say(&mut out, "Commit this file. Later runs with --baseline report only what is");
    say(&mut out, "new, so CI can gate on additions without demanding the backlog");
    say(&mut out, "be cleared first.");
    out
}

// ---------------------------------------------------------------------------
// What a run does, and when it fails
// ---------------------------------------------------------------------------

/// What a check shows.
#[derive(Debug, Clone, Copy, PartialEq, Eq, Structural)]
pub enum Page {
    /// One function.
    Explain,
    /// How much is left alone.
    Stats,
    /// The call graph.
    Dot,
    /// What changed since a baseline.
    Baseline,
    /// Unreachable code by region.
    Regions,
    /// Unreachable code function by function.
    Findings,
}

/// The page that is asked for: what is asked for by name goes first.
pub open spec fn page_asked(
    explain: bool,
    stats: bool,
    dot: bool,
    baseline: bool,
    graph: bool,
    flat: bool,
) -> Page {
    if explain {
        Page::Explain
    } else if stats {
        Page::Stats
    } else if dot {
        Page::Dot
    } else if baseline {
        Page::Baseline
    } else if graph && !flat {
        Page::Regions
    } else {
        Page::Findings
    }
}

/// The page that a check shows: what is asked for by name goes first, and
/// regions are the unit of a run over the graph.
pub fn page(explain: bool, stats: bool, dot: bool, baseline: bool, graph: bool, flat: bool) -> (r:
    Page)
    ensures
        r == page_asked(explain, stats, dot, baseline, graph, flat),
        (r == Page::Explain) == explain,
        (r == Page::Stats) == (!explain && stats),
        (r == Page::Dot) == (!explain && !stats && dot),
        (r == Page::Baseline) == (!explain && !stats && !dot && baseline),
        (r == Page::Regions) == (!explain && !stats && !dot && !baseline && graph && !flat),
        (r == Page::Findings) == (!explain && !stats && !dot && !baseline && (!graph || flat)),
{
    if explain {
        Page::Explain
    } else if stats {
        Page::Stats
    } else if dot {
        Page::Dot
    } else if baseline {
        Page::Baseline
    } else if graph && !flat {
        Page::Regions
    } else {
        Page::Findings
    }
}

/// The form in which findings are handed out.
#[derive(Debug, Clone, Copy, PartialEq, Eq, Structural)]
pub enum Format {
    Json,
    Github,
    Sarif,
    Text,
}

/// The form that is asked for; text where the word means nothing.
pub open spec fn format_named(json: bool, word: Seq<char>) -> Format {
    if json || word == "json"@ {
        Format::Json
    } else if word == "github"@ {
        Format::Github
    } else if word == "sarif"@ {
        Format::Sarif
    } else {
        Format::Text
    }
}

impl Format {
    pub fn of(json: bool, word: &str) -> (r: Self)
        ensures
            r == format_named(json, word@),
    {
        if json || crate::text::same(word, "json") {
            Format::Json
        } else if crate::text::same(word, "github") {
            Format::Github
        } else if crate::text::same(word, "sarif") {
            Format::Sarif
        } else {
            Format::Text
        }
    }
}

/// A run fails on this many findings.
pub open spec fn too_many(found: nat, fail_over: nat) -> bool {
    fail_over > 0 && found > fail_over
}

/// A run against a baseline fails on this many new findings.
pub open spec fn stopped(added: nat, fail_over: nat) -> bool {
    added > fail_over
}

/// Whether a run fails on this many findings: where a limit is set and they
/// exceed it.
pub fn exceeds(found: usize, fail_over: usize) -> (r: bool)
    ensures
        r == too_many(found as nat, fail_over as nat),
        r == (fail_over > 0 && found > fail_over),
{
    fail_over > 0 && found > fail_over
}

/// Whether a run against a baseline fails on this many new findings: on any,
/// unless a limit is set.
pub fn gate(added: usize, fail_over: usize) -> (r: bool)
    ensures
        r == stopped(added as nat, fail_over as nat),
        r == (added > fail_over),
{
    (added > 0 && fail_over == 0) || (fail_over > 0 && added > fail_over)
}

} // verus!
