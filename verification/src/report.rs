//! What a run hands to other programs: a report with totals, annotations for a
//! pull request, and results for code scanning.

use vstd::prelude::*;

use crate::baseline::relative;
use crate::baseline::relative_to;
use crate::baseline::VERSION;
use crate::findings::ambiguity_report;
use crate::findings::ambiguous;
use crate::findings::production_count;
use crate::findings::Confidence;
use crate::findings::Finding;
use crate::findings::FindingView;
use crate::ir::views;
use crate::number::decimal;
use crate::number::decimal_of;
use crate::regions::total_size;
use crate::regions::Region;
use crate::regions::RegionView;
use crate::scan::Scan;
use crate::scan::ScanView;
use crate::text::cat5;
use crate::text::literals;

verus! {

/// Raised when a field changes its meaning or goes. A field that is added
/// raises nothing: readers pass over keys that they do not know.
pub const SCHEMA_VERSION: u32 = 1;

// ---------------------------------------------------------------------------
// The report
// ---------------------------------------------------------------------------

/// Totals, so that no reader has to work them out again.
#[derive(Debug)]
pub struct Summary {
    /// Functions defined outside test code.
    pub production_functions: usize,
    /// Those of them that share a name with another and are never judged.
    pub unanalysable_names: usize,
    /// Functions that nothing in production reaches.
    pub unreachable: usize,
    /// Findings, or regions where they are grouped, with high confidence.
    pub confident: usize,
    /// The other findings or regions.
    pub uncertain: usize,
    pub regions: usize,
    /// How many findings the default tier has, on a precise run.
    pub nominal_findings: Option<usize>,
}

#[derive(Debug)]
pub struct Report<'a> {
    pub schema: u32,
    pub tool: &'static str,
    pub tool_version: &'static str,
    /// `direct`, function by function, or `graph`, by reachability.
    pub mode: &'static str,
    pub summary: Summary,
    pub findings: Option<&'a [Finding]>,
    pub regions: Option<&'a [Region]>,
}

/// The findings that are trusted so far.
pub open spec fn trusted(found: Seq<FindingView>, c: Confidence) -> Seq<FindingView> {
    found.filter(|f: FindingView| f.confidence == c)
}

/// The regions that are trusted so far.
pub open spec fn trusted_regions(rs: Seq<RegionView>, c: Confidence) -> Seq<RegionView> {
    rs.filter(|r: RegionView| r.confidence == c)
}

/// What a report says of the scan itself.
pub open spec fn coverage(s: ScanView, m: Summary) -> bool {
    &&& m.production_functions as nat == production_count(s.defs, |k: Seq<char>| true)
    &&& m.unanalysable_names as nat == production_count(s.defs, |k: Seq<char>| ambiguous(s, k))
}

fn count_trusted(found: &[Finding], c: Confidence) -> (r: usize)
    ensures
        r == trusted(views(found@), c).len(),
{
    let ghost all = views(found@);
    let ghost keep = |f: FindingView| f.confidence == c;
    let len: usize = found.len();
    let mut n: usize = 0;
    let mut i: usize = 0;
    proof {
        reveal(Seq::filter);
        assert(all.take(0).filter(keep).len() == 0);
    }
    while i < len
        invariant
            0 <= i <= len,
            len == found@.len(),
            all == views(found@),
            keep == (|f: FindingView| f.confidence == c),
            n == all.take(i as int).filter(keep).len(),
            n <= i,
        decreases len - i,
    {
        proof {
            crate::seqs::filter_step(all, keep, i as int);
            assert(all[i as int].confidence == found@[i as int].confidence);
        }
        if found[i].confidence == c {
            n += 1;
        }
        i += 1;
    }
    assert(all.take(all.len() as int) =~= all);
    n
}

/// The totals of findings one by one.
pub open spec fn flat_totals(found: Seq<FindingView>, m: Summary) -> bool {
    &&& m.unreachable == found.len()
    &&& m.confident == trusted(found, Confidence::High).len()
    &&& m.uncertain == trusted(found, Confidence::Medium).len()
    &&& m.regions == 0
}

/// The totals of findings by region.
pub open spec fn grouped_totals(rs: Seq<RegionView>, m: Summary) -> bool {
    &&& m.unreachable == total_size(rs)
    &&& m.confident == trusted_regions(rs, Confidence::High).len()
    &&& m.confident + m.uncertain == m.regions
    &&& m.regions == rs.len()
}

/// The word for an analysis.
pub open spec fn analysis_word(graph: bool) -> Seq<char> {
    if graph {
        "graph"@
    } else {
        "direct"@
    }
}

/// The report of findings one by one.
pub fn flat<'a>(scan: &Scan, findings: &'a [Finding], graph: bool) -> (r: Report<'a>)
    ensures
        r.schema == SCHEMA_VERSION,
        r.tool@ == "landed"@,
        r.tool_version@ == VERSION@,
        r.mode@ == (if graph {
            "graph"@
        } else {
            "direct"@
        }),
        coverage(scan@, r.summary),
        flat_totals(views(findings@), r.summary),
        r.mode@ == analysis_word(graph),
        r.summary.unreachable == findings@.len(),
        r.summary.confident == trusted(views(findings@), Confidence::High).len(),
        r.summary.uncertain == trusted(views(findings@), Confidence::Medium).len(),
        r.summary.regions == 0,
        r.summary.nominal_findings == scan.nominal_findings,
        r.findings == Some(findings),
        r.regions is None,
{
    let (unanalysable, production) = ambiguity_report(scan);
    Report {
        schema: SCHEMA_VERSION,
        tool: "landed",
        tool_version: VERSION,
        mode: if graph {
            "graph"
        } else {
            "direct"
        },
        summary: Summary {
            production_functions: production,
            unanalysable_names: unanalysable,
            unreachable: findings.len(),
            confident: count_trusted(findings, Confidence::High),
            uncertain: count_trusted(findings, Confidence::Medium),
            regions: 0,
            nominal_findings: scan.nominal_findings,
        },
        findings: Some(findings),
        regions: None,
    }
}

/// The size of all regions together, and how many have high confidence.
pub fn sizes(regions: &[Region]) -> (r: (usize, usize))
    requires
        total_size(views(regions@)) <= usize::MAX,
    ensures
        r.0 == total_size(views(regions@)),
        r.1 == trusted_regions(views(regions@), Confidence::High).len(),
        r.1 <= regions@.len(),
{
    let ghost all = views(regions@);
    let ghost keep = |r: RegionView| r.confidence == Confidence::High;
    let len: usize = regions.len();
    let mut total: usize = 0;
    let mut sure: usize = 0;
    let mut i: usize = 0;
    proof {
        assert(all.skip(0) =~= all);
        reveal(Seq::filter);
        assert(all.take(0).filter(keep).len() == 0);
    }
    while i < len
        invariant
            0 <= i <= len,
            len == regions@.len(),
            all == views(regions@),
            keep == (|r: RegionView| r.confidence == Confidence::High),
            total_size(all) <= usize::MAX,
            total + total_size(all.skip(i as int)) == total_size(all),
            sure == all.take(i as int).filter(keep).len(),
            sure <= i,
        decreases len - i,
    {
        proof {
            let rest = all.skip(i as int);
            assert(rest[0] == regions@[i as int]@);
            assert(rest.skip(1) =~= all.skip(i + 1));
            crate::seqs::filter_step(all, keep, i as int);
        }
        total += regions[i].size;
        if regions[i].confidence == Confidence::High {
            sure += 1;
        }
        i += 1;
    }
    assert(all.take(all.len() as int) =~= all);
    (total, sure)
}

/// The report of findings by region.
pub fn grouped<'a>(scan: &Scan, regions: &'a [Region]) -> (r: Report<'a>)
    requires
        total_size(views(regions@)) <= usize::MAX,
    ensures
        r.schema == SCHEMA_VERSION,
        r.tool@ == "landed"@,
        r.tool_version@ == VERSION@,
        r.mode@ == "graph"@,
        coverage(scan@, r.summary),
        grouped_totals(views(regions@), r.summary),
        r.mode@ == analysis_word(true),
        r.summary.unreachable == total_size(views(regions@)),
        r.summary.confident == trusted_regions(views(regions@), Confidence::High).len(),
        r.summary.confident + r.summary.uncertain == r.summary.regions,
        r.summary.regions == regions@.len(),
        r.summary.nominal_findings == scan.nominal_findings,
        r.findings is None,
        r.regions == Some(regions),
{
    let (unanalysable, production) = ambiguity_report(scan);
    let (total, sure) = sizes(regions);
    Report {
        schema: SCHEMA_VERSION,
        tool: "landed",
        tool_version: VERSION,
        mode: "graph",
        summary: Summary {
            production_functions: production,
            unanalysable_names: unanalysable,
            unreachable: total,
            confident: sure,
            uncertain: regions.len() - sure,
            regions: regions.len(),
            nominal_findings: scan.nominal_findings,
        },
        findings: None,
        regions: Some(regions),
    }
}

// ---------------------------------------------------------------------------
// Annotations
// ---------------------------------------------------------------------------

/// The weight of an annotation: what the analysis is unsure of does not stand
/// on a diff like what it can prove.
pub open spec fn level_of(c: Confidence) -> Seq<char> {
    match c {
        Confidence::High => "warning"@,
        Confidence::Medium => "notice"@,
    }
}

/// An annotation on one line of a file.
pub open spec fn annotation(
    c: Confidence,
    file: Seq<char>,
    line: nat,
    detail: Seq<char>,
) -> Seq<char> {
    "::"@ + level_of(c) + " file="@ + file + ",line="@ + decimal(line) + ",title=landed::"@ + detail
        + "\n"@
}

/// What an annotation says of a finding.
pub open spec fn finding_detail(f: FindingView) -> Seq<char> {
    match f.confidence {
        Confidence::High => f.name + " is never called outside tests ("@ + decimal(f.test_calls)
            + " test call(s), 0 from production)"@,
        Confidence::Medium => f.name + " may be unreachable: "@ + decimal(f.prod_calls)
            + " production caller(s) exist but each looks unreachable itself, which can also mean an entry point this analyzer cannot resolve"@,
    }
}

/// What is said of a region, at its way in.
pub open spec fn region_detail(r: RegionView) -> Seq<char> {
    if r.size > 1 {
        r.entry.name + " is the entry to "@ + decimal(r.size)
            + " functions nothing in production reaches; they resolve when it does"@
    } else {
        r.entry.name + " is never called outside tests"@
    }
}

/// The annotations of findings, one behind the other.
pub open spec fn annotations(found: Seq<FindingView>, root: Seq<char>) -> Seq<char>
    decreases found.len(),
{
    if found.len() == 0 {
        seq![]
    } else {
        let f = found.last();
        annotations(found.drop_last(), root) + annotation(
            f.confidence,
            relative_to(f.file, root),
            f.line,
            finding_detail(f),
        )
    }
}

/// The annotations of regions, one behind the other.
pub open spec fn region_annotations(rs: Seq<RegionView>, root: Seq<char>) -> Seq<char>
    decreases rs.len(),
{
    if rs.len() == 0 {
        seq![]
    } else {
        let r = rs.last();
        region_annotations(rs.drop_last(), root) + annotation(
            r.confidence,
            relative_to(r.entry.file, root),
            r.entry.line,
            region_detail(r),
        )
    }
}

fn annotate(c: Confidence, file: &str, line: usize, detail: &str) -> (r: String)
    ensures
        r@ == annotation(c, file@, line as nat, detail@),
{
    let level = match c {
        Confidence::High => "warning",
        Confidence::Medium => "notice",
    };
    let mut out = cat5("::", level, " file=", file, ",line=");
    out.append(decimal_of(line).as_str());
    out.append(",title=landed::");
    out.append(detail);
    out.append("\n");
    out
}

fn told_region(r: &Region) -> (t: String)
    ensures
        t@ == region_detail(r@),
{
    let mut out = r.entry.name.clone();
    if r.size > 1 {
        out.append(" is the entry to ");
        out.append(decimal_of(r.size).as_str());
        out.append(" functions nothing in production reaches; they resolve when it does");
    } else {
        out.append(" is never called outside tests");
    }
    out
}

/// Workflow commands that put each finding on its line in a pull request.
pub fn github(findings: &[Finding], root: &str) -> (r: String)
    ensures
        r@ == annotations(views(findings@), root@),
{
    let ghost all = views(findings@);
    let len: usize = findings.len();
    let mut out = String::new();
    let mut i: usize = 0;
    while i < len
        invariant
            0 <= i <= len,
            len == findings@.len(),
            all == views(findings@),
            out@ == annotations(all.take(i as int), root@),
        decreases len - i,
    {
        let f = &findings[i];
        let mut detail = f.name.clone();
        match f.confidence {
            Confidence::High => {
                detail.append(" is never called outside tests (");
                detail.append(decimal_of(f.test_calls).as_str());
                detail.append(" test call(s), 0 from production)");
            },
            Confidence::Medium => {
                detail.append(" may be unreachable: ");
                detail.append(decimal_of(f.prod_calls).as_str());
                detail.append(
                    " production caller(s) exist but each looks unreachable itself, which can also mean an entry point this analyzer cannot resolve",
                );
            },
        }
        let file = relative(f.file.as_str(), root);
        out.append(annotate(f.confidence, file.as_str(), f.line, detail.as_str()).as_str());
        proof {
            let t = all.take(i + 1);
            assert(t.drop_last() =~= all.take(i as int));
            assert(t.last() == f@);
        }
        i += 1;
    }
    assert(all.take(all.len() as int) =~= all);
    out
}

/// Workflow commands for regions, one at each way in: what lies behind it
/// resolves when it does.
pub fn github_regions(regions: &[Region], root: &str) -> (r: String)
    ensures
        r@ == region_annotations(views(regions@), root@),
{
    let ghost all = views(regions@);
    let len: usize = regions.len();
    let mut out = String::new();
    let mut i: usize = 0;
    while i < len
        invariant
            0 <= i <= len,
            len == regions@.len(),
            all == views(regions@),
            out@ == region_annotations(all.take(i as int), root@),
        decreases len - i,
    {
        let x = &regions[i];
        let detail = told_region(x);
        let file = relative(x.entry.file.as_str(), root);
        out.append(annotate(x.confidence, file.as_str(), x.entry.line, detail.as_str()).as_str());
        proof {
            let t = all.take(i + 1);
            assert(t.drop_last() =~= all.take(i as int));
            assert(t.last() == x@);
        }
        i += 1;
    }
    assert(all.take(all.len() as int) =~= all);
    out
}

// ---------------------------------------------------------------------------
// Code scanning
// ---------------------------------------------------------------------------

/// A rule that results refer to, so that a dashboard can follow it over time.
#[derive(Debug)]
pub struct Rule {
    pub id: &'static str,
    pub name: &'static str,
    pub short: &'static str,
    pub full: &'static str,
    pub level: &'static str,
    pub tags: Vec<&'static str>,
}

/// What a rule says.
#[verifier::ext_equal]
pub struct RuleView {
    pub id: Seq<char>,
    pub name: Seq<char>,
    pub short: Seq<char>,
    pub full: Seq<char>,
    pub level: Seq<char>,
    pub tags: Seq<Seq<char>>,
}

impl View for Rule {
    type V = RuleView;

    open spec fn view(&self) -> RuleView {
        RuleView {
            id: self.id@,
            name: self.name@,
            short: self.short@,
            full: self.full@,
            level: self.level@,
            tags: literals(self.tags@),
        }
    }
}

/// What a result says.
#[verifier::ext_equal]
pub struct ResultView {
    pub rule: Seq<char>,
    pub level: Seq<char>,
    pub text: Seq<char>,
    pub file: Seq<char>,
    pub line: nat,
    pub fingerprint: Seq<char>,
}

/// One result of a run.
#[derive(Debug)]
pub struct SarifResult {
    pub rule: &'static str,
    pub level: &'static str,
    pub text: String,
    /// Relative to the root of the sources.
    pub file: String,
    /// Counted from one.
    pub line: usize,
    /// Free of the line, so that it stays while the code above it moves.
    pub fingerprint: String,
}

impl View for SarifResult {
    type V = ResultView;

    open spec fn view(&self) -> ResultView {
        ResultView {
            rule: self.rule@,
            level: self.level@,
            text: self.text@,
            file: self.file@,
            line: self.line as nat,
            fingerprint: self.fingerprint@,
        }
    }
}

/// A run in the form of SARIF 2.1.0.
#[derive(Debug)]
pub struct SarifLog {
    pub schema: &'static str,
    pub version: &'static str,
    pub tool: &'static str,
    pub tool_version: &'static str,
    pub information_uri: &'static str,
    pub rules: Vec<Rule>,
    pub results: Vec<SarifResult>,
}

/// The result of a rule at a place.
pub open spec fn placed_result(
    rule: Seq<char>,
    level: Seq<char>,
    text: Seq<char>,
    file: Seq<char>,
    line: nat,
) -> ResultView {
    ResultView {
        rule,
        level,
        text,
        file,
        line: if line == 0 {
            1
        } else {
            line
        },
        fingerprint: file + ":"@ + rule,
    }
}

/// The rule that a judgement falls under, and its level; `sure` is the rule
/// of what is certain.
pub open spec fn judged(c: Confidence, sure: Seq<char>) -> (Seq<char>, Seq<char>) {
    match c {
        Confidence::High => (sure, "warning"@),
        Confidence::Medium => ("possibly-unreachable"@, "note"@),
    }
}

/// The result that a finding gives.
pub open spec fn finding_result(f: FindingView, root: Seq<char>) -> ResultView {
    let (rule, level) = judged(f.confidence, "unreachable-function"@);
    placed_result(
        rule,
        level,
        f.name + " is never called outside tests ("@ + decimal(f.test_calls) + " test call(s), "@
            + decimal(f.prod_calls) + " from production)"@,
        relative_to(f.file, root),
        f.line,
    )
}

/// The result that a region gives, at its way in.
pub open spec fn region_result(r: RegionView, root: Seq<char>) -> ResultView {
    let (rule, level) = judged(r.confidence, "unreachable-region"@);
    placed_result(rule, level, region_detail(r), relative_to(r.entry.file, root), r.entry.line)
}

/// The results of a run, by region where there are regions.
pub open spec fn results_of(
    found: Seq<FindingView>,
    regions: Option<Seq<RegionView>>,
    root: Seq<char>,
) -> Seq<ResultView> {
    match regions {
        Some(rs) => rs.map_values(|r: RegionView| region_result(r, root)),
        None => found.map_values(|f: FindingView| finding_result(f, root)),
    }
}

/// The rule for a function that nothing outside tests calls.
pub open spec fn function_rule() -> RuleView {
    RuleView {
        id: "unreachable-function"@,
        name: "UnreachableFunction"@,
        short: "Function is never called outside tests"@,
        full: "This function exists in production code, but no production caller reaches it. The tests exercise it, so it compiles and passes CI while never running."@,
        level: "warning"@,
        tags: seq!["dead-code"@, "reachability"@],
    }
}

/// The rule for the way into a region.
pub open spec fn region_rule() -> RuleView {
    RuleView {
        id: "unreachable-region"@,
        name: "UnreachableRegion"@,
        short: "Entry point of a subsystem nothing reaches"@,
        full: "Everything downstream of this function is reachable only through it, and nothing in production reaches it. Resolving this function resolves the whole region."@,
        level: "warning"@,
        tags: seq!["dead-code"@, "reachability"@],
    }
}

/// The rule for what the analysis is unsure of.
pub open spec fn unsure_rule() -> RuleView {
    RuleView {
        id: "possibly-unreachable"@,
        name: "PossiblyUnreachable"@,
        short: "Unreachable, but the analyzer is unsure"@,
        full: "Production callers exist, but each of them also looks unreachable. That is either a dead subsystem or an entry point this analyzer cannot resolve \u{2014} async spawns, trait objects and stored closures all break name-based edges."@,
        level: "note"@,
        tags: seq!["dead-code"@, "reachability"@, "low-confidence"@],
    }
}

/// The rules that results refer to.
pub open spec fn all_rules() -> Seq<RuleView> {
    seq![function_rule(), region_rule(), unsure_rule()]
}

fn result_at(
    rule: &'static str,
    level: &'static str,
    text: String,
    file: String,
    line: usize,
) -> (r: SarifResult)
    ensures
        r@ == placed_result(rule@, level@, text@, file@, line as nat),
{
    let mut fingerprint = file.clone();
    fingerprint.append(":");
    fingerprint.append(rule);
    SarifResult {
        rule,
        level,
        text,
        file,
        line: if line == 0 {
            1
        } else {
            line
        },
        fingerprint,
    }
}

fn judge(c: Confidence, sure: &'static str) -> (r: (&'static str, &'static str))
    ensures
        (r.0@, r.1@) == judged(c, sure@),
{
    match c {
        Confidence::High => (sure, "warning"),
        Confidence::Medium => ("possibly-unreachable", "note"),
    }
}

/// The rules that results refer to.
pub fn rules() -> (r: Vec<Rule>)
    ensures
        views(r@) == all_rules(),
{
    let function = Rule {
        id: "unreachable-function",
        name: "UnreachableFunction",
        short: "Function is never called outside tests",
        full: "This function exists in production code, but no production caller reaches it. The tests exercise it, so it compiles and passes CI while never running.",
        level: "warning",
        tags: vec!["dead-code", "reachability"],
    };
    let region = Rule {
        id: "unreachable-region",
        name: "UnreachableRegion",
        short: "Entry point of a subsystem nothing reaches",
        full: "Everything downstream of this function is reachable only through it, and nothing in production reaches it. Resolving this function resolves the whole region.",
        level: "warning",
        tags: vec!["dead-code", "reachability"],
    };
    let unsure = Rule {
        id: "possibly-unreachable",
        name: "PossiblyUnreachable",
        short: "Unreachable, but the analyzer is unsure",
        full: "Production callers exist, but each of them also looks unreachable. That is either a dead subsystem or an entry point this analyzer cannot resolve \u{2014} async spawns, trait objects and stored closures all break name-based edges.",
        level: "note",
        tags: vec!["dead-code", "reachability", "low-confidence"],
    };
    assert(function@ =~~= function_rule());
    assert(region@ =~~= region_rule());
    assert(unsure@ =~~= unsure_rule());
    let r = vec![function, region, unsure];
    assert(views(r@) =~= all_rules());
    r
}

fn finding_results(findings: &[Finding], root: &str) -> (r: Vec<SarifResult>)
    ensures
        views(r@) == results_of(views(findings@), None, root@),
{
    let ghost all = views(findings@);
    let ghost told = |f: FindingView| finding_result(f, root@);
    let len: usize = findings.len();
    let mut r: Vec<SarifResult> = Vec::new();
    let mut i: usize = 0;
    assert(views(r@) =~= all.take(0).map_values(told));
    while i < len
        invariant
            0 <= i <= len,
            len == findings@.len(),
            all == views(findings@),
            told == (|f: FindingView| finding_result(f, root@)),
            views(r@) == all.take(i as int).map_values(told),
        decreases len - i,
    {
        let f = &findings[i];
        let ghost before = r@;
        let (rule, level) = judge(f.confidence, "unreachable-function");
        let mut text = cat5(
            f.name.as_str(),
            " is never called outside tests (",
            decimal_of(f.test_calls).as_str(),
            " test call(s), ",
            decimal_of(f.prod_calls).as_str(),
        );
        text.append(" from production)");
        r.push(result_at(rule, level, text, relative(f.file.as_str(), root), f.line));
        proof {
            assert(all[i as int] == f@);
            assert(views(r@) =~= views(before).push(told(f@)));
            assert(all.take(i + 1) =~= all.take(i as int).push(f@));
            crate::seqs::map_push(all.take(i as int), told, f@);
        }
        i += 1;
    }
    assert(all.take(all.len() as int) =~= all);
    r
}

fn region_results(regions: &[Region], root: &str) -> (r: Vec<SarifResult>)
    ensures
        views(r@) == results_of(seq![], Some(views(regions@)), root@),
{
    let ghost all = views(regions@);
    let ghost told = |x: RegionView| region_result(x, root@);
    let len: usize = regions.len();
    let mut r: Vec<SarifResult> = Vec::new();
    let mut i: usize = 0;
    assert(views(r@) =~= all.take(0).map_values(told));
    while i < len
        invariant
            0 <= i <= len,
            len == regions@.len(),
            all == views(regions@),
            told == (|x: RegionView| region_result(x, root@)),
            views(r@) == all.take(i as int).map_values(told),
        decreases len - i,
    {
        let x = &regions[i];
        let ghost before = r@;
        let (rule, level) = judge(x.confidence, "unreachable-region");
        r.push(
            result_at(
                rule,
                level,
                told_region(x),
                relative(x.entry.file.as_str(), root),
                x.entry.line,
            ),
        );
        proof {
            assert(all[i as int] == x@);
            assert(views(r@) =~= views(before).push(told(x@)));
            assert(all.take(i + 1) =~= all.take(i as int).push(x@));
            crate::seqs::map_push(all.take(i as int), told, x@);
        }
        i += 1;
    }
    assert(all.take(all.len() as int) =~= all);
    r
}

/// The regions that are handed on, where there are any.
pub open spec fn given(regions: Option<&[Region]>) -> Option<Seq<RegionView>> {
    match regions {
        Some(rs) => Some(views(rs@)),
        None => None,
    }
}

/// A run in the form of SARIF 2.1.0, by region where regions are given.
pub fn sarif(findings: &[Finding], regions: Option<&[Region]>, root: &str) -> (r: SarifLog)
    ensures
        r.schema@ == "https://json.schemastore.org/sarif-2.1.0.json"@,
        r.version@ == "2.1.0"@,
        r.tool@ == "landed"@,
        r.tool_version@ == VERSION@,
        r.information_uri@ == "https://github.com/Vanaras-AI/landed"@,
        views(r.rules@) == all_rules(),
        views(r.results@) == results_of(views(findings@), given(regions), root@),
{
    let results = match regions {
        Some(rs) => region_results(rs, root),
        None => finding_results(findings, root),
    };
    SarifLog {
        schema: "https://json.schemastore.org/sarif-2.1.0.json",
        version: "2.1.0",
        tool: "landed",
        tool_version: VERSION,
        information_uri: "https://github.com/Vanaras-AI/landed",
        rules: rules(),
        results,
    }
}

/// Every result refers to a rule that is declared, at the level that the rule
/// has, and to a line that counts from one.
pub proof fn results_can_be_placed(
    found: Seq<FindingView>,
    regions: Option<Seq<RegionView>>,
    root: Seq<char>,
    i: int,
)
    requires
        0 <= i < results_of(found, regions, root).len(),
    ensures
        results_of(found, regions, root)[i].line >= 1,
        exists|k: int|
            0 <= k < all_rules().len() && (#[trigger] all_rules()[k]).id == results_of(
                found,
                regions,
                root,
            )[i].rule && all_rules()[k].level == results_of(found, regions, root)[i].level,
{
    assert(all_rules()[0] == function_rule());
    assert(all_rules()[1] == region_rule());
    assert(all_rules()[2] == unsure_rule());
}

/// The fingerprint of a result does not change while only its line does.
pub proof fn fingerprints_ignore_lines(f: FindingView, line: nat, root: Seq<char>)
    ensures
        finding_result(FindingView { line, ..f }, root).fingerprint == finding_result(
            f,
            root,
        ).fingerprint,
{
}

} // verus!
