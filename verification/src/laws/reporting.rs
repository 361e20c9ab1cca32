//! What a run hands on: each finding and each region, where it stands.

use vstd::prelude::*;

use crate::findings::Confidence;
use crate::findings::FindingView;
use crate::number::decimal;
use crate::regions::RegionView;
use crate::report::annotations;
use crate::report::region_annotations;
use crate::report::results_of;
use crate::report::ResultView;
use crate::baseline::relative_to;
use crate::laws::texts::parts_are_found;
use crate::laws::texts::prefixes_go;
use crate::text::begins;

verus! {

/// A file is told from the directory that it lies under, without the `/`
/// between them, whether the directory is written with one or without.
pub proof fn files_are_told_from_the_root(root: Seq<char>, rel: Seq<char>)
    requires
        rel.len() > 0,
        rel[0] != '/',
    ensures
        relative_to(root + "/"@ + rel, root) == rel,
        relative_to(root + rel, root) == rel,
{
    reveal_strlit("/");
    assert("/"@ =~= seq!['/']);
    let tail = "/"@ + rel;
    assert(root + "/"@ + rel =~= root + tail);
    parts_are_found(root, root, tail);
    parts_are_found(root, root, rel);
    prefixes_go("/"@, rel);
    if begins(rel, "/"@) {
        assert(rel.subrange(0, 1)[0] == rel[0]);
    }
}

/// A file elsewhere is told from its last `src` directory on, or whole where
/// it has none.
pub proof fn files_elsewhere_are_told_from_src(
    root: Seq<char>,
    file: Seq<char>,
    dir: Seq<char>,
    rel: Seq<char>,
)
    requires
        !begins(file, root),
    ensures
        file == dir + "/src/"@ + rel && (forall|i: int|
            i > dir.len() ==> !crate::text::occurs_at(file, "/src/"@, i)) ==> relative_to(
            file,
            root,
        ) == "src/"@ + rel,
        !crate::text::present(file, "/src/"@) ==> relative_to(file, root) == file,
{
    crate::text::last_is_last(file, "/src/"@);
    if file == dir + "/src/"@ + rel {
        parts_are_found(dir, "/src/"@, rel);
        assert(file.skip(dir.len() as int + "/src/"@.len()) =~= rel);
    }
}

/// A result points at the line, or at the first where none is known.
pub open spec fn on_line(r: ResultView, line: nat) -> bool {
    &&& line >= 1 ==> r.line == line
    &&& line == 0 ==> r.line == 1
}

/// There is one result for each finding, in the same order, on its line.
pub proof fn results_stand_on_the_lines_of_the_findings(found: Seq<FindingView>, root: Seq<char>)
    ensures
        results_of(found, None, root).len() == found.len(),
        forall|i: int|
            0 <= i < found.len() ==> on_line(
                #[trigger] results_of(found, None, root)[i],
                found[i].line,
            ),
        forall|i: int|
            0 <= i < found.len() && found[i].line >= 1 ==> (#[trigger] results_of(
                found,
                None,
                root,
            )[i]).line == found[i].line,
{
}

/// Where regions are given there is one result for each of them, in the same
/// order, on the line of its way in, whatever the findings are.
pub proof fn results_stand_on_the_lines_of_the_ways_in(
    found: Seq<FindingView>,
    regions: Seq<RegionView>,
    root: Seq<char>,
)
    ensures
        results_of(found, Some(regions), root).len() == regions.len(),
        forall|i: int|
            0 <= i < regions.len() ==> on_line(
                #[trigger] results_of(found, Some(regions), root)[i],
                regions[i].entry.line,
            ),
        forall|i: int|
            0 <= i < regions.len() && regions[i].entry.line >= 1 ==> (#[trigger] results_of(
                found,
                Some(regions),
                root,
            )[i]).line == regions[i].entry.line,
{
}

/// A result is named after its function and lies in its file, relative to the
/// root where the file lies under it.
pub proof fn results_name_their_functions(
    found: Seq<FindingView>,
    regions: Seq<RegionView>,
    root: Seq<char>,
    rel: Seq<char>,
    i: int,
)
    ensures
        0 <= i < found.len() ==> begins(results_of(found, None, root)[i].text, found[i].name),
        0 <= i < regions.len() ==> begins(
            results_of(found, Some(regions), root)[i].text,
            regions[i].entry.name,
        ),
        0 <= i < found.len() && root.len() > 0 && root.last() != '/' && rel.len() > 0 && rel[0]
            != '/' && found[i].file == root + "/"@ + rel ==> results_of(found, None, root)[i].file
            == rel,
        0 <= i < regions.len() && root.len() > 0 && root.last() != '/' && rel.len() > 0 && rel[0]
            != '/' && regions[i].entry.file == root + "/"@ + rel ==> results_of(
            found,
            Some(regions),
            root,
        )[i].file == rel,
{
    if 0 <= i < found.len() {
        let t = results_of(found, None, root)[i].text;
        assert(t.subrange(0, found[i].name.len() as int) =~= found[i].name);
        if rel.len() > 0 && rel[0] != '/' {
            files_are_told_from_the_root(root, rel);
        }
    }
    if 0 <= i < regions.len() {
        let t = results_of(found, Some(regions), root)[i].text;
        assert(t.subrange(0, regions[i].entry.name.len() as int) =~= regions[i].entry.name);
        if rel.len() > 0 && rel[0] != '/' {
            files_are_told_from_the_root(root, rel);
        }
    }
}

/// What is certain is a warning under a rule of its own, and what is not is a
/// note under the rule of the unsure.
pub proof fn results_are_weighed(
    found: Seq<FindingView>,
    regions: Seq<RegionView>,
    root: Seq<char>,
    i: int,
)
    ensures
        0 <= i < found.len() ==> ({
            let r = results_of(found, None, root)[i];
            match found[i].confidence {
                Confidence::High => r.rule == "unreachable-function"@ && r.level == "warning"@,
                Confidence::Medium => r.rule == "possibly-unreachable"@ && r.level == "note"@,
            }
        }),
        0 <= i < regions.len() ==> ({
            let r = results_of(found, Some(regions), root)[i];
            match regions[i].confidence {
                Confidence::High => r.rule == "unreachable-region"@ && r.level == "warning"@,
                Confidence::Medium => r.rule == "possibly-unreachable"@ && r.level == "note"@,
            }
        }),
{
}

/// Two results have one fingerprint where file and rule are the same, and
/// only there as long as no file holds a colon.
pub proof fn fingerprints_tell_results_apart(
    found: Seq<FindingView>,
    root: Seq<char>,
    i: int,
    j: int,
)
    requires
        0 <= i < found.len(),
        0 <= j < found.len(),
    ensures
        ({
            let a = results_of(found, None, root)[i];
            let b = results_of(found, None, root)[j];
            &&& a.file == b.file && a.rule == b.rule ==> a.fingerprint == b.fingerprint
            &&& !a.file.contains(':') && !b.file.contains(':') && a.fingerprint == b.fingerprint
                ==> a.file == b.file && a.rule == b.rule
        }),
{
    reveal_strlit(":");
    let a = results_of(found, None, root)[i];
    let b = results_of(found, None, root)[j];
    if !a.file.contains(':') && !b.file.contains(':') && a.fingerprint == b.fingerprint {
        let n = a.file.len();
        let m = b.file.len();
        assert(a.fingerprint[n as int] == ':');
        assert(b.fingerprint[m as int] == ':');
        if n < m {
            assert(b.fingerprint[n as int] == b.file[n as int]);
        }
        if m < n {
            assert(a.fingerprint[m as int] == a.file[m as int]);
        }
        assert(a.file =~= a.fingerprint.take(n as int));
        assert(b.file =~= b.fingerprint.take(m as int));
        assert(a.rule =~= a.fingerprint.skip(n as int + 1));
        assert(b.rule =~= b.fingerprint.skip(m as int + 1));
    }
}

/// Findings are annotated one by one, in order, each on its line: what two
/// lists give together is what each gives.
pub proof fn annotations_follow_the_findings(
    a: Seq<FindingView>,
    b: Seq<FindingView>,
    root: Seq<char>,
)
    ensures
        annotations(a + b, root) == annotations(a, root) + annotations(b, root),
        annotations(seq![], root) == Seq::<char>::empty(),
    decreases b.len(),
{
    if b.len() == 0 {
        assert(a + b =~= a);
        assert(annotations(b, root) =~= seq![]);
        assert(annotations(a, root) + seq![] =~= annotations(a, root));
    } else {
        annotations_follow_the_findings(a, b.drop_last(), root);
        assert((a + b).drop_last() =~= a + b.drop_last());
        assert((a + b).last() == b.last());
        let one = annotations(seq![b.last()], root);
        assert(seq![b.last()].drop_last() =~= seq![]);
        assert(annotations(a + b, root) =~= annotations(a, root) + annotations(b, root));
    }
}

/// The same of regions.
pub proof fn annotations_follow_the_regions(
    a: Seq<RegionView>,
    b: Seq<RegionView>,
    root: Seq<char>,
)
    ensures
        region_annotations(a + b, root) == region_annotations(a, root) + region_annotations(
            b,
            root,
        ),
        region_annotations(seq![], root) == Seq::<char>::empty(),
    decreases b.len(),
{
    if b.len() == 0 {
        assert(a + b =~= a);
        assert(region_annotations(b, root) =~= seq![]);
        assert(region_annotations(a, root) + seq![] =~= region_annotations(a, root));
    } else {
        annotations_follow_the_regions(a, b.drop_last(), root);
        assert((a + b).drop_last() =~= a + b.drop_last());
        assert((a + b).last() == b.last());
        assert(region_annotations(a + b, root) =~= region_annotations(a, root)
            + region_annotations(b, root));
    }
}

/// The command for one finding puts it on its line in its file, as a warning
/// where it is certain and as a notice where it is not, with the callers that
/// were counted.
pub proof fn a_finding_is_annotated_on_its_line(f: FindingView, root: Seq<char>, rel: Seq<char>)
    requires
        root.len() > 0,
        root.last() != '/',
        rel.len() > 0,
        rel[0] != '/',
        f.file == root + "/"@ + rel,
    ensures
        f.confidence == Confidence::High ==> annotations(seq![f], root) == "::warning file="@ + rel
            + ",line="@ + decimal(f.line) + ",title=landed::"@ + f.name
            + " is never called outside tests ("@ + decimal(f.test_calls)
            + " test call(s), 0 from production)"@ + "\n"@,
        f.confidence == Confidence::Medium ==> annotations(seq![f], root) == "::notice file="@
            + rel + ",line="@ + decimal(f.line) + ",title=landed::"@ + f.name
            + " may be unreachable: "@ + decimal(f.prod_calls)
            + " production caller(s) exist but each looks unreachable itself, which can also mean an entry point this analyzer cannot resolve"@
            + "\n"@,
{
    files_are_told_from_the_root(root, rel);
    reveal_strlit("::");
    reveal_strlit("warning");
    reveal_strlit("notice");
    reveal_strlit(" file=");
    reveal_strlit("::warning file=");
    reveal_strlit("::notice file=");
    assert("::"@ + "warning"@ + " file="@ =~= "::warning file="@);
    assert("::"@ + "notice"@ + " file="@ =~= "::notice file="@);
    let one = seq![f];
    assert(one.drop_last() =~= seq![]);
    let told = annotations(one, root);
    assert(annotations(seq![], root) =~= seq![]);
    assert(told =~= crate::report::annotation(
        f.confidence,
        rel,
        f.line,
        crate::report::finding_detail(f),
    ));
    if f.confidence == Confidence::High {
        assert(told =~= "::warning file="@ + rel + ",line="@ + decimal(f.line) + ",title=landed::"@
            + f.name + " is never called outside tests ("@ + decimal(f.test_calls)
            + " test call(s), 0 from production)"@ + "\n"@);
    } else {
        assert(told =~= "::notice file="@ + rel + ",line="@ + decimal(f.line) + ",title=landed::"@
            + f.name + " may be unreachable: "@ + decimal(f.prod_calls)
            + " production caller(s) exist but each looks unreachable itself, which can also mean an entry point this analyzer cannot resolve"@
            + "\n"@);
    }
}

/// The command for one region puts it on the line of its way in.
pub proof fn a_region_is_annotated_at_its_way_in(r: RegionView, root: Seq<char>, rel: Seq<char>)
    requires
        root.len() > 0,
        root.last() != '/',
        rel.len() > 0,
        rel[0] != '/',
        r.entry.file == root + "/"@ + rel,
    ensures
        ({
            let place = rel + ",line="@ + decimal(r.entry.line) + ",title=landed::"@ + r.entry.name;
            let head = match r.confidence {
                Confidence::High => "::warning file="@,
                Confidence::Medium => "::notice file="@,
            };
            &&& r.size > 1 ==> region_annotations(seq![r], root) == head + place
                + " is the entry to "@ + decimal(r.size)
                + " functions nothing in production reaches; they resolve when it does"@ + "\n"@
            &&& r.size <= 1 ==> region_annotations(seq![r], root) == head + place
                + " is never called outside tests"@ + "\n"@
        }),
{
    files_are_told_from_the_root(root, rel);
    reveal_strlit("::");
    reveal_strlit("warning");
    reveal_strlit("notice");
    reveal_strlit(" file=");
    reveal_strlit("::warning file=");
    reveal_strlit("::notice file=");
    assert("::"@ + "warning"@ + " file="@ =~= "::warning file="@);
    assert("::"@ + "notice"@ + " file="@ =~= "::notice file="@);
    let one = seq![r];
    assert(one.drop_last() =~= seq![]);
    let told = region_annotations(one, root);
    assert(region_annotations(seq![], root) =~= seq![]);
    assert(told =~= crate::report::annotation(
        r.confidence,
        rel,
        r.entry.line,
        crate::report::region_detail(r),
    ));
    let place = rel + ",line="@ + decimal(r.entry.line) + ",title=landed::"@ + r.entry.name;
    let head = match r.confidence {
        Confidence::High => "::warning file="@,
        Confidence::Medium => "::notice file="@,
    };
    if r.size > 1 {
        assert(told =~= head + place + " is the entry to "@ + decimal(r.size)
            + " functions nothing in production reaches; they resolve when it does"@ + "\n"@);
    } else {
        assert(told =~= head + place + " is never called outside tests"@ + "\n"@);
    }
}

/// The rules that results refer to are three: for a function and for a region
/// that nothing reaches, as warnings, and for what is unsure, as a note.
pub proof fn rules_are_declared()
    ensures
        ({
            let all = crate::report::all_rules();
            &&& all.len() == 3
            &&& all[0].id == "unreachable-function"@ && all[0].level == "warning"@
            &&& all[1].id == "unreachable-region"@ && all[1].level == "warning"@
            &&& all[2].id == "possibly-unreachable"@ && all[2].level == "note"@
            &&& all[0].tags == seq!["dead-code"@, "reachability"@]
            &&& all[1].tags == seq!["dead-code"@, "reachability"@]
            &&& all[2].tags == seq!["dead-code"@, "reachability"@, "low-confidence"@]
        }),
{
}

/// What a result says of a finding are the calls that were counted.
pub proof fn results_tell_the_calls(found: Seq<FindingView>, root: Seq<char>, i: int)
    requires
        0 <= i < found.len(),
    ensures
        results_of(found, None, root)[i].text == found[i].name + " is never called outside tests ("@
            + decimal(found[i].test_calls) + " test call(s), "@ + decimal(found[i].prod_calls)
            + " from production)"@,
{
}

/// What a result says of a region is its size, where it has more than one
/// function.
pub proof fn results_tell_the_size(
    found: Seq<FindingView>,
    rs: Seq<RegionView>,
    root: Seq<char>,
    i: int,
)
    requires
        0 <= i < rs.len(),
    ensures
        rs[i].size > 1 ==> results_of(found, Some(rs), root)[i].text == rs[i].entry.name
            + " is the entry to "@ + decimal(rs[i].size)
            + " functions nothing in production reaches; they resolve when it does"@,
        rs[i].size <= 1 ==> results_of(found, Some(rs), root)[i].text == rs[i].entry.name
            + " is never called outside tests"@,
{
}

/// Any number of `/` between the root and the file is no part of what is told.
pub proof fn slashes_are_passed_over(root: Seq<char>, rest: Seq<char>)
    ensures
        relative_to(root + ("/"@ + rest), root) == relative_to(root + rest, root),
{
    reveal_strlit("/");
    let more = "/"@ + rest;
    parts_are_found(root, root, more);
    parts_are_found(root, root, rest);
    prefixes_go("/"@, rest);
}

/// A fingerprint is the file and the rule, with a colon between.
pub proof fn fingerprints_are_file_and_rule(
    found: Seq<FindingView>,
    regions: Seq<RegionView>,
    root: Seq<char>,
    i: int,
)
    ensures
        0 <= i < found.len() ==> ({
            let r = results_of(found, None, root)[i];
            r.fingerprint == r.file + ":"@ + r.rule
        }),
        0 <= i < regions.len() ==> ({
            let r = results_of(found, Some(regions), root)[i];
            r.fingerprint == r.file + ":"@ + r.rule
        }),
{
}

} // verus!
