//! What a baseline accepts, and when it can be trusted.

use vstd::prelude::*;

use crate::baseline::declarations;
use crate::baseline::drift;
use crate::baseline::entries_of;
use crate::baseline::entry_less;
use crate::baseline::fnv;
use crate::baseline::found;
use crate::baseline::mode_clash;
use crate::baseline::mode_of;
use crate::baseline::news;
use crate::baseline::refused;
use crate::baseline::AcceptedView;
use crate::baseline::FingerprintView;
use crate::baseline::Mode;
use crate::baseline::Stored;
use crate::config::ConfigView;
use crate::findings::directly_dead;
use crate::findings::unreachable_code;
use crate::findings::FindingView;
use crate::laws::reporting::files_are_told_from_the_root;
use crate::number::decimal;
use crate::scan::ScanView;

verus! {

/// A baseline says what it has drifted from: the version where that differs,
/// the configuration where that does, both where both do; and one that does not
/// tell what took it cannot be held against anything.
pub proof fn drift_is_named(f: FingerprintView, now: FingerprintView)
    ensures
        drift(None, now) == Some(
            "taken before baselines recorded which analysis produced them, so drift cannot be detected"@,
        ),
        f.tool_version == now.tool_version && f.config_digest == now.config_digest ==> drift(
            Some(f),
            now,
        ) is None,
        f.tool_version != now.tool_version && f.config_digest == now.config_digest ==> drift(
            Some(f),
            now,
        ) == Some("taken with landed "@ + f.tool_version + ", running "@ + now.tool_version),
        f.tool_version == now.tool_version && f.config_digest != now.config_digest ==> drift(
            Some(f),
            now,
        ) == Some("landed.toml has changed since it was taken"@),
        f.tool_version != now.tool_version && f.config_digest != now.config_digest ==> drift(
            Some(f),
            now,
        ) == Some(
            "taken with landed "@ + f.tool_version + ", running "@ + now.tool_version + "; "@
                + "landed.toml has changed since it was taken"@,
        ),
{
    if f.tool_version == now.tool_version && f.config_digest == now.config_digest {
        assert(f =~= now);
    }
}

/// A baseline is refused where it cannot be read, is none, or is of another
/// version than the first, each with its reason.
pub proof fn what_cannot_be_used_is_refused(path: Seq<char>, stored: Stored)
    ensures
        stored matches Stored::Unreadable(e) ==> refused(path, stored) == Some(
            "could not read baseline "@ + path + ": "@ + e@,
        ),
        stored matches Stored::Malformed(e) ==> refused(path, stored) == Some(
            path + " is not a valid baseline: "@ + e@,
        ),
        stored matches Stored::Read(b) ==> (refused(path, stored) is None <==> b.version == 1),
        stored matches Stored::Read(b) ==> (b.version != 1 ==> refused(path, stored) == Some(
            "baseline "@ + path + " is version "@ + decimal(b.version as nat)
                + ", this build understands version 1"@,
        )),
{
}

/// A baseline of the one analysis does not serve the other, and the message
/// says which took it.
pub proof fn analyses_are_not_mixed(path: Seq<char>, graph: bool)
    ensures
        mode_of(true) == Mode::Graph,
        mode_of(false) == Mode::Direct,
        mode_clash(path, Mode::Direct) == "baseline "@ + path + " was taken in "@ + "Direct"@
            + " mode; re-run with the matching analysis or retake it, because the difference between the two analyses would be reported as a change in the code"@,
        mode_clash(path, Mode::Graph) == "baseline "@ + path + " was taken in "@ + "Graph"@
            + " mode; re-run with the matching analysis or retake it, because the difference between the two analyses would be reported as a change in the code"@,
{
}

/// What a run finds is what its analysis finds, and a baseline knows each
/// finding by its name and by its file as told from the root, in the same
/// order.
pub proof fn findings_become_entries(
    s: ScanView,
    all: Seq<FindingView>,
    root: Seq<char>,
    rel: Seq<char>,
    i: int,
)
    requires
        rel.len() > 0,
        rel[0] != '/',
    ensures
        found(s, true) == unreachable_code(s),
        found(s, false) == directly_dead(s),
        entries_of(all, root).len() == all.len(),
        0 <= i < all.len() ==> entries_of(all, root)[i].name == all[i].name,
        0 <= i < all.len() && all[i].file == root + "/"@ + rel ==> entries_of(all, root)[i].file
            == rel,
{
    files_are_told_from_the_root(root, rel);
}

/// Entries are in the order of their names, and those of one name in that of
/// their files.
pub proof fn entries_are_ordered_by_name_then_file(a: AcceptedView, b: AcceptedView)
    ensures
        crate::order::text_less(a.name, b.name) ==> entry_less(a, b) && !entry_less(b, a),
        a.name == b.name ==> entry_less(a, b) == crate::order::text_less(a.file, b.file),
        entry_less(a, b) || entry_less(b, a) || a == b,
{
    crate::order::text_less_total(a.name, b.name);
    crate::order::text_less_total(a.file, b.file);
    crate::order::text_less_irreflexive(a.name);
    if crate::order::text_less(a.name, b.name) && crate::order::text_less(b.name, a.name) {
        crate::order::text_less_transitive(a.name, b.name, a.name);
    }
    if !entry_less(a, b) && !entry_less(b, a) {
        assert(a =~= b);
    }
}

proof fn one_goes_ahead(a: AcceptedView, b: AcceptedView)
    ensures
        entry_less(a, b) ==> !entry_less(b, a),
{
    crate::order::text_less_irreflexive(a.name);
    crate::order::text_less_irreflexive(a.file);
    if crate::order::text_less(a.name, b.name) && crate::order::text_less(b.name, a.name) {
        crate::order::text_less_transitive(a.name, b.name, a.name);
    }
    if crate::order::text_less(a.file, b.file) && crate::order::text_less(b.file, a.file) {
        crate::order::text_less_transitive(a.file, b.file, a.file);
    }
}

proof fn going_ahead_carries_over(a: AcceptedView, b: AcceptedView, c: AcceptedView)
    requires
        entry_less(a, b),
        entry_less(b, c),
    ensures
        entry_less(a, c),
{
    if crate::order::text_less(a.name, b.name) {
        if crate::order::text_less(b.name, c.name) {
            crate::order::text_less_transitive(a.name, b.name, c.name);
        }
    } else if !crate::order::text_less(b.name, c.name) {
        crate::order::text_less_transitive(a.file, b.file, c.file);
    }
}

/// What is new comes in order.
pub proof fn new_entries_come_in_order(
    accepted: Seq<AcceptedView>,
    current: Seq<AcceptedView>,
    i: int,
    j: int,
)
    requires
        0 <= i < j < news(accepted, current).len(),
    ensures
        !entry_less(news(accepted, current)[j], news(accepted, current)[i]),
{
    let ahead = crate::baseline::by_entry();
    assert(crate::order::weak_order(ahead)) by {
        assert forall|a: AcceptedView, b: AcceptedView| #[trigger] ahead(a, b) implies !ahead(
            b,
            a,
        ) by {
            one_goes_ahead(a, b);
        }
        assert forall|a: AcceptedView, b: AcceptedView, c: AcceptedView|
            !#[trigger] ahead(b, a) && !#[trigger] ahead(c, b) implies !ahead(c, a) by {
            if ahead(c, a) {
                entries_are_ordered_by_name_then_file(a, b);
                entries_are_ordered_by_name_then_file(b, c);
                if a == b {
                    assert(ahead(c, b));
                } else if b == c {
                    assert(ahead(b, a));
                } else {
                    going_ahead_carries_over(a, b, c);
                    one_goes_ahead(a, c);
                }
            }
        }
    }
    crate::order::arranged_in_order(
        current.filter(|e: AcceptedView| !accepted.contains(e)),
        ahead,
    );
}

/// Every root and every ignore is part of what a fingerprint is taken of, and
/// the one is told from the other.
pub proof fn every_declaration_counts(c: ConfigView, i: int)
    ensures
        declarations(c).len() == c.roots.len() + c.ignore.len(),
        0 <= i < c.roots.len() ==> declarations(c)[i] == "r:"@ + c.roots[i],
        0 <= i < c.ignore.len() ==> declarations(c)[c.roots.len() + i] == "i:"@ + c.ignore[i],
{
}

/// A digest goes byte by byte: each is mixed into what the bytes before it
/// gave, from a fixed start, and then spread by a fixed factor.
pub proof fn digests_go_byte_by_byte(bytes: Seq<u8>, b: u8)
    ensures
        fnv(seq![]) == 0xcbf2_9ce4_8422_2325u64,
        fnv(bytes.push(b)) == (fnv(bytes) ^ (b as u64)).wrapping_mul(0x1000_0000_01b3u64),
{
    assert(bytes.push(b).drop_last() =~= bytes);
}

/// A baseline is dated by the clock, and says so where there is none.
pub proof fn baselines_are_dated(secs: u64)
    ensures
        crate::baseline::dated(Some(secs)) == crate::calendar::moment(secs as nat),
        crate::baseline::dated(None) == "unknown"@,
{
}

/// Entries that rise are each there once.
pub proof fn rising_entries_are_each_there_once(s: Seq<AcceptedView>, i: int, j: int)
    requires
        crate::baseline::entries_rise(s),
        0 <= i < j < s.len(),
    ensures
        s[i] != s[j],
        crate::order::text_less(s[i].name, s[j].name) || (s[i].name == s[j].name
            && crate::order::text_less(s[i].file, s[j].file)),
{
    crate::order::text_less_irreflexive(s[i].name);
    crate::order::text_less_irreflexive(s[i].file);
}

/// A baseline that was just taken can be used, and accepts all that was found:
/// nothing is new, and nothing is gone.
pub proof fn a_fresh_baseline_accepts_what_was_found(
    b: crate::baseline::Baseline,
    mode: Mode,
    entries: Seq<AcceptedView>,
    path: Seq<char>,
    c: crate::baseline::Comparison,
)
    requires
        crate::baseline::accepts(b, mode, entries),
        crate::baseline::compares(crate::ir::views(b.accepted@), entries, c),
    ensures
        refused(path, Stored::Read(b)) is None,
        b.mode == mode,
        c.added@.len() == 0,
        c.cleared@.len() == 0,
        c.carried == entries.len(),
{
    let accepted = crate::ir::views(b.accepted@);
    assert forall|e: AcceptedView| #[trigger] entries.contains(e) implies accepted.contains(e) by {
        assert(entries.to_set().contains(e));
        assert(accepted.to_set().contains(e));
    }
    crate::baseline::unchanged_code_reports_nothing_new(accepted, entries);
    assert(crate::ir::views(c.added@).len() == c.added@.len());
    let gone = crate::ir::views(c.cleared@);
    if gone.len() > 0 {
        assert(gone.contains(gone[0]));
        assert(accepted.to_set().contains(gone[0]));
        assert(entries.to_set().contains(gone[0]));
    }
}

/// A comparison parts what is found from what is accepted: new is what is found
/// and not accepted, gone is what is accepted and not found, and the rest is
/// carried.
pub proof fn comparisons_part_what_is_found(
    accepted: Seq<AcceptedView>,
    current: Seq<AcceptedView>,
    c: crate::baseline::Comparison,
    e: AcceptedView,
)
    requires
        crate::baseline::compares(accepted, current, c),
    ensures
        crate::ir::views(c.added@).contains(e) <==> current.contains(e) && !accepted.contains(e),
        crate::ir::views(c.cleared@).contains(e) <==> accepted.contains(e) && !current.contains(e),
        c.carried + c.added@.len() == current.len(),
{
    crate::baseline::new_means_not_accepted(accepted, current, e);
    crate::baseline::every_finding_is_counted(accepted, current);
    assert(crate::ir::views(c.added@).len() == c.added@.len());
}

} // verus!
