//! The contract a team relies on: an unchanged codebase stays green, one new
//! unreachable function goes red, and neither depends on line numbers.

use landed::baseline::compare;
use landed::baseline::default_path;
use landed::baseline::relative;
use landed::baseline::Baseline;
use landed::baseline::Entry;
use landed::baseline::Fingerprint;
use landed::baseline::Mode;
use landed::baseline::Stored;
use landed::calendar::moment_of;
use landed::config::Config;

fn e(name: &str, file: &str) -> Entry {
    Entry { name: name.into(), file: file.into() }
}

#[test]
fn an_unchanged_codebase_reports_nothing_new() {
    let base = Baseline::new(Mode::Direct, vec![e("a", "src/x.rs"), e("b", "src/y.rs")]);
    let c = compare(&base, &vec![e("a", "src/x.rs"), e("b", "src/y.rs")]);
    assert!(c.added.is_empty());
    assert!(c.cleared.is_empty());
    assert_eq!(c.carried, 2);
}

#[test]
fn a_new_finding_is_reported() {
    let base = Baseline::new(Mode::Direct, vec![e("a", "src/x.rs")]);
    let c = compare(&base, &vec![e("a", "src/x.rs"), e("new", "src/z.rs")]);
    assert_eq!(c.added, vec![e("new", "src/z.rs")]);
    assert_eq!(c.carried, 1);
}

#[test]
fn a_fixed_finding_is_reported_as_cleared() {
    let base = Baseline::new(Mode::Direct, vec![e("a", "src/x.rs"), e("gone", "src/y.rs")]);
    let c = compare(&base, &vec![e("a", "src/x.rs")]);
    assert_eq!(c.cleared, vec![e("gone", "src/y.rs")]);
    assert!(c.added.is_empty());
}

#[test]
fn the_same_function_in_two_files_is_two_findings() {
    let base = Baseline::new(Mode::Direct, vec![e("run", "src/a.rs")]);
    let c = compare(&base, &vec![e("run", "src/a.rs"), e("run", "src/b.rs")]);
    assert_eq!(c.added, vec![e("run", "src/b.rs")]);
}

#[test]
fn what_is_new_and_what_is_gone_comes_in_order() {
    let base = Baseline::new(Mode::Direct, vec![e("z", "1"), e("b", "2"), e("b", "1")]);
    let c = compare(&base, &vec![e("y", "1"), e("c", "2"), e("c", "1"), e("c", "1")]);
    assert_eq!(c.added, vec![e("c", "1"), e("c", "1"), e("c", "2"), e("y", "1")]);
    assert_eq!(c.cleared, vec![e("b", "1"), e("b", "2"), e("z", "1")]);
    assert_eq!(c.carried, 0);
}

#[test]
fn a_baseline_lists_each_entry_once_in_order() {
    let base = Baseline::new(
        Mode::Graph,
        vec![e("b", "y"), e("a", "z"), e("b", "x"), e("a", "z")],
    );
    assert_eq!(base.version, 1);
    assert_eq!(base.mode, Mode::Graph);
    assert_eq!(base.accepted, vec![e("a", "z"), e("b", "x"), e("b", "y")]);
    assert!(base.fingerprint.is_none());
    assert!(
        base.created.contains('T') && base.created.ends_with('Z'),
        "got {}",
        base.created
    );
}

#[test]
fn moments_are_dated() {
    assert_eq!(moment_of(0), "1970-01-01T00:00:00Z");
    assert_eq!(moment_of(951_782_400), "2000-02-29T00:00:00Z");
    assert_eq!(moment_of(1_709_251_199), "2024-02-29T23:59:59Z");
    assert_eq!(moment_of(1_709_251_200), "2024-03-01T00:00:00Z");
    assert_eq!(moment_of(4_107_542_400), "2100-03-01T00:00:00Z");
    assert_eq!(moment_of(1_767_225_599), "2025-12-31T23:59:59Z");
    assert_eq!(moment_of(253_402_300_800), "10000-01-01T00:00:00Z");
    let b = Baseline::taken_at(None, Mode::Direct, vec![], None);
    assert_eq!(b.created, "unknown");
}

#[test]
fn a_corrupt_baseline_fails_loudly() {
    let bad = Baseline::load("b.json", Stored::Malformed("expected value".into()));
    assert_eq!(bad.unwrap_err(), "b.json is not a valid baseline: expected value");
    let later = Baseline {
        version: 99,
        created: "x".into(),
        mode: Mode::Direct,
        fingerprint: None,
        accepted: vec![],
    };
    let err = Baseline::load("b.json", Stored::Read(later)).unwrap_err();
    assert_eq!(err, "baseline b.json is version 99, this build understands version 1");
    let none = Baseline::load("b.json", Stored::Unreadable("no such file".into()));
    assert_eq!(none.unwrap_err(), "could not read baseline b.json: no such file");
    let fine = Baseline::new(Mode::Graph, vec![e("a", "src/x.rs")]);
    let back = Baseline::load("b.json", Stored::Read(fine)).unwrap();
    assert_eq!(back.accepted, vec![e("a", "src/x.rs")]);
}

#[test]
fn a_baseline_serves_its_own_mode_alone() {
    let base = Baseline::new(Mode::Graph, vec![]);
    assert!(base.serves(Mode::of(true), "f").is_ok());
    let err = base.serves(Mode::of(false), "f").unwrap_err();
    assert!(err.starts_with("baseline f was taken in Graph mode;"), "got {err}");
}

// ─── fingerprints ─────────────────────────────────────────────

#[test]
fn an_unchanged_analysis_is_not_stale() {
    let cfg = Config::default();
    let fp = Fingerprint::of(&cfg);
    let b = Baseline::with_fingerprint(Mode::Direct, vec![], Some(fp.clone()));
    assert!(b.staleness(&fp).is_none());
}

#[test]
fn changed_config_makes_a_baseline_stale() {
    let before = Config::default();
    let mut after = Config::default();
    after.ignore.push("something".into());
    let b = Baseline::with_fingerprint(Mode::Direct, vec![], Some(Fingerprint::of(&before)));
    let why = b.staleness(&Fingerprint::of(&after));
    assert!(why.is_some(), "config drift must be reported");
    assert!(why.unwrap().contains("landed.toml"), "and must say why");
}

#[test]
fn a_baseline_with_no_fingerprint_says_so() {
    let b = Baseline::with_fingerprint(Mode::Direct, vec![], None);
    let why = b.staleness(&Fingerprint::of(&Default::default()));
    assert!(why.is_some(), "an unfingerprinted baseline is not known to be current");
}

#[test]
fn both_reasons_are_given() {
    let taken = Fingerprint { tool_version: "0.0.9".into(), config_digest: "0".into() };
    let now = Fingerprint { tool_version: "0.1.0".into(), config_digest: "1".into() };
    let b = Baseline::with_fingerprint(Mode::Direct, vec![], Some(taken));
    assert_eq!(
        b.staleness(&now).unwrap(),
        "taken with landed 0.0.9, running 0.1.0; landed.toml has changed since it was taken"
    );
}

#[test]
fn the_fingerprint_is_order_independent() {
    let mut a = Config::default();
    a.roots = vec!["x".into(), "y".into()];
    let mut b = Config::default();
    b.roots = vec!["y".into(), "x".into()];
    assert_eq!(Fingerprint::of(&a).config_digest, Fingerprint::of(&b).config_digest);
    let mut c = Config::default();
    c.ignore = vec!["x".into(), "y".into()];
    assert_ne!(Fingerprint::of(&a).config_digest, Fingerprint::of(&c).config_digest);
}

#[test]
fn the_digest_is_fnv_1a() {
    // The digest of no text is the offset basis of the hash.
    assert_eq!(Fingerprint::of(&Config::default()).config_digest, "cbf29ce484222325");
    let mut a = Config::default();
    a.roots = vec!["x".into()];
    let mut h: u64 = 0xcbf2_9ce4_8422_2325;
    for b in "r:x".bytes() {
        h = (h ^ b as u64).wrapping_mul(0x1000_0000_01b3);
    }
    assert_eq!(Fingerprint::of(&a).config_digest, format!("{h:016x}"));
    assert_eq!(Fingerprint::of(&a).tool_version, "0.1.0");
}

// ─── places ───────────────────────────────────────────────────

#[test]
fn files_are_told_from_the_root() {
    assert_eq!(relative("/w/p/src/a.rs", "/w/p"), "src/a.rs");
    assert_eq!(relative("/w/p/src/a.rs", "/w/p/src"), "a.rs");
    assert_eq!(relative("/elsewhere/q/src/b/c.rs", "/w/p"), "src/b/c.rs");
    assert_eq!(relative("odd.rs", "/w/p"), "odd.rs");
}

#[test]
fn the_file_lies_beside_the_manifest() {
    let file = |path: &str, here: bool, above: bool| default_path(path, here, above);
    assert_eq!(file("/w/p", true, false), "/w/p/.landed-baseline.json");
    assert_eq!(file("/w/p", false, false), "/w/p/.landed-baseline.json");
    assert_eq!(file("/w/p", false, true), "/w/p/.landed-baseline.json");
    assert_eq!(file("/w/p/src", false, true), "/w/p/.landed-baseline.json");
    assert_eq!(file("/w/p/src", true, true), "/w/p/src/.landed-baseline.json");
    assert_eq!(file("k/src", false, false), "k/src/.landed-baseline.json");
    assert_eq!(file("src", false, true), ".landed-baseline.json");
}
