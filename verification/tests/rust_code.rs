//! Rust sources, from their text to what is said of them.

use landed::baseline;
use landed::baseline::Baseline;
use landed::baseline::Mode;
use landed::changes;
use landed::config::Config;
use landed::findings::reachable_over;
use landed::frontend::Tier;
use landed::ir::Precision;
use landed::ir::SymbolId;
use landed::names::NameSet;
use landed::project::CargoProject;
use landed::project::Project;
use landed::project::SourceTree;
use landed::project::TreeFile;
use landed::render;
use landed::report;
use landed::scan;
use landed::scan::Confidence;
use landed::targets;
use landed::targets::CargoTarget;
use landed::targets::Metadata;
use landed::targets::Package;
use landed::targets::Workspace;

// ─── projects in memory ───────────────────────────────────────

struct Dir {
    root: String,
    files: Vec<(String, String)>,
}

impl Dir {
    fn path(&self, rel: &str) -> String {
        format!("{}/{}", self.root, rel)
    }

    fn tree(&self) -> SourceTree {
        SourceTree {
            root: self.root.clone(),
            here: self
                .files
                .iter()
                .filter(|(rel, _)| !rel.contains('/'))
                .map(|(rel, _)| rel.clone())
                .collect(),
            above: vec![],
            listing: self.files.iter().map(|(rel, _)| self.path(rel)).collect(),
            files: self
                .files
                .iter()
                .map(|(rel, body)| TreeFile { path: self.path(rel), text: Some(body.clone()) })
                .collect(),
        }
    }

    /// What cargo answers for a crate laid out like this.
    fn workspace(&self) -> Workspace {
        if !self.files.iter().any(|(rel, _)| rel == "Cargo.toml") {
            return Workspace::default();
        }
        let mut all = vec![];
        for (rel, _) in &self.files {
            let (name, kind) = match rel.as_str() {
                "src/lib.rs" => ("demo".to_string(), "lib"),
                "src/main.rs" => ("demo".to_string(), "bin"),
                other if other.starts_with("tests/") => (other.to_string(), "test"),
                _ => continue,
            };
            all.push(CargoTarget {
                name,
                kind: vec![kind.to_string()],
                src_path: self.path(rel),
                canonical: self.path(rel),
            });
        }
        let metadata = Metadata {
            packages: vec![Package { id: "demo 0.1.0".into(), name: "demo".into(), targets: all }],
            workspace_members: vec!["demo 0.1.0".into()],
        };
        targets::discover(&self.root, Some(&metadata))
    }

    fn config(&self) -> Config {
        let text = self.files.iter().find(|(rel, _)| rel == "landed.toml").map(|(_, t)| t.as_str());
        Config::load(text, None).unwrap()
    }

    fn scan(&self) -> scan::Scan {
        scan::scan_crate(&self.tree(), self.workspace(), self.config()).unwrap()
    }

    fn precise(&self, mir: &str) -> scan::Scan {
        scan::scan_crate_as(
            &self.tree(),
            self.workspace(),
            Some(mir.to_string()),
            self.config(),
            Tier::Precise,
            None,
        )
        .unwrap()
    }
}

fn dir_of(name: &str, files: &[(&str, &str)]) -> Dir {
    Dir {
        root: format!("/work/{name}"),
        files: files.iter().map(|(rel, body)| (rel.to_string(), body.to_string())).collect(),
    }
}

const MANIFEST: &str = "[package]\nname = \"demo\"\nversion = \"0.1.0\"\nedition = \"2021\"\n";

fn fixture(name: &str) -> Dir {
    let files: &[(&str, &str)] = match name {
        "all_live" => &[("src/main.rs", ALL_LIVE)],
        "allow_dead" => &[("src/main.rs", ALLOW_DEAD)],
        "ambiguous" => &[("src/main.rs", AMBIGUOUS)],
        "dead_region" => &[("src/main.rs", DEAD_REGION)],
        "doc_mentions_test" => &[("src/main.rs", DOC_MENTIONS_TEST)],
        "macro_call" => &[("src/main.rs", MACRO_CALL)],
        "test_only" => &[("src/main.rs", TEST_ONLY)],
        "trait_impl" => &[("src/main.rs", TRAIT_IMPL)],
        "tests_rs" => &[("src/main.rs", TESTS_RS_MAIN), ("src/tests.rs", TESTS_RS)],
        "lib_api" => &[("src/lib.rs", "pub mod api;\n"), ("src/api.rs", LIB_API)],
        other => panic!("no fixture {other}"),
    };
    let mut d = dir_of(name, files);
    // The directory of the sources is what is scanned.
    d.root.push_str("/src");
    d.files.iter_mut().for_each(|(rel, _)| *rel = rel.replacen("src/", "", 1));
    d
}

fn scan_of(name: &str) -> scan::Scan {
    fixture(name).scan()
}

fn names(found: Vec<scan::Finding>) -> Vec<String> {
    let mut v: Vec<String> = found.into_iter().map(|f| f.name).collect();
    v.sort();
    v
}

fn flagged(name: &str) -> Vec<String> {
    names(scan::never_run(&scan_of(name)))
}

fn flagged_graph(name: &str) -> Vec<String> {
    names(scan::never_run_graph(&scan_of(name)))
}

const ALL_LIVE: &str = r#"fn main() { start(); }
fn start() { helper(); }
fn helper() {}
#[cfg(test)]
mod tests {
    #[test] fn t() { super::start(); }
}
"#;

const ALLOW_DEAD: &str = r#"fn main() { live(); }
fn live() {}
#[allow(dead_code)]
pub fn deliberately_unused() {}
#[cfg(test)]
mod tests {
    #[test] fn t() { super::deliberately_unused(); }
}
"#;

const AMBIGUOUS: &str = r#"fn main() { A.process(); }
struct A;
impl A { fn process(&self) {} }
struct B;
impl B { fn process(&self) {} }
#[cfg(test)]
mod tests {
    #[test] fn t() { super::B.process(); }
}
"#;

const DEAD_REGION: &str = r#"fn main() { live(); }
fn live() {}
pub fn dead_entry() { middle(); }
fn middle() { leaf(); }
fn leaf() {}
#[cfg(test)]
mod tests {
    #[test] fn t() { super::dead_entry(); }
}
"#;

const DOC_MENTIONS_TEST: &str = r#"fn main() { driver(); }
/// `limit` is a test hook: the fastest path skips it.
/// The latest revision keeps this documented but live.
fn driver() { real_work(); }
fn real_work() {}
#[cfg(test)]
mod tests {
    #[test] fn t() { super::driver(); }
}
"#;

const MACRO_CALL: &str = r#"macro_rules! wrap { ($body:block) => { $body }; }
fn main() { run(); }
fn run() { wrap!({ called_from_macro(); }); }
fn called_from_macro() {}
#[cfg(test)]
mod tests {
    #[test] fn t() { super::called_from_macro(); }
}
"#;

const TEST_ONLY: &str = r#"fn main() { live(); }
fn live() {}
pub fn only_tests_call_me() {}
#[cfg(test)]
mod tests {
    #[test] fn t() { super::only_tests_call_me(); }
}
"#;

const TRAIT_IMPL: &str = r#"trait Greet { fn greet(&self); }
struct A;
impl Greet for A {
    fn greet(&self) { hidden(); }
}
fn hidden() {}
fn main() { let g: &dyn Greet = &A; g.greet(); }
"#;

const TESTS_RS_MAIN: &str = r#"fn main() { live(); }
fn live() {}
#[cfg(test)]
mod tests;
"#;

const TESTS_RS: &str = r#"pub fn make_fixture() -> u8 { 1 }
#[test] fn t() { make_fixture(); }
"#;

const LIB_API: &str = r#"pub fn public_api() { helper(); }
fn helper() {}
#[cfg(test)]
mod tests { #[test] fn t() { super::public_api(); } }
"#;

// ─── true positives ───────────────────────────────────────────

#[test]
fn reports_a_function_only_tests_call() {
    assert_eq!(flagged("test_only"), vec!["only_tests_call_me"]);
}

#[test]
fn graph_mode_reports_the_whole_dead_region_not_just_its_tip() {
    // The per-function check sees only the outermost function: `middle` and
    // `leaf` each have a caller, and that caller merely happens to be dead.
    assert_eq!(flagged("dead_region"), vec!["dead_entry"]);
    // Reachability sees all three.
    assert_eq!(flagged_graph("dead_region"), vec!["dead_entry", "leaf", "middle"]);
}

#[test]
fn a_dead_region_is_grouped_with_its_frontier_named() {
    let s = scan_of("dead_region");
    let regions = scan::dead_regions(&s);
    assert_eq!(regions.len(), 1, "three functions, one subsystem");
    let r = &regions[0];
    assert_eq!(r.size, 3);
    assert_eq!(r.entry.name, "dead_entry", "the frontier is the way in");
    assert_eq!(
        r.confidence,
        Confidence::High,
        "the frontier has no production caller, so the region is not in doubt"
    );
}

// ─── false positives: each of these shipped once ──────────────

#[test]
fn everything_reachable_reports_nothing() {
    assert!(flagged("all_live").is_empty());
    assert!(flagged_graph("all_live").is_empty());
}

#[test]
fn a_doc_comment_saying_test_is_not_a_test_attribute() {
    // Regression: doc comments are attributes in syn, so a substring match for
    // "test" on an attribute's tokens matched `/// is a test hook`, `fastest`
    // and `latest`. Every call inside such a function was then counted as a
    // test call, erasing its real production callers.
    assert!(
        flagged("doc_mentions_test").is_empty(),
        "real_work is called by driver, which main calls"
    );
}

#[test]
fn calls_inside_macro_bodies_are_seen() {
    // Regression: syn treats a macro invocation as an opaque token stream, so
    // a call written inside one was invisible and its callee looked dead.
    assert!(
        flagged_graph("macro_call").is_empty(),
        "called_from_macro is invoked inside wrap!{{...}}"
    );
}

#[test]
fn helpers_in_a_tests_rs_file_are_test_code() {
    // Regression: `tests/` and `*_test.rs` were handled, `src/**/tests.rs`
    // was not — so every helper in that file counted as shipped production.
    let names = flagged("tests_rs");
    assert!(
        !names.contains(&"make_fixture".to_string()),
        "make_fixture lives in tests.rs; got {names:?}"
    );
}

#[test]
fn a_library_public_api_is_an_entry_point() {
    // Regression: a library has no `main`, and one that writes `pub mod foo;`
    // rather than `pub use foo::…` had an empty root set — so the entire
    // crate was reported unreachable. One 120-function crate came back at 51%.
    assert!(
        flagged_graph("lib_api").is_empty(),
        "public_api is the crate's entry point; helper is reached through it"
    );
}

#[test]
fn trait_impl_methods_are_never_accused() {
    // Dispatch through `dyn Trait` is invisible to a name-keyed graph, so the
    // absence of a direct call site proves nothing.
    let names = flagged_graph("trait_impl");
    assert!(!names.contains(&"greet".to_string()), "got {names:?}");
}

#[test]
fn allow_dead_code_is_respected() {
    assert!(flagged("allow_dead").is_empty(), "the author already decided");
}

#[test]
fn a_name_defined_twice_is_not_judged() {
    // `A::process` and `B::process` are distinct symbols that a name-keyed
    // graph cannot tell apart, so it must say nothing about either.
    let names = flagged_graph("ambiguous");
    assert!(!names.contains(&"process".to_string()), "got {names:?}");
}

// ─── the confidence contract ──────────────────────────────────

#[test]
fn confidence_is_high_only_when_no_production_caller_exists() {
    for f in scan::never_run(&scan_of("test_only")) {
        assert_eq!(f.confidence, Confidence::High);
        assert_eq!(f.prod_calls, 0, "High confidence requires zero production callers");
    }
}

#[test]
fn coverage_is_reported_honestly() {
    // A report that does not say what it could not see overstates itself.
    let (ambiguous, total) = scan::ambiguity_report(&scan_of("ambiguous"));
    assert!(total > 0);
    assert!(ambiguous > 0, "the ambiguous fixture must register as ambiguous");
}

// ─── evidence ─────────────────────────────────────────────────

#[test]
fn evidence_explains_a_finding() {
    let s = scan_of("dead_region");
    let e = scan::evidence(&s, "dead_entry");
    assert!(!e.in_production_set, "not reachable from main");
    assert!(e.in_test_set, "but the tests reach it");
    assert!(e.suppressed.is_none(), "nothing about it is unanalysable");
    assert_eq!(e.prod_call_sites, 0);
    assert!(e.test_call_sites > 0);
}

#[test]
fn evidence_states_why_a_suppressed_symbol_was_not_judged() {
    let s = scan_of("ambiguous");
    let e = scan::evidence(&s, "process");
    assert!(
        e.suppressed.is_some(),
        "a duplicated name must carry a stated reason for silence"
    );
}

#[test]
fn main_t() {
    // Each fixture holds one harness function, and it is known as one.
    for name in [
        "all_live",
        "allow_dead",
        "ambiguous",
        "dead_region",
        "doc_mentions_test",
        "macro_call",
        "test_only",
    ] {
        let s = scan_of(name);
        let tests: Vec<&str> = s.defs.iter().filter(|d| d.is_test_fn).map(|d| d.name()).collect();
        assert_eq!(tests, vec!["t"], "in {name}");
        assert!(s.defs.iter().filter(|d| d.name() == "t").all(|d| d.in_test));
    }
}

// ─── declared entry points and ignores ────────────────────────

const SPAWNED_ENTRY: &str = r#"
fn main() { spawn_it(); }
fn spawn_it() { /* tokio::spawn(handle_webhook()) */ }
pub fn handle_webhook() { do_work(); }
fn do_work() {}
#[cfg(test)]
mod tests { #[test] fn t() { super::handle_webhook(); } }
"#;

fn configured(main_rs: &str, config: Option<&str>) -> Dir {
    let mut d = dir_of("cfg", &[("Cargo.toml", MANIFEST), ("src/main.rs", main_rs)]);
    if let Some(c) = config {
        d.files.push(("landed.toml".into(), c.into()));
    }
    d
}

fn dead_names(dir: &Dir) -> Vec<String> {
    names(scan::never_run_graph(&dir.scan()))
}

#[test]
fn without_config_a_spawned_entry_point_is_wrongly_condemned() {
    let names = dead_names(&configured(SPAWNED_ENTRY, None));
    assert!(names.contains(&"handle_webhook".to_string()), "got {names:?}");
}

#[test]
fn a_declared_root_makes_it_and_everything_downstream_live() {
    let dir = configured(SPAWNED_ENTRY, Some("roots = [\"handle_webhook\"]\n"));
    assert!(
        dead_names(&dir).is_empty(),
        "declaring the entry point must rescue the whole region beneath it"
    );
}

#[test]
fn a_wildcard_root_matches() {
    let dir = configured(SPAWNED_ENTRY, Some("roots = [\"handle_*\"]\n"));
    assert!(dead_names(&dir).is_empty());
}

#[test]
fn ignored_names_are_never_reported() {
    let dir = configured(SPAWNED_ENTRY, Some("ignore = [\"handle_*\", \"do_work\"]\n"));
    assert!(dead_names(&dir).is_empty());
}

#[test]
fn an_ignore_does_not_silence_unrelated_findings() {
    let names = dead_names(&configured(SPAWNED_ENTRY, Some("ignore = [\"do_work\"]\n")));
    assert!(names.contains(&"handle_webhook".to_string()), "got {names:?}");
    assert!(!names.contains(&"do_work".to_string()), "got {names:?}");
}

// ─── the same shape as in other languages ─────────────────────

#[test]
fn rust_finds_the_test_only_region() {
    let dir = dir_of(
        "rs",
        &[
            ("Cargo.toml", MANIFEST),
            (
                "src/main.rs",
                "fn live_helper() -> u8 { 1 }\n\
                 pub fn dead_helper() -> u8 { deeper() }\n\
                 fn deeper() -> u8 { 2 }\n\
                 fn run() -> u8 { live_helper() }\n\
                 fn main() { let _ = run(); }\n\
                 #[cfg(test)]\n\
                 mod tests { #[test] fn t() { let _ = super::dead_helper(); } }\n",
            ),
        ],
    );
    assert_eq!(dead_names(&dir), vec!["dead_helper", "deeper"]);
}

// ─── which tests a change calls for ───────────────────────────

fn crate_with(lib: &str, integration: &str) -> Dir {
    dir_of(
        "impact",
        &[("Cargo.toml", MANIFEST), ("src/lib.rs", lib), ("tests/it.rs", integration)],
    )
}

fn affected(dir: &Dir, symbol: &str) -> Vec<String> {
    let s = dir.scan();
    let targets: Vec<String> =
        s.defs.iter().filter(|d| d.name() == symbol).map(|d| d.key()).collect();
    assert!(!targets.is_empty(), "{symbol} is not defined in the fixture");
    scan::tests_reaching(&s, &NameSet::of(&targets))
}

#[test]
fn a_test_that_reaches_the_change_is_selected_and_others_are_not() {
    let dir = crate_with(
        "pub fn changed() -> u8 { 1 }\npub fn untouched() -> u8 { 2 }\n",
        "#[test]\nfn hits() { assert_eq!(demo::changed(), 1); }\n\
         #[test]\nfn misses() { assert_eq!(demo::untouched(), 2); }\n",
    );
    let hit = affected(&dir, "changed");
    assert!(hit.contains(&"hits".to_string()), "got {hit:?}");
    assert!(!hit.contains(&"misses".to_string()), "got {hit:?}");
}

#[test]
fn a_call_made_inside_an_assertion_still_selects_the_test() {
    let dir = crate_with(
        "pub fn changed() -> bool { true }\n",
        "#[test]\nfn only_inside_a_macro() { assert!(demo::changed()); }\n",
    );
    let hit = affected(&dir, "changed");
    assert!(hit.contains(&"only_inside_a_macro".to_string()), "got {hit:?}");
}

#[test]
fn a_test_that_spawns_a_process_always_runs() {
    let dir = crate_with(
        "pub fn changed() -> u8 { 1 }\npub fn unrelated() -> u8 { 2 }\n",
        "use std::process::Command;\n\
         #[test]\nfn end_to_end() { let _ = Command::new(\"demo\").output(); }\n",
    );
    let hit = affected(&dir, "changed");
    assert!(hit.contains(&"end_to_end".to_string()), "got {hit:?}");
}

#[test]
fn opacity_propagates_from_a_helper_to_its_callers() {
    let dir = crate_with(
        "pub fn changed() -> u8 { 1 }\n",
        "use std::process::Command;\n\
         fn run() -> String { String::from_utf8(Command::new(\"demo\").output().unwrap().stdout).unwrap() }\n\
         #[test]\nfn drives_the_binary() { let _ = run(); }\n",
    );
    let hit = affected(&dir, "changed");
    assert!(hit.contains(&"drives_the_binary".to_string()), "got {hit:?}");
}

#[test]
fn the_audit_graph_stays_conservative() {
    let dir = crate_with(
        "pub fn only_a_macro_mentions_me() -> bool { true }\n",
        "#[test]\nfn t() { assert!(demo::only_a_macro_mentions_me()); }\n",
    );
    let s = dir.scan();
    let key = s.defs.iter().find(|d| d.name() == "only_a_macro_mentions_me").unwrap().key();
    let roots: Vec<String> = s.defs.iter().filter(|d| d.is_test_fn).map(|d| d.key()).collect();
    let roots = NameSet::of(&roots);
    assert!(
        !reachable_over(&s, &roots, scan::Graph::Accusable).contains(&key),
        "a macro token in test code must not reach the audit's graph"
    );
    assert!(
        reachable_over(&s, &roots, scan::Graph::Everything).contains(&key),
        "and must be present in the permissive one"
    );
}

#[test]
fn a_diff_is_put_down_to_functions() {
    let dir = crate_with(
        "pub fn first() -> u8 { 1 }\n\npub fn second() -> u8 {\n    2\n}\n",
        "#[test]\nfn hits() { demo::second(); }\n#[test]\nfn misses() { demo::first(); }\n",
    );
    let s = dir.scan();
    let diff = "diff --git a/src/lib.rs b/src/lib.rs\n--- a/src/lib.rs\n+++ b/src/lib.rs\n@@ -4 +4 @@ pub fn second() -> u8 {\n-    3\n+    2\n";
    let i = changes::impact(&s, &vec![], &changes::changed_lines(diff));
    assert_eq!(i.changed, vec!["second"]);
    assert_eq!(i.tests, vec!["hits"]);
    assert!(i.is_sound(), "{:?}", i.unmapped);
    assert_eq!((i.all_tests, i.always), (2, 0));
    let page = render::report_impact(&i, "50.0").join("\n");
    assert!(page.contains("affected   1 of 2 test(s)"), "{page}");
    assert!(page.contains("reduction  50.0%  (1 test(s) need not run)"), "{page}");
    assert!(!page.contains("NOT SOUND"), "{page}");
}

#[test]
fn what_cannot_be_put_down_to_a_function_is_said() {
    let dir = crate_with("pub fn first() -> u8 { 1 }\n", "#[test]\nfn t() { demo::first(); }\n");
    let s = dir.scan();
    let diff = "--- a/README.md\n+++ b/README.md\n@@ -1 +1 @@\n-a\n+b\n--- a/src/gone.rs\n+++ /dev/null\n@@ -1,2 +0,0 @@\n-x\n-y\n";
    let i = changes::impact(&s, &vec!["nobody".into()], &changes::changed_lines(diff));
    assert_eq!(
        i.unmapped,
        vec!["nobody", "README.md (no function matched)", "src/gone.rs (deleted)"]
    );
    assert!(!i.is_sound());
    assert!(i.changed.is_empty());
    let page = render::report_impact(&i, "100.0").join("\n");
    assert!(page.contains("NOT SOUND — 3 part(s) of this change could not be"), "{page}");
    assert!(page.contains("  No changed function was identified."), "{page}");
}

// ─── every page shows what it is for ──────────────────────────

fn regions_page(name: &str) -> String {
    let s = scan_of(name);
    render::report_regions(&s, &scan::dead_regions(&s), &fixture(name).root, "0.0").join("\n")
}

fn findings_page(name: &str, graph: bool) -> String {
    let s = scan_of(name);
    let found = if graph { scan::never_run_graph(&s) } else { scan::never_run(&s) };
    render::report(&s, &found, &fixture(name).root, "0.0").join("\n")
}

#[test]
fn plain_check_reports_findings() {
    let o = findings_page("test_only", false);
    assert!(o.contains("only_tests_call_me"), "got: {o}");
    assert!(o.contains("NEVER RUN"), "got: {o}");
    assert!(o.contains("    defined  main.rs:3"), "got: {o}");
    assert!(o.contains("    callers  1 test call(s), no production caller"), "got: {o}");
    assert!(o.ends_with("  1 function(s) shipped that nothing runs"), "got: {o}");
}

#[test]
fn graph_groups_into_regions_and_names_the_frontier() {
    let o = regions_page("dead_region");
    assert!(o.contains("Region 1"), "got: {o}");
    assert!(o.contains("frontier"), "got: {o}");
    assert!(o.contains("dead_entry"), "got: {o}");
    assert!(o.contains("3 unreachable functions in 1 region\n"), "got: {o}");
    assert!(o.contains("Region 1 — 3 functions  [confident]"), "got: {o}");
    assert!(o.contains("             middle, leaf"), "got: {o}");
}

#[test]
fn flat_bypasses_regions() {
    assert_eq!(render::page(false, false, false, false, true, true), render::Page::Findings);
    let o = findings_page("dead_region", true);
    assert!(o.contains("NEVER RUN"), "expected the flat listing; got: {o}");
    assert!(!o.contains("Region 1"), "--flat must not group; got: {o}");
    assert!(o.contains("0 test call(s), 1 production call(s) — but every"), "got: {o}");
}

#[test]
fn stats_reports_coverage_and_nothing_else() {
    let s = scan_of("ambiguous");
    let o = render::stats(&s, "66.7").join("\n");
    assert!(o.contains("non-unique names          2 (66.7%)"), "--stats did nothing; got: {o}");
    assert!(o.contains("production functions      3"), "got: {o}");
    assert!(
        !o.contains("NEVER RUN") && !o.contains("Region 1"),
        "--stats must not fall through to a report; got: {o}"
    );
    assert_eq!(render::page(false, true, true, true, true, false), render::Page::Stats);
}

#[test]
fn dot_emits_a_graph_and_nothing_else() {
    let o = scan::to_dot(&scan_of("dead_region"));
    assert!(o.starts_with("digraph calls {"), "got: {o}");
    assert!(o.trim_end().ends_with('}'), "got: {o}");
    assert!(!o.contains("landed v"), "--dot must emit only DOT; got: {o}");
}

#[test]
fn explain_shows_evidence_for_one_symbol() {
    let s = scan_of("dead_region");
    let o = render::explain(&scan::evidence(&s, "dead_entry"), &fixture("dead_region").root)
        .join("\n");
    assert!(o.contains("status"), "got: {o}");
    assert!(o.contains("call sites"), "got: {o}");
    assert!(o.contains("callers"), "got: {o}");
    assert!(!o.contains("Region 1"), "--explain must not fall through; got: {o}");
    assert!(o.contains("  status       UNREACHABLE — tests reach it, production cannot"), "{o}");
    assert!(o.contains("  defined      main.rs:3"), "{o}");
}

#[test]
fn json_carries_a_versioned_envelope() {
    let s = scan_of("test_only");
    let found = scan::never_run(&s);
    let r = report::flat(&s, &found, false);
    assert_eq!(r.schema, 1);
    assert_eq!(r.tool, "landed");
    assert_eq!(r.mode, "direct");
    assert_eq!(r.findings.unwrap().len(), 1);
    assert!(r.regions.is_none());
}

#[test]
fn json_summary_states_what_could_not_be_analysed() {
    let s = scan_of("ambiguous");
    let found = scan::never_run(&s);
    let r = report::flat(&s, &found, false);
    assert_eq!(r.summary.production_functions, 3);
    assert_eq!(r.summary.unanalysable_names, 2);
}

#[test]
fn graph_json_reports_regions_with_confidence() {
    let s = scan_of("dead_region");
    let regions = scan::dead_regions(&s);
    let r = report::grouped(&s, &regions);
    assert_eq!(r.mode, "graph");
    assert_eq!(r.summary.regions, 1);
    assert_eq!(r.summary.unreachable, 3);
    assert_eq!((r.summary.confident, r.summary.uncertain), (1, 0));
    assert_eq!(r.regions.unwrap()[0].entry.name, "dead_entry");
    assert_eq!(r.regions.unwrap()[0].confidence, Confidence::High);
}

#[test]
fn github_format_annotates_the_source_line() {
    let s = scan_of("dead_region");
    let o = report::github_regions(&scan::dead_regions(&s), &fixture("dead_region").root);
    assert_eq!(
        o,
        "::warning file=main.rs,line=3,title=landed::dead_entry is the entry to 3 functions \
         nothing in production reaches; they resolve when it does\n"
    );
}

#[test]
fn github_format_annotates_one_line_per_region_not_per_function() {
    let s = scan_of("dead_region");
    let o = report::github_regions(&scan::dead_regions(&s), "");
    assert_eq!(o.lines().count(), 1, "three dead functions, one region; got: {o}");
}

#[test]
fn an_uncertain_finding_is_a_notice() {
    let s = scan_of("dead_region");
    let o = report::github(&scan::never_run_graph(&s), &fixture("dead_region").root);
    let lines: Vec<&str> = o.lines().collect();
    assert_eq!(
        lines[0],
        "::warning file=main.rs,line=3,title=landed::dead_entry is never called outside tests \
         (1 test call(s), 0 from production)"
    );
    assert!(lines[1].starts_with("::notice file=main.rs,line=4,"), "{}", lines[1]);
    assert!(lines[1].contains("middle may be unreachable: 1 production caller(s) exist"));
}

#[test]
fn fail_over_gates_the_exit_code() {
    let clean = scan::never_run(&scan_of("all_live")).len();
    assert!(!render::exceeds(clean, 0), "a clean crate must not fail the build");
    let s = scan_of("dead_region");
    let (total, _) = report::sizes(&scan::dead_regions(&s));
    assert!(render::exceeds(total, 1), "three findings over a threshold of one must fail");
    assert!(!render::exceeds(total, 3));
    assert!(!render::exceeds(total, 0));
}

#[test]
fn a_clean_crate_says_so_rather_than_printing_nothing() {
    let o = regions_page("all_live");
    assert!(o.contains("reachable"), "got: {o}");
}

// ─── code scanning ────────────────────────────────────────────

fn sarif_of(name: &str) -> report::SarifLog {
    let s = scan_of(name);
    report::sarif(&[], Some(&scan::dead_regions(&s)), &fixture(name).root)
}

#[test]
fn sarif_is_well_formed() {
    let v = sarif_of("dead_region");
    assert_eq!(v.version, "2.1.0");
    assert!(v.schema.contains("sarif"));
    assert_eq!(v.tool, "landed");
    assert!(v.rules.len() >= 3, "rules must be declared");
}

#[test]
fn every_sarif_result_can_be_placed_in_a_file() {
    let v = sarif_of("dead_region");
    assert!(!v.results.is_empty());
    for r in &v.results {
        assert!(r.line >= 1);
        assert!(v.rules.iter().any(|rule| rule.id == r.rule && rule.level == r.level));
        assert_eq!(r.fingerprint, "main.rs:unreachable-region");
    }
}

#[test]
fn sarif_paths_are_relative() {
    let v = sarif_of("dead_region");
    let uri = &v.results[0].file;
    assert!(!uri.starts_with('/'), "got absolute path: {uri}");
}

#[test]
fn a_clean_crate_produces_valid_sarif_with_no_results() {
    let v = sarif_of("all_live");
    assert_eq!(v.version, "2.1.0");
    assert_eq!(v.results.len(), 0);
}

#[test]
fn sarif_lists_findings_where_no_regions_are_given() {
    let s = scan_of("dead_region");
    let v = report::sarif(&scan::never_run_graph(&s), None, &fixture("dead_region").root);
    let got: Vec<(&str, &str)> = v.results.iter().map(|r| (r.rule, r.level)).collect();
    assert_eq!(
        got,
        vec![
            ("unreachable-function", "warning"),
            ("possibly-unreachable", "note"),
            ("possibly-unreachable", "note"),
        ]
    );
    assert_eq!(
        v.results[0].text,
        "dead_entry is never called outside tests (1 test call(s), 0 from production)"
    );
}

// ─── what cargo says ──────────────────────────────────────────

#[test]
fn cargo_answers_for_a_real_crate() {
    let dir = dir_of("real", &[("Cargo.toml", MANIFEST), ("src/main.rs", ALL_LIVE)]);
    let ws = dir.workspace();
    assert!(ws.from_cargo);
    assert!(ws.is_application(), "it has a [[bin]]");
    assert!(ws.binary_names().contains(&"demo".to_string()), "{:?}", ws.binary_names());
}

#[test]
fn test_targets_are_excluded_from_production_sources() {
    let dir = crate_with("pub fn a() {}\n", "#[test]\nfn t() {}\n");
    let ws = dir.workspace();
    let dirs = ws.production_source_dirs();
    assert!(!dirs.iter().any(|d| d.ends_with("tests")), "got {dirs:?}");
    assert!(ws.non_production_roots().iter().any(|d| d.ends_with("tests")));
}

#[test]
fn a_directory_that_is_not_a_cargo_project_falls_back() {
    let above = Metadata {
        packages: vec![Package {
            id: "p".into(),
            name: "p".into(),
            targets: vec![CargoTarget {
                name: "p".into(),
                kind: vec!["bin".into()],
                src_path: "/work/src/main.rs".into(),
                canonical: "/work/src/main.rs".into(),
            }],
        }],
        workspace_members: vec!["p".into()],
    };
    let ws = targets::discover(&targets::home_of("/work/fixtures/dead_region/src"), Some(&above));
    assert!(!ws.from_cargo, "a fixture with no manifest of its own must not inherit one");
    assert!(targets::discover(&targets::home_of("/work/src"), Some(&above)).from_cargo);
}

#[test]
fn discovery_never_errors_on_a_path_cargo_cannot_read() {
    let ws = targets::discover("/nonexistent-path-xyz", None);
    assert!(!ws.from_cargo, "absence of cargo is ordinary, not an error");
    assert!(ws.production_source_dirs().is_empty());
}

// ─── against a baseline ───────────────────────────────────────

const WITH_ONE_DEAD: &str = r#"
fn main() { live(); }
fn live() {}
pub fn dead_a() {}
#[cfg(test)]
mod tests { #[test] fn a() { super::dead_a(); } }
"#;

const WITH_TWO_DEAD: &str = r#"
fn main() { live(); }
fn live() {}
pub fn dead_a() {}
pub fn dead_b() {}
#[cfg(test)]
mod tests {
    #[test] fn a() { super::dead_a(); }
    #[test] fn b() { super::dead_b(); }
}
"#;

#[test]
fn ci_flow_green_then_red() {
    let dir = configured(WITH_ONE_DEAD, None);
    let taken = Baseline::new(Mode::Direct, baseline::entries_now(&dir.scan(), false, &dir.root));
    assert_eq!(taken.accepted.len(), 1);
    assert_eq!(taken.accepted[0].file, "src/main.rs");

    // Unchanged: green.
    let clean = baseline::compare(&taken, &baseline::entries_now(&dir.scan(), false, &dir.root));
    assert!(!render::gate(clean.added.len(), 0), "an unchanged codebase must not fail CI");
    let out = render::report_comparison(&clean, &None).join("\n");
    assert_eq!(out, "No new unreachable code. 1 finding(s) carried from the baseline.");

    // One new dead function: red, and it names it.
    let dir = configured(WITH_TWO_DEAD, None);
    let dirty = baseline::compare(&taken, &baseline::entries_now(&dir.scan(), false, &dir.root));
    assert!(render::gate(dirty.added.len(), 0), "new unreachable code must fail CI");
    let out = render::report_comparison(&dirty, &None).join("\n");
    assert!(out.contains("dead_b"), "the new finding must be named; got: {out}");
    assert!(!out.contains("dead_a"), "accepted findings must not be re-reported; got: {out}");

    // A line that moves is no change.
    let moved = format!("\n\n\n{WITH_ONE_DEAD}");
    let dir = configured(&moved, None);
    let same = baseline::compare(&taken, &baseline::entries_now(&dir.scan(), false, &dir.root));
    assert!(same.added.is_empty() && same.cleared.is_empty());
}

#[test]
fn a_baseline_from_the_other_mode_is_refused() {
    let dir = configured(WITH_ONE_DEAD, None);
    let taken = Baseline::new(Mode::Graph, baseline::entries_now(&dir.scan(), true, &dir.root));
    let err = taken.serves(Mode::Direct, "b.json").unwrap_err();
    assert!(err.to_lowercase().contains("mode"), "got: {err}");
}

// ─── identities from the compiler ─────────────────────────────

const SAME_NAME_METHODS: &str = r#"
struct A;
struct B;
impl A { pub fn run(&self) -> u8 { helper_a() } }
impl B { pub fn run(&self) -> u8 { helper_b() } }
fn helper_a() -> u8 { 1 }
fn helper_b() -> u8 { 2 }
fn main() { let _ = A.run(); }
#[cfg(test)]
mod tests { #[test] fn t() { let _ = super::B.run(); } }
"#;

const SAME_NAME_METHODS_MIR: &str = "\
fn <impl at src/main.rs:4:1: 4:7>::run(_1: &A) -> u8 {
    bb0: {
        _0 = helper_a() -> [return: bb1, unwind continue];
    }
}
fn <impl at src/main.rs:5:1: 5:7>::run(_1: &B) -> u8 {
    bb0: {
        _0 = helper_b() -> [return: bb1, unwind continue];
    }
}
fn helper_a() -> u8 {
    bb0: {
        return;
    }
}
fn helper_b() -> u8 {
    bb0: {
        return;
    }
}
fn main() -> () {
    bb0: {
        _1 = A::run(const A) -> [return: bb1, unwind continue];
    }
}
fn tests::t() -> () {
    bb0: {
        _1 = B::run(const B) -> [return: bb1, unwind continue];
    }
}
";

#[test]
fn same_named_methods_on_different_types_are_distinguished() {
    let dir = configured(SAME_NAME_METHODS, None);
    assert!(
        dead_names(&dir).is_empty(),
        "the nominal tier must decline to judge an ambiguous name"
    );
    let precise = names(scan::never_run_graph(&dir.precise(SAME_NAME_METHODS_MIR)));
    assert!(precise.contains(&"B::run".to_string()), "got {precise:?}");
    assert!(precise.contains(&"helper_b".to_string()), "got {precise:?}");
    assert!(!precise.contains(&"A::run".to_string()), "A::run is live; got {precise:?}");
}

#[test]
fn precise_reduces_measured_ambiguity() {
    let dir = configured(SAME_NAME_METHODS, None);
    let (before, _) = scan::ambiguity_report(&dir.scan());
    let (after, _) = scan::ambiguity_report(&dir.precise(SAME_NAME_METHODS_MIR));
    assert!(before > 0, "the fixture must be ambiguous under the nominal tier");
    assert!(after < before, "precise must reduce ambiguity: {before} -> {after}");
}

#[test]
fn a_precise_scan_knows_what_the_default_one_finds() {
    let dir = configured(SAME_NAME_METHODS, None);
    let s = dir.precise(SAME_NAME_METHODS_MIR);
    assert_eq!(s.nominal_findings, Some(0));
    assert_eq!(dir.scan().nominal_findings, None);
    assert!(render::precision_caveat(&s, 2).is_empty());
    let told = render::precision_caveat(&s, 3);
    assert_eq!(told[0], "CAUTION — precise mode reports 3 findings; the default reports 0.");
}

const CASE_A: &str = r#"
mod alpha { pub fn helper() -> u8 { 1 } }
mod beta  { pub fn helper() -> u8 { 2 } }
fn main() { let _ = alpha::helper(); }
#[cfg(test)]
mod tests { #[test] fn t() { let _ = super::beta::helper(); } }
"#;

const CASE_A_MIR: &str = "\
fn alpha::helper() -> u8 {
    bb0: {
        return;
    }
}
fn beta::helper() -> u8 {
    bb0: {
        return;
    }
}
fn main() -> () {
    bb0: {
        _1 = alpha::helper() -> [return: bb1, unwind continue];
    }
}
fn tests::t() -> () {
    bb0: {
        _1 = beta::helper() -> [return: bb1, unwind continue];
    }
}
";

#[test]
fn case_a_same_named_free_functions_are_not_merged() {
    let found = names(scan::never_run_graph(&configured(CASE_A, None).precise(CASE_A_MIR)));
    assert!(
        found.iter().any(|n| n.contains("beta")),
        "beta::helper is test-only and must be reported; got {found:?}"
    );
    assert!(
        !found.iter().any(|n| n.contains("alpha")),
        "alpha::helper is live and must not be; got {found:?}"
    );
}

const CASE_B: &str = r#"
fn worker() -> u8 { deep_production() }
fn deep_production() -> u8 { 1 }
fn main() { let _ = worker(); }
#[cfg(test)]
mod tests {
    fn worker() -> u8 { 99 }
    #[test] fn t() { let _ = worker(); }
}
"#;

const CASE_B_MIR: &str = "\
fn worker() -> u8 {
    bb0: {
        _0 = deep_production() -> [return: bb1, unwind continue];
    }
}
fn deep_production() -> u8 {
    bb0: {
        return;
    }
}
fn main() -> () {
    bb0: {
        _1 = worker() -> [return: bb1, unwind continue];
    }
}
fn tests::worker() -> u8 {
    bb0: {
        return;
    }
}
fn tests::t() -> () {
    bb0: {
        _1 = tests::worker() -> [return: bb1, unwind continue];
    }
}
";

#[test]
fn case_b_a_name_shared_by_production_and_test_does_not_strand_production() {
    let found = names(scan::never_run_graph(&configured(CASE_B, None).precise(CASE_B_MIR)));
    assert!(
        !found.iter().any(|n| n.contains("deep_production")),
        "deep_production is reached from main via worker: got {found:?}"
    );
}

const CASE_C: &str = r#"
struct A; struct B;
impl A { pub fn process(&self) -> u8 { from_a() } }
impl B { pub fn process(&self) -> u8 { from_b() } }
fn from_a() -> u8 { 1 }
fn from_b() -> u8 { 2 }
fn main() { let _ = A.process(); let _ = B.process(); }
"#;

const CASE_CD_MIR: &str = "\
fn <impl at src/main.rs:3:1: 3:7>::process(_1: &A) -> u8 {
    bb0: {
        _0 = only_a() -> [return: bb1, unwind continue];
    }
}
fn <impl at src/main.rs:4:1: 4:7>::process(_1: &B) -> u8 {
    bb0: {
        _0 = only_b() -> [return: bb1, unwind continue];
    }
}
fn main() -> () {
    bb0: {
        _1 = A::process(const A) -> [return: bb1, unwind continue];
    }
}
fn tests::t() -> () {
    bb0: {
        _1 = B::process(const B) -> [return: bb1, unwind continue];
    }
}
";

#[test]
fn case_c_same_method_name_on_different_types_both_live() {
    let mir = CASE_CD_MIR
        .replace("only_", "from_")
        .replace("fn tests::t", "fn main_again")
        .replace("fn main_again() -> () {\n    bb0: {\n        _1 = B::process(const B) -> [return: bb1, unwind continue];\n    }\n}\n", "")
        .replace(
            "_1 = A::process(const A) -> [return: bb1, unwind continue];\n",
            "_1 = A::process(const A) -> [return: bb1, unwind continue];\n    }\n    bb1: {\n        _2 = B::process(const B) -> [return: bb2, unwind continue];\n",
        );
    let found = names(scan::never_run_graph(&configured(CASE_C, None).precise(&mir)));
    assert!(found.is_empty(), "both are reached from main; got {found:?}");
}

const CASE_D: &str = r#"
struct A; struct B;
impl A { pub fn process(&self) -> u8 { only_a() } }
impl B { pub fn process(&self) -> u8 { only_b() } }
fn only_a() -> u8 { 1 }
fn only_b() -> u8 { 2 }
fn main() { let _ = A.process(); }
#[cfg(test)]
mod tests { #[test] fn t() { let _ = super::B.process(); } }
"#;

#[test]
fn case_d_production_and_test_reachability_are_distinguished() {
    let found = names(scan::never_run_graph(&configured(CASE_D, None).precise(CASE_CD_MIR)));
    assert!(found.contains(&"B::process".to_string()), "got {found:?}");
    assert!(found.contains(&"only_b".to_string()), "downstream too; got {found:?}");
    assert!(!found.contains(&"A::process".to_string()), "A is live; got {found:?}");
    assert!(!found.contains(&"only_a".to_string()), "reached via A; got {found:?}");
}

#[test]
fn the_default_tier_is_unaffected_by_the_precise_one_existing() {
    assert!(regions_page("dead_region").contains("dead_entry"));
}

#[test]
fn precise_never_labels_a_symbol_resolved() {
    assert_eq!(SymbolId::typed("f", "A").precision(), Precision::Typed);
    assert_eq!(SymbolId::in_module("f", "m").precision(), Precision::Typed);
    assert_eq!(SymbolId::nominal("f").precision(), Precision::Nominal);
}

// ─── what is read out of the text ─────────────────────────────

fn program(main_rs: &str) -> scan::Scan {
    dir_of("text", &[("Cargo.toml", MANIFEST), ("src/main.rs", main_rs)]).scan()
}

fn def<'a>(s: &'a scan::Scan, name: &str) -> &'a scan::FnDef {
    s.defs.iter().find(|d| d.id.name == name).unwrap_or_else(|| panic!("no {name}"))
}

#[test]
fn a_file_that_does_not_parse_is_left_out_and_the_rest_is_read() {
    let d = dir_of(
        "broken",
        &[
            ("Cargo.toml", MANIFEST),
            ("src/main.rs", "fn main() { live(); }\nfn live() {}\n"),
            ("src/broken.rs", "fn oops( {"),
        ],
    );
    let s = d.scan();
    let found: Vec<&str> = s.defs.iter().map(|d| d.id.name.as_str()).collect();
    assert_eq!(found, vec!["main", "live"]);
}

#[test]
fn definitions_carry_what_their_source_says() {
    let s = program(
        "fn main() {}\n\
         /// The latest test hook, fastest of all.\n\
         pub fn plain() {}\n\
         #[no_mangle]\n\
         pub fn exported() {}\n\
         extern \"C\" fn called_from_c() {}\n\
         #[allow(unused)]\n\
         fn kept() {}\n\
         #[cfg(feature = \"fastest\")]\n\
         fn fast() {}\n\
         #[cfg(any(test, feature = \"x\"))]\n\
         fn only_in_tests() {}\n\
         #[tokio::test]\n\
         async fn harness() {}\n\
         mod inner {\n\
             struct S;\n\
             impl S { pub fn method(&self) {} }\n\
             impl Clone for S { fn clone(&self) -> S { S } }\n\
             impl<'a> Iterator for &'a S { type Item = u8; fn next(&mut self) -> Option<u8> { None } }\n\
         }\n",
    );
    let plain = def(&s, "plain");
    assert!(plain.is_pub && !plain.in_test && !plain.is_test_fn && !plain.is_ffi);
    assert_eq!((plain.line, plain.module.as_deref()), (3, None));
    assert!(def(&s, "exported").is_ffi);
    assert!(def(&s, "called_from_c").is_ffi);
    assert!(def(&s, "kept").allowed_dead);
    assert!(!def(&s, "fast").in_test);
    assert!(def(&s, "only_in_tests").in_test);
    assert!(def(&s, "harness").is_test_fn);
    let method = def(&s, "method");
    assert_eq!((method.self_ty.as_deref(), method.module.as_deref()), (Some("S"), Some("inner")));
    assert!(!method.trait_impl && def(&s, "clone").trait_impl);
    assert_eq!(def(&s, "next").self_ty, None);
}

#[test]
fn public_imports_are_handed_on() {
    let s = program(
        "pub use a::one;\n\
         pub use a::{two, b::{three as third, four}, c::*};\n\
         use a::five;\n\
         pub(crate) use a::six;\n\
         fn main() {}\n",
    );
    let mut handed = s.reexported.items().clone();
    handed.sort();
    assert_eq!(handed, vec!["four", "one", "third", "three", "two"]);
}

#[test]
fn calls_are_credited_to_the_innermost_function() {
    let s = program(
        "static S: fn() = make();\n\
         fn main() { fn inner() { deep(); } inner(); x.method(); path::to::free(); }\n",
    );
    assert!(s.edges.calls("", "make"));
    assert!(s.edges.calls("inner", "deep") && !s.edges.calls("main", "deep"));
    assert!(s.edges.calls("main", "inner"));
    assert!(s.edges.calls("main", "method"));
    assert!(s.edges.calls("main", "free"));
}

#[test]
fn tokens_of_macros_count_as_calls_in_front_of_parentheses() {
    let s = program(
        "fn main() { m!(first(second(1)), third [x], fourth { y }, fifth; (z), sixth! (w)); }\n",
    );
    for name in ["first", "second"] {
        assert!(s.edges.calls("main", name), "{name}");
    }
    for name in ["third", "fourth", "fifth", "sixth"] {
        assert!(!s.edges.calls("main", name), "{name}");
    }
}

#[test]
fn a_function_of_another_language_is_never_accused() {
    let s = program(
        "fn main() {}\n\
         pub extern \"C\" fn entered_from_c() { behind(); }\n\
         fn behind() {}\n\
         #[cfg(test)]\n\
         mod tests { #[test] fn t() { super::entered_from_c(); } }\n",
    );
    assert!(scan::never_run(&s).is_empty());
    assert!(scan::never_run_graph(&s).is_empty());
}

#[test]
fn what_is_left_out_of_tests_is_no_test() {
    let s = program(
        "fn main() {}\n\
         #[cfg(not(test))]\n\
         fn shipped() {}\n\
         #[cfg(all(unix, not(any(test, feature = \"x\"))))]\n\
         fn shipped_too() {}\n\
         #[cfg(all(not(windows), test))]\n\
         fn tried() {}\n\
         #[cfg(not(test))]\n\
         mod real { pub fn inside() {} }\n",
    );
    assert!(!def(&s, "shipped").in_test);
    assert!(!def(&s, "shipped_too").in_test);
    assert!(def(&s, "tried").in_test);
    assert!(!def(&s, "inside").in_test);
}

#[test]
fn the_path_of_an_attribute_opens_a_function_to_the_outside() {
    let s = program(
        "fn main() {}\n\
         /// Never used, has no export_name and no_mangle neither.\n\
         fn documented() {}\n\
         #[allow(unused)]\n\
         fn kept() {}\n\
         #[doc(alias = \"export_name\")]\n\
         fn aliased() {}\n\
         #[export_name = \"c_name\"]\n\
         fn renamed() {}\n\
         #[unsafe(no_mangle)]\n\
         fn plain() {}\n\
         #[unsafe(export_name = \"c_other\")]\n\
         fn other() {}\n",
    );
    for name in ["documented", "kept", "aliased"] {
        assert!(!def(&s, name).is_ffi, "{name}");
    }
    for name in ["renamed", "plain", "other"] {
        assert!(def(&s, name).is_ffi, "{name}");
    }
}

#[test]
fn a_path_names_its_last_segment() {
    let s = program(
        "fn main() { a::b::far(); self::near(); (table.entry)(); (pick())(); }\n\
         struct S;\n\
         impl inner::deep::Kind { fn of_kind() {} }\n\
         impl std::fmt::Debug for S { fn debugged() {} }\n\
         impl dyn Fn() { fn of_none() {} }\n",
    );
    assert!(s.edges.calls("main", "far") && s.edges.calls("main", "near"));
    assert!(!s.edges.calls("main", "a") && !s.edges.calls("main", "b"));
    assert!(!s.edges.calls("main", "self") && !s.edges.calls("main", "entry"));
    assert!(s.edges.calls("main", "pick"));
    assert_eq!(def(&s, "of_kind").self_ty.as_deref(), Some("Kind"));
    assert!(!def(&s, "of_kind").trait_impl);
    assert!(def(&s, "debugged").trait_impl);
    assert_eq!(def(&s, "debugged").self_ty.as_deref(), Some("S"));
    assert_eq!(def(&s, "of_none").self_ty, None);
}

#[test]
fn what_is_public_in_part_is_not_public() {
    let s = program("fn main() {}\npub fn all() {}\npub(crate) fn some() {}\nfn none() {}\n");
    assert!(def(&s, "all").is_pub);
    assert!(!def(&s, "some").is_pub && !def(&s, "none").is_pub);
}

fn cargo_target(name: &str, kind: targets::Kind, src_path: &str) -> targets::Target {
    targets::Target { name: name.into(), kind, src_path: src_path.into(), package: "k".into() }
}

#[test]
fn a_bench_does_not_make_tests_of_the_sources_beside_it() {
    let d = dir_of(
        "k",
        &[
            ("Cargo.toml", MANIFEST),
            ("src/main.rs", "fn main() { live(); }\nfn live() {}\n"),
            ("src/speed.rs", "fn speed() {}\n"),
            ("b.rs", "fn bench() {}\n"),
            ("helpers/h.rs", "fn help() {}\n"),
        ],
    );
    let tree = d.tree();
    let ws = Workspace {
        targets: vec![
            cargo_target("k", targets::Kind::Bin, &d.path("src/main.rs")),
            cargo_target("b", targets::Kind::NotProduction, &d.path("b.rs")),
            cargo_target("speed", targets::Kind::NotProduction, &d.path("src/speed.rs")),
        ],
        from_cargo: true,
    };
    let project = CargoProject::new(&tree, ws);
    assert!(!project.is_test_file(&d.path("src/main.rs")));
    assert!(project.is_test_file(&d.path("src/speed.rs")));
    assert!(project.is_test_file(&d.path("b.rs")));
    assert!(project.is_test_file(&d.path("helpers/h.rs")));
    assert!(!project.is_test_file("/elsewhere/main.rs"));
    assert_eq!(
        project.source_dirs(),
        vec![d.path("src"), d.root.clone(), d.path("src")]
    );
    assert_eq!(scan::resolve_roots(&tree, project.workspace()), vec![d.path("src")]);
    assert_eq!(scan::resolve_roots(&tree, &Workspace::default()), vec![d.path("src")]);
}

#[test]
fn a_project_of_several_crates_is_read_in_order() {
    let d = dir_of("w", &[("Cargo.toml", MANIFEST)]);
    let ws = Workspace {
        targets: vec![
            cargo_target("b", targets::Kind::Lib, "/w/b/src/lib.rs"),
            cargo_target("bin", targets::Kind::Bin, "/w/b/src/bin/tool.rs"),
            cargo_target("a", targets::Kind::Lib, "/w/a/src/lib.rs"),
            cargo_target("build", targets::Kind::BuildScript, "/w/a/build.rs"),
        ],
        from_cargo: true,
    };
    assert_eq!(scan::resolve_roots(&d.tree(), &ws), vec!["/w/a/src", "/w/b/src"]);
}
