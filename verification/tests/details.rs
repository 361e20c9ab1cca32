//! Single parts on chosen values.

use landed::changes;
use landed::config::Config;
use landed::evidence::Evidence;
use landed::frontend;
use landed::frontend::mir_dump;
use landed::frontend::mir_dump::PreciseError;
use landed::frontend::mir_dump::Run;
use landed::frontend::syn_frontend::file_module_path;
use landed::frontend::syntax::SyntaxNode;
use landed::frontend::Tier;
use landed::graph::CallGraph;
use landed::ir::Definition;
use landed::ir::Edge;
use landed::ir::EdgeKind;
use landed::ir::Extract;
use landed::ir::Frontend;
use landed::ir::Precision;
use landed::ir::SymbolId;
use landed::lang;
use landed::lang::Language;
use landed::names::NameMap;
use landed::names::NameSet;
use landed::number;
use landed::order;
use landed::paths;
use landed::project;
use landed::project::skipped;
use landed::project::skipped_in;
use landed::project::SourceTree;
use landed::render;
use landed::report;
use landed::scan;
use landed::scan::Facts;
use landed::scan::Scan;
use landed::targets::Kind;
use landed::targets::Target;
use landed::targets::Workspace;
use landed::text;

fn def(name: &str, line: usize) -> Definition {
    Definition {
        id: SymbolId::nominal(name),
        precision: Precision::Nominal,
        file: "/p/src/main.rs".into(),
        line,
        in_test: false,
        is_test_fn: false,
        trait_impl: false,
        allowed_dead: false,
        is_pub: false,
        is_ffi: false,
        opaque: false,
        crate_root: "/p/src".into(),
        self_ty: None,
        module: None,
    }
}

fn test_def(name: &str, line: usize) -> Definition {
    Definition { in_test: true, is_test_fn: true, ..def(name, line) }
}

fn call(from: &str, to: &str, in_test: bool) -> Edge {
    Edge {
        from: SymbolId::nominal(from),
        to: SymbolId::nominal(to),
        kind: EdgeKind::Call,
        precision: Precision::Nominal,
        in_test,
        file: "/p/src/main.rs".into(),
        line: 7,
    }
}

fn scan_from(definitions: Vec<Definition>, edges: Vec<Edge>, config: Config) -> Scan {
    Scan::from_extract(
        Extract {
            definitions,
            edges,
            reexported: NameSet::new(),
            crate_roots: vec!["/p/src".into()],
        },
        Facts {
            application: true,
            entry_points: vec!["main".into()],
            entry_files: vec![],
            config,
            description: "rust, 1 cargo target(s); application".into(),
        },
    )
}

fn names(found: Vec<scan::Finding>) -> Vec<String> {
    let mut v: Vec<String> = found.into_iter().map(|f| f.name).collect();
    v.sort();
    v
}

// ─── findings ─────────────────────────────────────────────────

fn dead_chain() -> (Vec<Definition>, Vec<Edge>) {
    (
        vec![def("main", 1), def("entry", 2), def("middle", 3), test_def("t", 9)],
        vec![call("t", "entry", true), call("entry", "middle", false)],
    )
}

#[test]
fn the_direct_check_sees_the_tip_and_the_graph_the_whole() {
    let (d, e) = dead_chain();
    let s = scan_from(d, e, Config::default());
    assert_eq!(names(scan::never_run(&s)), vec!["entry"]);
    assert_eq!(names(scan::never_run_graph(&s)), vec!["entry", "middle"]);
    let found = scan::never_run_graph(&s);
    assert_eq!(found[0].name, "entry");
    assert_eq!(found[0].confidence, scan::Confidence::High);
    assert_eq!(found[0].examples, vec!["/p/src/main.rs:7"]);
    assert_eq!(found[1].confidence, scan::Confidence::Medium);
    assert_eq!((found[1].test_calls, found[1].prod_calls), (0, 1));
}

#[test]
fn a_declared_root_is_reported_in_neither_mode() {
    let (d, e) = dead_chain();
    let config = Config { roots: vec!["ent*".into()], ignore: vec![] };
    let s = scan_from(d, e, config);
    assert!(scan::never_run(&s).is_empty());
    assert!(scan::never_run_graph(&s).is_empty());
}

#[test]
fn what_is_exempt_is_reported_in_neither_mode() {
    let ways: [fn(&mut Definition); 3] =
        [|d| d.trait_impl = true, |d| d.allowed_dead = true, |d| d.is_ffi = true];
    for way in ways {
        let (mut d, e) = dead_chain();
        way(&mut d[1]);
        let s = scan_from(d, e, Config::default());
        assert!(!names(scan::never_run(&s)).contains(&"entry".to_string()));
        assert!(!names(scan::never_run_graph(&s)).contains(&"entry".to_string()));
    }
    let (d, e) = dead_chain();
    let mut x = Extract::default();
    x.definitions = d;
    x.edges = e;
    x.reexported.insert("entry");
    let facts = Facts {
        application: true,
        entry_points: vec![],
        entry_files: vec![],
        config: Config::default(),
        description: String::new(),
    };
    assert_eq!(names(scan::never_run(&Scan::from_extract(x, facts))), Vec::<String>::new());
}

#[test]
fn the_public_surface_of_a_library_is_entered_from_outside() {
    let (mut d, e) = dead_chain();
    d[1].is_pub = true;
    let mut s = scan_from(d, e, Config::default());
    assert_eq!(names(scan::never_run_graph(&s)), vec!["entry", "middle"]);
    s.application = false;
    assert!(!scan::is_application(&s));
    assert!(scan::never_run(&s).is_empty());
    assert!(scan::never_run_graph(&s).is_empty());
}

#[test]
fn a_key_of_two_definitions_is_left_alone() {
    let (mut d, e) = dead_chain();
    d.push(def("entry", 40));
    let s = scan_from(d, e, Config::default());
    assert!(!names(scan::never_run_graph(&s)).contains(&"entry".to_string()));
    assert_eq!(scan::ambiguity_report(&s), (2, 4));
}

#[test]
fn a_token_in_a_test_accuses_nobody() {
    let mut guess = call("t", "guessed", true);
    guess.kind = EdgeKind::MacroToken;
    let s = scan_from(
        vec![def("main", 1), def("guessed", 2), test_def("t", 9)],
        vec![guess],
        Config::default(),
    );
    assert!(scan::never_run(&s).is_empty());
    assert!(scan::never_run_graph(&s).is_empty());
    let changed = NameSet::of(&vec!["guessed".to_string()]);
    assert_eq!(scan::tests_reaching(&s, &changed), vec!["t"]);
}

#[test]
fn regions_hold_every_finding_once() {
    let s = scan_from(
        vec![
            def("main", 1),
            def("a", 2),
            def("b", 3),
            def("lone", 4),
            def("x", 5),
            def("y", 6),
            test_def("t", 9),
        ],
        vec![
            call("t", "a", true),
            call("a", "b", false),
            call("t", "lone", true),
            call("t", "x", true),
            call("x", "y", false),
            call("y", "x", false),
        ],
        Config::default(),
    );
    let regions = scan::dead_regions(&s);
    let (total, sure) = report::sizes(&regions);
    assert_eq!(total, scan::never_run_graph(&s).len());
    assert_eq!(total, 5);
    // The cycle of x and y has a production caller at its way in.
    assert_eq!(sure, 2);
    let told = report::grouped(&s, &regions);
    assert_eq!((told.summary.unreachable, told.summary.regions), (5, 3));
    assert_eq!((told.summary.confident, told.summary.uncertain), (2, 1));
    let entries: Vec<&str> = regions.iter().map(|r| r.entry.name.as_str()).collect();
    assert_eq!(entries, vec!["a", "x", "lone"]);
    assert_eq!(regions[1].members[0].name, "y");
    let page = render::report_regions(&s, &regions, "/p", "0.0").join("\n");
    assert!(page.contains("  read as rust, 1 cargo target(s); application\n"), "{page}");
    assert!(page.contains("5 unreachable functions in 3 regions\n"), "{page}");
    assert!(page.contains("  2 confident, 1 uncertain"), "{page}");
    assert!(page.contains("  2 subsystems of 2+ functions, and 1 lone function\n"), "{page}");
    assert!(page.contains("Region 2 — 2 functions  [UNCERTAIN"), "{page}");
    let lone = format!("  {:32} src/main.rs:4", "lone");
    assert!(page.contains(&lone), "{page}");
}

#[test]
fn the_graph_is_drawn() {
    let (d, e) = dead_chain();
    let s = scan_from(d, e, Config::default());
    assert_eq!(
        scan::to_dot(&s),
        "digraph calls {\n  rankdir=LR;\n  node [shape=box,fontsize=10];\n  \
         \"main\" [style=filled,fillcolor=\"#e8f0e8\"];\n  \
         \"entry\" [style=filled,fillcolor=\"#ffd6d6\"];\n  \
         \"middle\" [style=filled,fillcolor=\"#ffd6d6\"];\n  \
         \"t\" -> \"entry\";\n  \"entry\" -> \"middle\";\n}\n"
    );
}

#[test]
fn evidence_lists_callers_and_says_what_follows() {
    let (d, e) = dead_chain();
    let s = scan_from(d, e, Config::default());
    let ev: Evidence = scan::evidence(&s, "middle");
    assert_eq!(ev.defined, vec![("/p/src/main.rs".to_string(), 3)]);
    assert_eq!(ev.callers.len(), 1);
    assert_eq!((ev.callers[0].name.as_str(), ev.callers[0].live), ("entry", false));
    assert_eq!((ev.prod_call_sites, ev.test_call_sites), (1, 0));
    let page = render::explain(&ev, "/p").join("\n");
    assert!(page.contains("every caller is itself unreachable, so this is"), "{page}");
    assert!(page.contains(&format!("                 {:<34} dead", "entry")), "{page}");
    assert!(page.contains("  entry point  no"), "{page}");
    let none = render::explain(&scan::evidence(&s, "nobody"), "/p").join("\n");
    assert!(none.contains("  not defined in the scanned crates"), "{none}");
    assert!(none.contains("  callers      none recorded"), "{none}");
}

#[test]
fn nothing_read_is_no_clean_result() {
    let s = scan_from(vec![], vec![], Config::default());
    for page in [
        render::report(&s, &vec![], "/p", "0.0").join("\n"),
        render::report_regions(&s, &vec![], "/p", "0.0").join("\n"),
    ] {
        assert!(page.contains("  No source was read."), "{page}");
        assert!(!page.contains("reachable from production"), "{page}");
    }
}

#[test]
fn a_clean_run_says_so() {
    let s = scan_from(vec![def("main", 1)], vec![], Config::default());
    let page = render::report(&s, &vec![], "/p", "0.0");
    assert_eq!(
        page,
        vec![
            "landed v0.1.0",
            "  1 production functions scanned",
            "  read as rust, 1 cargo target(s); application",
            "",
            "  No never-run functions found.",
        ]
    );
}

#[test]
fn a_written_baseline_is_announced() {
    let page = render::report_written("f.json", 2);
    assert_eq!(page[0], "wrote f.json — 2 finding(s) accepted");
    assert_eq!(page.len(), 5);
}

#[test]
fn formats_are_named() {
    assert_eq!(render::Format::of(true, "github"), render::Format::Json);
    assert_eq!(render::Format::of(false, "json"), render::Format::Json);
    assert_eq!(render::Format::of(false, "github"), render::Format::Github);
    assert_eq!(render::Format::of(false, "sarif"), render::Format::Sarif);
    assert_eq!(render::Format::of(false, "anything"), render::Format::Text);
}

#[test]
fn a_gate_counts_what_is_new() {
    assert!(!render::gate(0, 0));
    assert!(render::gate(1, 0));
    assert!(!render::gate(3, 3));
    assert!(render::gate(4, 3));
}

#[test]
fn the_first_thing_asked_for_is_shown() {
    shows(true, true, true, true, render::Page::Explain);
    shows(false, true, true, true, render::Page::Stats);
    shows(false, false, true, true, render::Page::Dot);
    shows(false, false, false, true, render::Page::Baseline);
    assert_eq!(render::page(false, false, false, false, true, false), render::Page::Regions);
    assert_eq!(render::page(false, false, false, false, false, false), render::Page::Findings);
}

fn shows(explain: bool, stats: bool, dot: bool, baseline: bool, want: render::Page) {
    assert_eq!(render::page(explain, stats, dot, baseline, true, false), want);
}

// ─── reading a diff ───────────────────────────────────────────

#[test]
fn hunks_give_lines_to_files() {
    let c = changes::changed_lines(
        "diff --git a/x.rs b/x.rs\n--- a/x.rs\n+++ b/x.rs\n@@ -1,2 +3,2 @@ fn f() {\n-a\n+b\n\
         @@ -9 +10 @@\n-a\n+b\n@@ -20,2 +19,0 @@\n-a\n-b\n--- a/y.rs\n+++ b/y.rs\n@@ -1 +1 @@\n\
         --- a/x.rs\n+++ b/x.rs\n@@ -30 +31 @@\n",
    );
    assert!(c.skipped.is_empty(), "{:?}", c.skipped);
    assert_eq!(c.files.len(), 2);
    assert_eq!(c.files[0].file, "x.rs");
    assert_eq!(c.files[0].lines, vec![3, 4, 10, 19, 31]);
    assert_eq!((c.files[1].file.as_str(), &c.files[1].lines), ("y.rs", &vec![1]));
}

#[test]
fn what_a_diff_does_not_tell_is_listed() {
    let c = changes::changed_lines(
        "@@ -1 +1 @@\n--- a/gone.rs\n+++ /dev/null\n@@ -1 +0,0 @@\n-x\n\
         --- \"a/odd\\tname.rs\"\n+++ \"b/odd\\tname.rs\"\n@@ -1 +1 @@\n\
         Binary files a/i.png and b/i.png differ\n\
         --- a/x.rs\n+++ b/x.rs\n@@ garbled @@\n@@ -1 +one @@\n@@ -1 +1,two @@\n",
    );
    assert_eq!(
        c.skipped,
        vec![
            "@@ -1 +1 @@",
            "gone.rs (deleted)",
            "\"b/odd\\tname.rs\"",
            "Binary files a/i.png and b/i.png differ",
            "@@ garbled @@",
            "@@ -1 +one @@",
            "@@ -1 +1,two @@",
        ]
    );
    assert!(c.files.is_empty());
}

#[test]
fn lines_of_code_are_no_headers() {
    // Added lines that look like the header of a file without being one.
    let c = changes::changed_lines("--- a/x.c\n+++ b/x.c\n@@ -1 +1 @@\n-a\n+++ i;\n@@ -5 +5 @@\n");
    assert!(c.skipped.is_empty(), "{:?}", c.skipped);
    assert_eq!(c.files[0].lines, vec![1, 5]);
}

#[test]
fn a_line_belongs_to_the_last_definition_before_it() {
    let mut other = def("elsewhere", 2);
    other.file = "/p/src/other.rs".into();
    let s = scan_from(vec![def("a", 2), def("b", 10), other], vec![], Config::default());
    let at = |line: usize| scan::defs_at(&s, "src/main.rs", &vec![line]).items().clone();
    assert_eq!(at(1), Vec::<String>::new());
    assert_eq!(at(2), vec!["a"]);
    assert_eq!(at(9), vec!["a"]);
    assert_eq!(at(10), vec!["b"]);
    assert_eq!(scan::defs_at(&s, "main.rs", &vec![3, 30]).len(), 2);
    assert_eq!(scan::defs_at(&s, "ain.rs", &vec![3]).len(), 0);
}

// ─── precise mode ─────────────────────────────────────────────

fn target(name: &str, kind: Kind) -> Target {
    Target {
        name: name.into(),
        kind,
        src_path: format!("/p/src/{name}.rs"),
        package: "pt".into(),
    }
}

#[test]
fn a_crate_with_a_lib_and_a_bin_is_dumped_per_target() {
    let ws = Workspace {
        targets: vec![
            target("pt", Kind::Lib),
            target("tool", Kind::Bin),
            target("it", Kind::NotProduction),
            target("build", Kind::BuildScript),
        ],
        from_cargo: true,
    };
    let plan = mir_dump::plan("/p", true, true, &ws).unwrap();
    assert_eq!(plan, vec![vec!["-p", "pt", "--lib"], vec!["-p", "pt", "--bin", "tool"]]);
    assert_eq!(
        mir_dump::arguments(&plan[0]),
        vec!["+nightly", "rustc", "--profile", "test", "-p", "pt", "--lib", "--", "-Zunpretty=mir"]
    );
    let free = mir_dump::plan("/p", true, true, &Workspace::default()).unwrap();
    assert_eq!(free, vec![Vec::<String>::new()]);
}

#[test]
fn precise_refuses_a_path_that_is_not_a_cargo_crate() {
    let err = mir_dump::plan("/p", false, true, &Workspace::default()).unwrap_err();
    assert!(err.message().contains("cargo crate"), "got {}", err.message());
    assert!(err.message().contains("/p"));
    let err = mir_dump::plan("/p", true, false, &Workspace::default()).unwrap_err();
    assert!(err.message().contains("rustup toolchain install nightly"));
    let err = PreciseError::CargoDidNotRun("no such file".into());
    assert_eq!(err.message(), "could not run cargo: no such file");
}

fn run(success: bool, stdout: &str, stderr: &str) -> Run {
    Run {
        selector: vec!["-p".into(), "pt".into(), "--lib".into()],
        success,
        stdout: stdout.into(),
        stderr: stderr.into(),
    }
}

#[test]
fn precise_refuses_a_crate_that_does_not_compile() {
    let broken = run(
        false,
        "",
        "   Compiling pt\nerror[E0425]: cannot find function\n  note\nerror: aborting\nerror: third\n",
    );
    let err = mir_dump::outcome(&vec![broken]).unwrap_err();
    assert!(err.message().contains("could not produce MIR"), "got {}", err.message());
    assert!(
        err.message()
            .contains("  -p pt --lib: error[E0425]: cannot find function / error: aborting"),
        "got {}",
        err.message()
    );
    assert!(matches!(mir_dump::outcome(&vec![run(true, "nothing", "")]), Err(PreciseError::NoMir)));
    let empty = mir_dump::outcome(&vec![run(true, "\n", "")]).unwrap_err();
    assert!(empty.message().contains("(cargo reported no error, but emitted nothing)"));
    let fine = vec![run(true, "fn a() {", ""), run(true, "fn b() {", "")];
    assert_eq!(mir_dump::outcome(&fine).unwrap(), "fn a() {\nfn b() {\n");
}

#[test]
fn the_directory_of_the_manifest_is_found() {
    assert_eq!(mir_dump::crate_dir("/p", true, false), "/p");
    assert_eq!(mir_dump::crate_dir("/p/src", false, true), "/p");
    assert_eq!(mir_dump::crate_dir("/p/src", false, false), "/p/src");
    assert_eq!(mir_dump::crate_dir("/p/lib", false, true), "/p/lib");
}

#[test]
fn tiers_have_frontends() {
    assert_eq!(frontend::for_tier(Tier::Default).unwrap_or_else(|e| panic!("{e}")).name(), "syn");
    assert_eq!(frontend::for_tier(Tier::Precise).unwrap_or_else(|e| panic!("{e}")).name(), "mir");
    let go = frontend::for_tier_in(Tier::Default, Language::Go).unwrap_or_else(|e| panic!("{e}"));
    assert_eq!(go.name(), "tree-sitter");
    assert_eq!(go.precision(), Precision::Nominal);
    assert!(frontend::for_tier_in(Tier::Precise, Language::Go).is_err());
    assert_eq!(frontend::precision(Tier::Precise), Precision::Typed);
}

// ─── languages ────────────────────────────────────────────────

#[test]
fn languages_are_named_in_any_case() {
    assert_eq!(Language::parse("Rust"), Ok(Language::Rust));
    assert_eq!(Language::parse("PY"), Ok(Language::Python));
    assert_eq!(Language::parse("ts"), Ok(Language::TypeScript));
    assert_eq!("Golang".parse(), Ok(Language::Go));
    assert_eq!(
        Language::parse("Co\"bol"),
        Err("unknown language \"co\\\"bol\"; known: rust, python, typescript, go".to_string())
    );
}

#[test]
fn a_tie_goes_to_the_language_that_is_listed_first() {
    let no: Vec<String> = vec![];
    let files = vec!["/p/a.go".to_string(), "/p/b.py".to_string()];
    assert_eq!(lang::detect(&no, &no, &files), Some(Language::Python));
    assert_eq!(lang::detect(&no, &no, &no), None);
    let above = vec!["go.mod".to_string()];
    assert_eq!(lang::detect(&no, &above, &files), Some(Language::Go));
    assert!(Language::TypeScript.owns("/p/a.mjs"));
    assert!(!Language::Rust.owns("/p/rs"));
}

#[test]
fn foreign_directories_are_passed_over() {
    assert!(skipped("/p/target/debug/x.rs"));
    assert!(skipped("/p/node_modules"));
    assert!(!skipped("/p/targets/x.rs"));
    // An environment of Python may hold a crate.
    assert!(skipped("/h/venv/p/src/main.py"));
    assert!(skipped_in(Language::Python, "/h/venv/p/src/main.py"));
    for dir in [".venv", "venv", "site-packages", "__pycache__", ".tox", ".mypy_cache"] {
        let file = format!("/h/{dir}/p/src/main.rs");
        assert!(skipped(&file) && !skipped_in(Language::Rust, &file), "{file}");
    }
    assert!(skipped_in(Language::Rust, "/p/vendor/dep/src/lib.rs"));
}

#[test]
fn kinds_are_told_from_cargo() {
    let of = |kinds: &[&str]| Kind::from_cargo(&kinds.iter().map(|k| k.to_string()).collect());
    assert_eq!(of(&["bin"]), Kind::Bin);
    assert_eq!(of(&["custom-build"]), Kind::BuildScript);
    assert_eq!(of(&["bench"]), Kind::NotProduction);
    assert_eq!(of(&["rlib", "cdylib"]), Kind::Lib);
    assert_eq!(of(&["proc-macro"]), Kind::Lib);
}

#[test]
fn files_make_modules() {
    let path = |file: &str| file_module_path(file, "/p/src").join("::");
    assert_eq!(path("/p/src/lib.rs"), "");
    assert_eq!(path("/p/src/alpha.rs"), "alpha");
    assert_eq!(path("/p/src/a/b.rs"), "a::b");
    assert_eq!(path("/p/src/a/mod.rs"), "a");
    assert_eq!(path("/q/src/a.rs"), "");
}

// ─── names, graphs, text ──────────────────────────────────────

#[test]
fn symbols_are_written_as_far_as_they_are_known() {
    assert_eq!(SymbolId::nominal("f").to_string(), "f");
    assert_eq!(SymbolId::typed("f", "A").to_string(), "A::f");
    assert_eq!(SymbolId::in_module("f", "a::b").to_string(), "a::b::f");
    let whole = SymbolId {
        name: "f".into(),
        self_ty: Some("A".into()),
        krate: Some("k".into()),
        path: None,
    };
    assert_eq!(whole.to_string(), "k::A::f");
    assert_eq!(whole.precision(), Precision::Resolved);
    assert!(Precision::Nominal < Precision::Typed && Precision::Typed < Precision::Resolved);
    assert!(EdgeKind::MacroToken.can_prove_live());
    assert!(!EdgeKind::MacroToken.can_create_finding());
    assert!(EdgeKind::MethodCall.can_create_finding());
}

#[test]
fn names_keep_the_order_in_which_they_came() {
    let mut s = NameSet::new();
    assert!(s.insert("b"));
    assert!(s.insert("a"));
    assert!(!s.insert("b"));
    assert_eq!(s.items(), &vec!["b".to_string(), "a".to_string()]);
    let mut m: NameMap<u8> = NameMap::new();
    assert_eq!(m.exchange("x", 1), None);
    assert_eq!(m.exchange("x", 2), Some(1));
    assert_eq!(m.get("x"), Some(&2));
    assert_eq!(m.get("y"), None);
}

#[test]
fn reach_follows_calls() {
    let mut g = CallGraph::new();
    for (a, b) in [("a", "b"), ("b", "c"), ("c", "a"), ("d", "a")] {
        g.add_call(a, b);
    }
    let from = |x: &str| {
        let mut v = g.reach_from(&NameSet::of(&vec![x.to_string()])).items().clone();
        v.sort();
        v
    };
    assert_eq!(from("a"), vec!["a", "b", "c"]);
    assert_eq!(from("d"), vec!["a", "b", "c", "d"]);
    assert_eq!(from("z"), vec!["z"]);
    assert!(g.calls("d", "a") && !g.calls("a", "d"));
    assert!(g.turned().calls("a", "d"));
}

#[test]
fn text_is_taken_apart() {
    let c = text::chars_of("a::b::c");
    let parts: Vec<String> = text::split_all(&c, "::").iter().map(|p| text::string_of(p)).collect();
    assert_eq!(parts, vec!["a", "b", "c"]);
    assert_eq!(text::join_strings(&parts, "/"), "a/b/c");
    assert_eq!(text::find(&c, "::"), Some(1));
    assert_eq!(text::rfind(&c, "::"), Some(4));
    assert_eq!(text::find(&c, "x"), None);
    let t = text::chars_of("x\r\ny\n\nz");
    let lines: Vec<String> = text::lines(&t).iter().map(|l| text::string_of(l)).collect();
    assert_eq!(lines, "x\r\ny\n\nz".lines().map(str::to_string).collect::<Vec<_>>());
    assert!(text::mentions_word(&text::chars_of("cfg(any(test, x))"), "test"));
    assert!(!text::mentions_word(&text::chars_of("fastest"), "test"));
    assert!(!text::mentions_word(&text::chars_of("testé"), "test"));
    assert_eq!(text::string_of(text::trim(&text::chars_of("\u{3000} a b\t"))), "a b");
    assert_eq!(text::left_of("ab", 4), "ab  ");
    assert_eq!(text::rule_of(3), "───");
}

#[test]
fn numbers_are_written_and_read() {
    assert_eq!(number::decimal_of(0), "0");
    assert_eq!(number::decimal_of(90210), "90210");
    assert_eq!(number::padded_of(255, 16, 4), "00ff");
    assert_eq!(number::padded_of(u64::MAX, 16, 4), "ffffffffffffffff");
    let parse = |s: &str| number::parse_usize(&text::chars_of(s));
    assert_eq!(parse("+42"), Some(42));
    assert_eq!(parse("007"), Some(7));
    assert_eq!(parse(""), None);
    assert_eq!(parse("4a"), None);
    assert_eq!(parse("18446744073709551616"), None);
}

#[test]
fn paths_are_taken_apart() {
    assert_eq!(paths::file_name_of("/a/b.rs"), "b.rs");
    assert_eq!(paths::parent_of("/a/b.rs"), Some("/a".to_string()));
    assert_eq!(paths::parent_of("/a"), Some("/".to_string()));
    assert_eq!(paths::parent_of("a"), Some("".to_string()));
    assert_eq!(paths::stem_of("/a/b.test.ts"), "b.test");
    assert_eq!(paths::stem_of(".env"), ".env");
    assert_eq!(paths::extension_of("/a/b.test.ts"), Some("ts".to_string()));
    assert_eq!(paths::extension_of(".env"), None);
    assert_eq!(paths::join("/a", "b"), "/a/b");
    assert!(paths::is_within("/a/b", "/a") && !paths::is_within("/ab", "/a"));
    let sorted = paths::sort_paths(vec!["a.b".into(), "a/z".into(), "a".into(), "a/z".into()]);
    assert_eq!(sorted, vec!["a", "a/z", "a.b"]);
}

#[test]
fn texts_are_ordered_by_their_characters() {
    let v = ["b", "é", "a", "ab", "b"].iter().map(|s| s.to_string()).collect();
    assert_eq!(order::sort_texts(v), vec!["a", "ab", "b", "é"]);
    assert!(order::less("", "a") && !order::less("a", "a") && order::less("a", "aa"));
}

// ─── laws on chosen values ────────────────────────────────────

#[test]
fn an_extra_production_call_only_silences() {
    let (d, mut e) = dead_chain();
    let mut token = call("main", "entry", false);
    token.kind = EdgeKind::MacroToken;
    e.push(token);
    let s = scan_from(d, e, Config::default());
    assert!(scan::never_run(&s).is_empty());
    assert!(scan::never_run_graph(&s).is_empty());
}

#[test]
fn the_way_into_a_region_is_called_by_none_of_it() {
    // The tests call `deep` more often, yet `front` is where it is entered.
    let s = scan_from(
        vec![def("main", 1), def("deep", 2), def("front", 3), test_def("t", 9), test_def("u", 10)],
        vec![
            call("t", "front", true),
            call("front", "deep", false),
            call("t", "deep", true),
            call("u", "deep", true),
        ],
        Config::default(),
    );
    let regions = scan::dead_regions(&s);
    assert_eq!(regions.len(), 1);
    assert_eq!(regions[0].entry.name, "front");
    assert_eq!(regions[0].confidence, scan::Confidence::High);
    assert_eq!(regions[0].members[0].confidence, scan::Confidence::Medium);
}

#[test]
fn a_larger_change_runs_no_fewer_tests() {
    let s = scan_from(
        vec![def("a", 1), def("b", 2), test_def("ta", 9), test_def("tb", 10)],
        vec![call("ta", "a", true), call("tb", "b", true)],
        Config::default(),
    );
    let runs = |names: &[&str]| {
        let v = names.iter().map(|n| n.to_string()).collect();
        scan::tests_reaching(&s, &NameSet::of(&v))
    };
    assert_eq!(runs(&[]), Vec::<String>::new());
    assert_eq!(runs(&["a"]), vec!["ta"]);
    assert_eq!(runs(&["a", "b"]), vec!["ta", "tb"]);
}

#[test]
fn what_lies_below_a_foreign_directory_is_foreign() {
    assert!(skipped("/p/vendor"));
    assert!(skipped("/p/vendor/dep/src/lib.rs"));
}

fn shown(r: &scan::Region) -> Vec<&str> {
    let mut v = vec![r.entry.name.as_str()];
    v.extend(r.members.iter().map(|f| f.name.as_str()));
    v
}

#[test]
fn a_region_is_told_from_its_way_in_outwards() {
    let s = scan_from(
        vec![
            def("main", 1),
            def("dead_entry", 2),
            def("middle", 3),
            def("leaf", 4),
            def("aside", 5),
            def("busy", 6),
            test_def("t", 9),
        ],
        vec![
            call("t", "dead_entry", true),
            call("t", "leaf", true),
            call("t", "leaf", true),
            call("dead_entry", "middle", false),
            call("dead_entry", "aside", false),
            call("dead_entry", "busy", false),
            call("t", "busy", true),
            call("middle", "leaf", false),
        ],
        Config::default(),
    );
    let regions = scan::dead_regions(&s);
    assert_eq!(regions.len(), 1);
    // Those next to the entry come first, most called by tests in front; what
    // tests call most of all is further away.
    assert_eq!(shown(&regions[0]), vec!["dead_entry", "busy", "aside", "middle", "leaf"]);
    assert_eq!(regions[0].size, 5);
    assert_eq!(regions[0].files, vec!["/p/src/main.rs"]);
    let far = s.edges.distances("dead_entry");
    let told = |name: &str| far.get(name).copied();
    assert_eq!((told("dead_entry"), told("busy"), told("leaf")), (Some(0), Some(1), Some(2)));
    assert_eq!((told("main"), told("t")), (None, None));
}

#[test]
fn a_region_ends_where_no_finding_joins() {
    // `a` and `b` are called by the same live function and by the same test,
    // which join nothing.
    let s = scan_from(
        vec![
            def("main", 1),
            def("a", 2),
            def("b", 3),
            def("shared", 4),
            def("c", 5),
            test_def("t", 9),
        ],
        vec![
            call("main", "shared", false),
            call("a", "shared", false),
            call("b", "shared", false),
            call("t", "a", true),
            call("t", "b", true),
            call("c", "b", false),
            call("t", "c", true),
        ],
        Config::default(),
    );
    let regions = scan::dead_regions(&s);
    let told: Vec<Vec<&str>> = regions.iter().map(shown).collect();
    assert_eq!(told, vec![vec!["c", "b"], vec!["a"]]);
    let mut all: Vec<&str> = told.concat();
    all.sort();
    assert_eq!(names(scan::never_run_graph(&s)), all);
}

fn with_config(roots: &[&str], ignore: &[&str]) -> Vec<String> {
    let s = scan_from(
        vec![
            def("main", 1),
            def("old_import", 2),
            def("old_export", 3),
            def("behind", 4),
            def("other", 5),
            test_def("t", 9),
        ],
        vec![
            call("t", "old_import", true),
            call("t", "old_export", true),
            call("t", "other", true),
            call("t", "other", true),
            call("old_import", "behind", false),
        ],
        Config {
            roots: roots.iter().map(|r| r.to_string()).collect(),
            ignore: ignore.iter().map(|r| r.to_string()).collect(),
        },
    );
    scan::never_run_graph(&s).into_iter().map(|f| f.name).collect()
}

#[test]
fn one_more_pattern_only_takes_away() {
    assert_eq!(with_config(&[], &[]), vec!["other", "old_import", "old_export", "behind"]);
    // An ignored function is silent, what it alone calls is not.
    assert_eq!(with_config(&[], &["old_*"]), vec!["other", "behind"]);
    assert_eq!(
        with_config(&[], &["nothing"]),
        vec!["other", "old_import", "old_export", "behind"]
    );
    // A root is live with all that it calls.
    assert_eq!(with_config(&["old_*"], &[]), vec!["other"]);
    assert_eq!(with_config(&["old_import"], &[]), vec!["other", "old_export"]);
}

#[test]
fn evidence_and_findings_agree() {
    let (d, e) = dead_chain();
    let s = scan_from(d, e, Config::default());
    for f in scan::never_run_graph(&s) {
        let told = scan::evidence(&s, &f.name);
        assert_eq!(told.suppressed, None);
        assert!(!told.in_production_set && told.in_test_set && !told.is_root);
        assert_eq!(told.prod_call_sites, f.prod_calls);
        assert_eq!(told.test_call_sites, f.test_calls);
    }
    let told = scan::evidence(&s, "main");
    assert!(told.suppressed.is_some() && told.is_root && told.in_production_set);
    assert!(!names(scan::never_run_graph(&s)).contains(&"main".to_string()));
}

#[test]
fn a_call_made_twice_is_drawn_once() {
    let s = scan_from(
        vec![def("main", 1), def("dead", 2), test_def("t", 9)],
        vec![call("t", "dead", true), call("t", "dead", true)],
        Config::default(),
    );
    assert_eq!(
        scan::to_dot(&s),
        "digraph calls {\n  rankdir=LR;\n  node [shape=box,fontsize=10];\n  \"main\" [style=filled,fillcolor=\"#e8f0e8\"];\n  \"dead\" [style=filled,fillcolor=\"#ffd6d6\"];\n  \"t\" -> \"dead\";\n}\n"
    );
    let mut g = CallGraph::new();
    for (from, to) in [("b", "x"), ("a", "x"), ("b", "y"), ("b", "x")] {
        g.add_call(from, to);
    }
    assert_eq!(g.len(), 2);
    assert_eq!(g.row(0), (&"b".to_string(), &vec!["x".to_string(), "y".to_string()]));
    assert_eq!(g.row(1), (&"a".to_string(), &vec!["x".to_string()]));
}

#[test]
fn only_a_precise_run_on_rust_needs_the_compiler() {
    assert!(frontend::needs_mir(Tier::Precise, Language::Rust));
    assert!(!frontend::needs_mir(Tier::Default, Language::Rust));
    assert!(!frontend::needs_mir(Tier::Precise, Language::Go));
    let tree = |here: &str| SourceTree {
        root: "/p".into(),
        here: vec![here.into()],
        above: vec![],
        listing: vec![],
        files: vec![],
    };
    assert_eq!(frontend::language_read(&tree("go.mod"), None), Language::Go);
    assert_eq!(frontend::language_read(&tree("go.mod"), Some(Language::Rust)), Language::Rust);
    assert_eq!(frontend::language_read(&tree("notes.txt"), None), Language::Rust);
    assert_eq!(lang::LISTING_DEPTH, 6);
}

#[test]
fn a_slash_at_the_end_says_nothing() {
    assert_eq!(paths::file_name_of("k/src/"), "src");
    assert_eq!(paths::file_name_of("k/src//"), "src");
    assert_eq!(paths::file_name_of("/"), "");
    assert_eq!(paths::parent_of("k/src/").as_deref(), Some("k"));
    assert_eq!(paths::parent_of("k//src").as_deref(), Some("k"));
    assert_eq!(paths::parent_of("/src/").as_deref(), Some("/"));
    assert_eq!(paths::parent_of("src/").as_deref(), Some(""));
    assert_eq!(paths::parent_of("/"), None);
    assert_eq!(landed::baseline::default_path("k/src/", false, true), "k/.landed-baseline.json");
}

fn syntax_node(kind: &str, field: Option<&str>, text: &str, depth: usize) -> SyntaxNode {
    SyntaxNode {
        kind: kind.into(),
        field: field.map(str::to_string),
        text: text.into(),
        row: 0,
        named: true,
        depth,
    }
}

#[test]
fn an_import_is_told_from_a_literal() {
    let import = |path: &str| {
        vec![
            syntax_node("source_file", None, "", 0),
            syntax_node("import_declaration", None, "", 1),
            syntax_node("import_spec", None, "", 2),
            syntax_node("interpreted_string_literal", Some("path"), path, 3),
        ]
    };
    assert!(project::imports_package(&import("\"testing\""), "testing"));
    assert!(project::imports_package(&import("`testing`"), "testing"));
    assert!(!project::imports_package(&import("\"testing/quick\""), "testing"));
    let literal = vec![
        syntax_node("source_file", None, "", 0),
        syntax_node("interpreted_string_literal", None, "\"testing\"", 1),
    ];
    assert!(!project::imports_package(&literal, "testing"));
}

fn token(from: &str, to: &str, in_test: bool) -> Edge {
    Edge { kind: EdgeKind::MacroToken, ..call(from, to, in_test) }
}

#[test]
fn a_guess_adds_no_finding() {
    let report = |more: Vec<Edge>| {
        let mut edges = vec![call("t", "a", true)];
        edges.extend(more);
        let s = scan_from(
            vec![def("main", 1), def("a", 2), def("b", 3), def("c", 4), test_def("t", 9)],
            edges,
            Config::default(),
        );
        (names(scan::never_run_graph(&s)), names(scan::never_run(&s)))
    };
    let plain = (vec!["a".to_string()], vec!["a".to_string()]);
    assert_eq!(report(vec![]), plain);
    assert_eq!(report(vec![token("a", "b", false)]), plain);
    assert_eq!(report(vec![token("t", "b", true)]), plain);
    assert_eq!(report(vec![token("a", "b", false), call("b", "c", false)]), plain);
    // The same call, seen, is no guess any more.
    let both = vec![token("a", "b", false), call("a", "b", false)];
    assert_eq!(report(both).0, vec!["a", "b"]);
    // A guess from live code silences.
    assert_eq!(report(vec![token("main", "a", false)]), (vec![], vec![]));
}
