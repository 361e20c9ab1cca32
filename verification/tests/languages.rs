//! The same analysis in several languages.
//!
//! Reachability is a property of a call graph, not of a syntax: the same shape
//! — a live helper, a helper only a test calls, and a function reachable only
//! through that one — leads to the same conclusion in each.

use landed::config::Config;
use landed::frontend::Tier;
use landed::lang;
use landed::lang::Language;
use landed::names::NameSet;
use landed::project;
use landed::project::Project;
use landed::project::SourceTree;
use landed::project::TreeFile;
use landed::render;
use landed::scan;
use landed::targets::Workspace;

/// A directory in memory.
struct Dir {
    root: String,
    files: Vec<(String, String)>,
}

impl Dir {
    fn path(&self, rel: &str) -> String {
        format!("{}/{}", self.root, rel)
    }

    fn tree(&self) -> SourceTree {
        SourceTree {
            root: self.root.clone(),
            here: self
                .files
                .iter()
                .filter(|(rel, _)| !rel.contains('/'))
                .map(|(rel, _)| rel.clone())
                .collect(),
            above: vec![],
            listing: self
                .files
                .iter()
                .filter(|(rel, _)| rel.split('/').count() <= 6)
                .map(|(rel, _)| self.path(rel))
                .collect(),
            files: self
                .files
                .iter()
                .map(|(rel, body)| TreeFile { path: self.path(rel), text: Some(body.clone()) })
                .collect(),
        }
    }
}

fn write(dir: &mut Dir, rel: &str, body: &str) {
    dir.files.push((rel.to_string(), body.to_string()));
}

fn scratch(name: &str) -> Dir {
    Dir { root: format!("/work/{name}"), files: vec![] }
}

fn scan_as(dir: &Dir, tier: Tier, lang: Option<Language>) -> Result<scan::Scan, String> {
    scan::scan_crate_as(
        &dir.tree(),
        Workspace::default(),
        None,
        Config::default(),
        tier,
        lang,
    )
}

fn scanned(dir: &Dir) -> scan::Scan {
    scan::scan_crate(&dir.tree(), Workspace::default(), Config::default()).unwrap()
}

fn detected(dir: &Dir) -> Option<Language> {
    let t = dir.tree();
    lang::detect(&t.here, &t.above, &t.listing)
}

fn dead_names(dir: &Dir) -> Vec<String> {
    let mut v: Vec<String> =
        scan::never_run_graph(&scanned(dir)).into_iter().map(|f| f.name).collect();
    v.sort();
    v
}

// ─── the four fixtures ────────────────────────────────────────

fn python(dir: &mut Dir) {
    write(
        dir,
        "pkg/core.py",
        "def live_helper():\n    return 1\n\ndef dead_helper():\n    return deeper()\n\n\
         def deeper():\n    return 2\n\ndef run():\n    return live_helper()\n",
    );
    write(dir, "pkg/__main__.py", "from .core import run\n\nrun()\n");
    write(
        dir,
        "tests/test_core.py",
        "from pkg.core import dead_helper\n\ndef test_dead():\n    assert dead_helper() == 2\n",
    );
}

fn typescript(dir: &mut Dir) {
    write(
        dir,
        "package.json",
        r#"{"name":"d","bin":{"d":"src/main.js"}}"#,
    );
    write(
        dir,
        "src/core.ts",
        "export function liveHelper(): number { return 1; }\n\
         export function deadHelper(): number { return deeper(); }\n\
         function deeper(): number { return 2; }\n\
         export function run(): number { return liveHelper(); }\n",
    );
    write(
        dir,
        "src/main.ts",
        "import { run } from \"./core\";\nrun();\n",
    );
    write(
        dir,
        "__tests__/core.test.ts",
        "import { deadHelper } from \"../src/core\";\n\
         test(\"dead\", () => { deadHelper(); });\n",
    );
}

fn go(dir: &mut Dir) {
    write(dir, "go.mod", "module demo\n\ngo 1.21\n");
    write(
        dir,
        "main.go",
        "package main\n\nfunc liveHelper() int { return 1 }\n\
         func deadHelper() int { return deeper() }\n\
         func deeper() int { return 2 }\n\
         func run() int { return liveHelper() }\n\
         func main() { run() }\n",
    );
    write(
        dir,
        "main_test.go",
        "package main\n\nimport \"testing\"\n\nfunc TestDead(t *testing.T) { deadHelper() }\n",
    );
}

fn rust(dir: &mut Dir) {
    write(
        dir,
        "Cargo.toml",
        "[package]\nname = \"demo\"\nversion = \"0.1.0\"\nedition = \"2021\"\n",
    );
    write(
        dir,
        "src/main.rs",
        "fn live_helper() -> u8 { 1 }\n\
         pub fn dead_helper() -> u8 { deeper() }\n\
         fn deeper() -> u8 { 2 }\n\
         fn run() -> u8 { live_helper() }\n\
         fn main() { let _ = run(); }\n\
         #[cfg(test)]\n\
         mod tests { #[test] fn t() { let _ = super::dead_helper(); } }\n",
    );
}

// ─── the shared conclusion ────────────────────────────────────

/// `dead_helper` is entered only from a test; `deeper` sits behind it. Both
/// are unreachable. `live_helper` and `run` are on the path from the entry
/// point and must not be reported — a tool that flags live code is worse than
/// one that flags nothing.
fn assert_same_conclusion(dir: &Dir, dead: &str, deeper: &str, live: &[&str]) {
    let names = dead_names(dir);
    assert!(
        names.contains(&dead.to_string()),
        "expected {dead} dead, got {names:?}"
    );
    assert!(
        names.contains(&deeper.to_string()),
        "expected {deeper} dead, got {names:?}"
    );
    for l in live {
        assert!(
            !names.contains(&l.to_string()),
            "{l} is live but was reported: {names:?}"
        );
    }
    assert_eq!(
        names.len(),
        2,
        "exactly two findings expected, got {names:?}"
    );
}

#[test]
fn python_finds_the_test_only_region() {
    let mut dir = scratch("py");
    python(&mut dir);
    assert_same_conclusion(&dir, "dead_helper", "deeper", &["live_helper", "run"]);
}

#[test]
fn typescript_finds_the_test_only_region() {
    let mut dir = scratch("ts");
    typescript(&mut dir);
    assert_same_conclusion(&dir, "deadHelper", "deeper", &["liveHelper", "run"]);
}

#[test]
fn go_finds_the_test_only_region() {
    let mut dir = scratch("go");
    go(&mut dir);
    assert_same_conclusion(&dir, "deadHelper", "deeper", &["liveHelper", "run", "main"]);
}

// ─── detection ────────────────────────────────────────────────

#[test]
fn a_manifest_names_the_language() {
    for (name, build, want) in [
        ("d-py", python as fn(&mut Dir), Language::Python),
        ("d-ts", typescript as fn(&mut Dir), Language::TypeScript),
        ("d-go", go as fn(&mut Dir), Language::Go),
        ("d-rs", rust as fn(&mut Dir), Language::Rust),
    ] {
        let mut dir = scratch(name);
        build(&mut dir);
        assert_eq!(
            detected(&dir),
            Some(want),
            "in {}",
            dir.root
        );
    }
}

/// Python has no manifest here, so detection falls to file counts. A stray
/// script of another language must not change what the project is.
#[test]
fn a_stray_file_does_not_change_the_language() {
    let mut dir = scratch("stray");
    python(&mut dir);
    write(&mut dir, "tools/oneoff.go", "package main\nfunc main() {}\n");
    assert_eq!(detected(&dir), Some(Language::Python));
}

/// Detection is right for a project and wrong for a repository that holds
/// several. The override exists for that, and must beat the manifest.
#[test]
fn the_override_beats_detection() {
    let mut dir = scratch("override");
    go(&mut dir);
    write(&mut dir,
        "extra/util.py",
        "def only_python_sees_me():\n    return 1\n",
    );
    assert_eq!(detected(&dir), Some(Language::Go));

    let s = scan_as(&dir, Tier::Default, Some(Language::Python))
    .unwrap();
    let names: Vec<&str> = s.defs.iter().map(|d| d.name()).collect();
    assert!(names.contains(&"only_python_sees_me"), "got {names:?}");
    assert!(
        !names.contains(&"deadHelper"),
        "go code read as python: {names:?}"
    );
}

// ─── project conventions ──────────────────────────────────────

#[test]
fn each_language_recognises_its_own_test_files() {
    for (name, build, tests, prod) in [
        (
            "t-py",
            python as fn(&mut Dir),
            "tests/test_core.py",
            "pkg/core.py",
        ),
        (
            "t-ts",
            typescript as fn(&mut Dir),
            "__tests__/core.test.ts",
            "src/core.ts",
        ),
        ("t-go", go as fn(&mut Dir), "main_test.go", "main.go"),
        ("t-rs", rust as fn(&mut Dir), "tests/it.rs", "src/main.rs"),
    ] {
        let mut dir = scratch(name);
        build(&mut dir);
        let tree = dir.tree();
    let p = project::detect(&tree, Workspace::default());
        assert!(
            p.is_test_file(&dir.path(tests)),
            "{name}: {tests} should be test code"
        );
        assert!(
            !p.is_test_file(&dir.path(prod)),
            "{name}: {prod} should be production"
        );
    }
}

/// A library has no entry point of its own, so its public surface is the root
/// set. An application's does not — that is what makes a finding possible.
#[test]
fn an_application_is_told_from_a_library() {
    let mut app = scratch("app");
    go(&mut app);
    assert!(project::detect(&app.tree(), Workspace::default()).is_application());

    let mut lib = scratch("lib");
    write(&mut lib, "go.mod", "module demo\n\ngo 1.21\n");
    write(&mut lib,
        "lib.go",
        "package demo\n\nfunc Exported() int { return 1 }\n",
    );
    assert!(!project::detect(&lib.tree(), Workspace::default()).is_application());

}

/// Vendored trees are other people's code. Reporting it is noise, and reading
/// it is slow.
#[test]
fn vendored_directories_are_not_read() {
    let mut dir = scratch("vendor");
    python(&mut dir);
    write(&mut dir,
        "node_modules/dep/thing.py",
        "def vendored_and_unused():\n    return 1\n",
    );
    write(&mut dir,
        ".venv/lib/other.py",
        "def also_vendored():\n    return 1\n",
    );
    let names = dead_names(&dir);
    assert!(
        !names.contains(&"vendored_and_unused".to_string()),
        "got {names:?}"
    );
    assert!(
        !names.contains(&"also_vendored".to_string()),
        "got {names:?}"
    );
}

/// A test file runs at module level too. Crediting those calls to the same
/// root as a production module's would make anything a test file mentions
/// look reachable — which is exactly the finding this tool exists to make.
#[test]
fn a_module_level_call_in_a_test_file_is_not_a_production_entry_point() {
    let mut dir = scratch("modlevel");
    python(&mut dir);
    // No enclosing function at all: the call sits at the top level of a file
    // pytest collects.
    write(
        &mut dir,
        "tests/test_bare.py",
        "from pkg.core import dead_helper\n\ndead_helper()\n",
    );
    let names = dead_names(&dir);
    assert!(names.contains(&"dead_helper".to_string()), "got {names:?}");
}

/// Precision comes from reading a compiler's resolved output, and only the
/// Rust frontend does that. Asking for it elsewhere must say so rather than
/// quietly answer with less.
#[test]
fn precise_mode_refuses_rather_than_downgrades() {
    let mut dir = scratch("precise");
    go(&mut dir);
    let msg = match scan_as(&dir, Tier::Precise, None) {
        Ok(_) => panic!("precise mode answered for a non-Rust project"),
        Err(e) => e,
    };
    assert!(msg.contains("only available for Rust"), "got {msg}");
    assert!(
        msg.contains("go"),
        "the message should name what it found: {msg}"
    );
}

/// A scan that read nothing must not report it in the words of a clean result.
/// The wrong language on a polyglot tree is the common way to get here, and
/// "everything is reachable" would read as a pass.
#[test]
fn an_empty_scan_is_not_reported_as_a_clean_one() {
    let mut dir = scratch("empty");
    go(&mut dir);
    let s = scan_as(&dir, Tier::Default, Some(Language::Python))
    .unwrap();
    assert!(
        s.defs.is_empty(),
        "no python here, so nothing should have been read"
    );

    let text =
        render::report_regions(&s, &scan::dead_regions(&s), &dir.root, "0.0").join("\n");
    assert!(text.contains("No source was read"), "got {text}");
    assert!(!text.contains("Everything is reachable"), "got {text}");
}

// ─── TypeScript, as it is actually written ────────────────────

/// `const f = () => {}` is the dominant idiom in modern TypeScript and
/// carries no name of its own. Reading only `function` declarations found 5
/// callables in a 61-file extension and pronounced the rest of it clean.
#[test]
fn an_arrow_function_bound_to_a_name_is_a_definition() {
    let mut dir = scratch("arrow");
    write(&mut dir, "package.json", r#"{"name":"d","private":true}"#);
    write(&mut dir, "index.html", "<!doctype html>");
    write(&mut dir,
        "src/main.ts",
        "export const used = () => 1;\n\
         export const unused = () => 2;\n\
         const local = () => used();\n\
         local();\n",
    );
    write(&mut dir,
        "src/main.test.ts",
        "import { unused } from \"./main\";\ntest(\"u\", () => { unused(); });\n",
    );
    let s = scanned(&dir);
    let names: Vec<&str> = s.defs.iter().map(|d| d.name()).collect();
    for want in ["used", "unused", "local"] {
        assert!(names.contains(&want), "{want} not read: {names:?}");
    }
    assert!(dead_names(&dir).contains(&"unused".to_string()));
}

/// An anonymous callback has no name, so it is no definition — but the calls
/// in its body still belong to whoever wrote it.
#[test]
fn an_anonymous_callback_is_not_a_definition_but_its_body_still_counts() {
    let mut dir = scratch("cb");
    write(&mut dir, "package.json", r#"{"name":"d","private":true}"#);
    write(&mut dir, "index.html", "<!doctype html>");
    write(&mut dir,
        "src/main.ts",
        "const helper = (x: number) => x;\n\
         export const run = (xs: number[]) => xs.map((x) => helper(x));\n\
         run([1]);\n",
    );
    assert!(
        dead_names(&dir).is_empty(),
        "a call inside a callback still reaches its target: {:?}",
        dead_names(&dir)
    );
}

/// `<Chart />` is how a React component is used. It is not a call expression,
/// and a `.tsx` file needs the TSX grammar or everything after the first tag
/// is unread.
#[test]
fn a_component_used_only_in_jsx_is_reachable() {
    let mut dir = scratch("jsx");
    write(&mut dir, "package.json", r#"{"name":"d","private":true}"#);
    write(&mut dir, "index.html", "<!doctype html>");
    write(&mut dir,
        "src/Chart.tsx",
        "export const Chart = () => <div>chart</div>;\n\
         export const Unused = () => <div>nope</div>;\n",
    );
    write(&mut dir,
        "src/main.tsx",
        "import { Chart } from \"./Chart\";\n\
         const App = () => <div><Chart /></div>;\n\
         App();\n",
    );
    write(&mut dir,
        "src/Chart.test.tsx",
        "import { Chart, Unused } from \"./Chart\";\ntest(\"c\", () => { Chart(); Unused(); });\n",
    );
    let names = dead_names(&dir);
    assert!(
        !names.contains(&"Chart".to_string()),
        "JSX use missed: {names:?}"
    );
    assert!(names.contains(&"Unused".to_string()), "got {names:?}");
}

/// A library's public surface is its root set, so what counts as public
/// decides whether the analysis says anything at all. `export` is the marker
/// in TypeScript; a leading underscore is not, and using that convention here
/// made every function a root.
#[test]
fn typescript_publicness_is_export_not_a_naming_convention() {
    let mut dir = scratch("exp");
    // No bin, no private, no index.html: a library, so exports are roots.
    write(&mut dir, "package.json", r#"{"name":"lib","main":"dist/i.js"}"#);
    write(&mut dir,
        "src/i.ts",
        "export const publicThing = () => 1;\n\
         const internalThing = () => 2;\n",
    );
    write(&mut dir,
        "src/i.test.ts",
        "test(\"i\", () => { publicThing(); internalThing(); });\n",
    );
    let names = dead_names(&dir);
    assert!(
        !names.contains(&"publicThing".to_string()),
        "exports are roots: {names:?}"
    );
    assert!(
        names.contains(&"internalThing".to_string()),
        "got {names:?}"
    );
}

/// Go states this in the language: a capitalised identifier is exported from
/// its package, and nothing else is.
#[test]
fn go_publicness_is_capitalisation() {
    let mut dir = scratch("gopub");
    write(&mut dir, "go.mod", "module demo\n\ngo 1.21\n");
    write(&mut dir,
        "lib.go",
        "package demo\n\nfunc Exported() int { return 1 }\n\
         func unexported() int { return 2 }\n",
    );
    write(&mut dir,
        "lib_test.go",
        "package demo\n\nimport \"testing\"\n\
         func TestBoth(t *testing.T) { Exported(); unexported() }\n",
    );
    let names = dead_names(&dir);
    assert!(!names.contains(&"Exported".to_string()), "got {names:?}");
    assert!(names.contains(&"unexported".to_string()), "got {names:?}");
}

/// An extension is entered by its host, at a name only the entry module
/// knows. Treating that module's exports as ordinary code condemned 107 live
/// functions behind a single unresolved root on a real extension.
#[test]
fn the_entry_module_a_host_loads_has_root_exports() {
    let mut dir = scratch("host");
    write(&mut dir,
        "package.json",
        r#"{"name":"ext","main":"./out/extension.js","engines":{"vscode":"^1.74.0"}}"#,
    );
    write(&mut dir,
        "src/extension.ts",
        "import { boot } from \"./boot\";\n\
         export const activate = () => boot();\n",
    );
    write(&mut dir,
        "src/boot.ts",
        "export const boot = () => 1;\n\
         export const neverBooted = () => 2;\n",
    );
    write(&mut dir,
        "src/boot.test.ts",
        "import { boot, neverBooted } from \"./boot\";\n\
         test(\"b\", () => { boot(); neverBooted(); });\n",
    );
    let names = dead_names(&dir);
    assert!(
        !names.contains(&"activate".to_string()),
        "host entry is a root: {names:?}"
    );
    assert!(
        !names.contains(&"boot".to_string()),
        "reached through activate: {names:?}"
    );
    assert!(names.contains(&"neverBooted".to_string()), "got {names:?}");
}

/// A web app and an extension are applications, however they say so. Only a
/// package meant to be imported is a library, and calling one the other makes
/// the analysis either silent or wrong.
#[test]
fn a_typescript_application_is_told_from_a_library() {
    for (name, manifest, index, want_app) in [
        ("cli", r#"{"name":"a","bin":{"a":"i.js"}}"#, false, true),
        ("web", r#"{"name":"a","private":true}"#, true, true),
        (
            "ext",
            r#"{"name":"a","engines":{"vscode":"^1.0.0"}}"#,
            false,
            true,
        ),
        ("lib", r#"{"name":"a","main":"dist/i.js"}"#, false, false),
    ] {
        let mut dir = scratch(name);
        write(&mut dir, "package.json", manifest);
        if index {
            write(&mut dir, "index.html", "<!doctype html>");
        }
        write(&mut dir, "src/i.ts", "export const f = () => 1;\n");
        assert_eq!(
            project::detect(&dir.tree(), Workspace::default()).is_application(),
            want_app,
            "{name} classified wrong"
        );
    }
}

// ─── what a 23-repository sweep of public code taught ─────────
//
// Every test below is a defect found by pointing the tool at real projects
// rather than at fixtures written in the subset it already read.

/// A library that also ships a command is still a library. Read the runnable
/// signals alone and the best-known Python web framework is an application —
/// which stops its public API being a root, and then reports its most-used
/// function as confidently dead.
#[test]
fn a_python_package_that_ships_a_cli_is_still_a_library() {
    let mut dir = scratch("pylib");
    write(&mut dir,
        "pyproject.toml",
        "[project]\nname = \"demo\"\nversion = \"1.0\"\n\n[project.scripts]\ndemo = \"pkg.cli:main\"\n",
    );
    write(&mut dir, "pkg/__init__.py", "from .core import render\n");
    write(&mut dir, "pkg/__main__.py", "from .cli import main\n\nmain()\n");
    write(&mut dir, "pkg/core.py", "def render():\n    return 1\n");
    write(&mut dir, "pkg/cli.py", "def main():\n    return 0\n");

    let tree = dir.tree();
    let p = project::detect(&tree, Workspace::default());
    assert!(!p.is_application(), "a packaged distribution is a library");
    assert!(
        !dead_names(&dir).contains(&"render".to_string()),
        "an exported function must not be reported: {:?}",
        dead_names(&dir)
    );
}

/// `__all__` and a package's `__init__.py` name modules, classes and free
/// functions. They never name a method, so judging methods by that list marks
/// a whole decorator API private and reports it dead.
#[test]
fn a_method_of_an_exported_class_is_public() {
    let mut dir = scratch("pymethod");
    write(&mut dir,
        "pyproject.toml",
        "[project]\nname = \"d\"\nversion = \"1\"\n",
    );
    write(&mut dir, "pkg/__init__.py", "from .app import App\n");
    write(&mut dir,
        "pkg/app.py",
        "class App:\n    def run(self):\n        return 1\n\n    def _hidden(self):\n        return 2\n",
    );
    let names = dead_names(&dir);
    assert!(!names.contains(&"run".to_string()), "got {names:?}");
}

/// A dunder is called by the language, not by name: `__call__` runs when an
/// instance is applied. Its absence from the call graph proves nothing.
#[test]
fn python_dunders_are_not_reported() {
    let mut dir = scratch("pydunder");
    write(&mut dir,
        "pyproject.toml",
        "[project]\nname = \"d\"\nversion = \"1\"\n",
    );
    write(&mut dir, "pkg/__init__.py", "from .wsgi import App\n");
    write(&mut dir,
        "pkg/wsgi.py",
        "class App:\n    def __call__(self, environ, start_response):\n        return []\n",
    );
    let names = dead_names(&dir);
    assert!(!names.contains(&"__call__".to_string()), "got {names:?}");
}

/// JavaScript is read by the TypeScript frontend. A tool that silently reads
/// nothing from a JavaScript project is worse than one that refuses to try.
#[test]
fn javascript_is_read() {
    let mut dir = scratch("js");
    write(&mut dir,
        "package.json",
        r#"{"name":"d","bin":{"d":"src/main.js"}}"#,
    );
    write(&mut dir,
        "src/core.js",
        "export function liveHelper() { return 1; }\n\
         export function deadHelper() { return deeper(); }\n\
         function deeper() { return 2; }\n\
         export function run() { return liveHelper(); }\n",
    );
    write(&mut dir,
        "src/main.js",
        "import { run } from \"./core\";\nrun();\n",
    );
    write(&mut dir,
        "__tests__/core.test.js",
        "import { deadHelper } from \"../src/core\";\ntest(\"d\", () => { deadHelper(); });\n",
    );
    assert_same_conclusion(&dir, "deadHelper", "deeper", &["liveHelper", "run"]);
}

/// `"engines": {"node": ">=20"}` is a compatibility range, and `"private"` on
/// a monorepo root says only that the root is unpublished. Reading either as
/// "this is an application" reported half a published library dead.
#[test]
fn a_node_engine_and_private_do_not_make_an_application() {
    let mut dir = scratch("tslib");
    write(&mut dir,
        "package.json",
        r#"{"name":"d","private":true,"engines":{"node":">=20"},"main":"./src/index.ts"}"#,
    );
    write(&mut dir,
        "src/index.ts",
        "export function api(): number { return 1; }\n",
    );
    assert!(!project::detect(&dir.tree(), Workspace::default()).is_application());

    let mut ext = scratch("tsext");
    write(&mut ext,
        "package.json",
        r#"{"name":"e","engines":{"vscode":"^1.74.0"},"main":"./out/x.js"}"#,
    );
    write(&mut ext, "src/x.ts", "export function activate() {}\n");
    assert!(
        project::detect(&ext.tree(), Workspace::default()).is_application(),
        "a named host loads this and calls into it"
    );
}

/// A store library hands its API out as object properties. Neither form is a
/// call site, and both are unmistakably uses.
#[test]
fn functions_handed_out_as_object_properties_are_not_dead() {
    let mut dir = scratch("tsobj");
    write(&mut dir,
        "package.json",
        r#"{"name":"d","main":"./src/index.ts"}"#,
    );
    write(&mut dir,
        "src/index.ts",
        "function setState() { return 1; }\n\
         export function create() {\n\
         \x20 return { setState, clearStorage: () => 2 };\n\
         }\n",
    );
    let names = dead_names(&dir);
    assert!(
        !names.contains(&"setState".to_string()),
        "shorthand: {names:?}"
    );
    assert!(
        !names.contains(&"clearStorage".to_string()),
        "property: {names:?}"
    );
}

/// Go projects put shared test scaffolding in ordinary `.go` files so other
/// packages' tests can import it. Importing the standard `testing` package
/// settles what such a file is — it only works inside a test binary.
#[test]
fn a_go_file_importing_testing_is_test_code() {
    let mut dir = scratch("gotesting");
    go(&mut dir);
    write(&mut dir,
        "helpers.go",
        "package main\n\nimport \"testing\"\n\nfunc AssertThing(t *testing.T) { deadHelper() }\n",
    );
    let tree = dir.tree();
    let p = project::detect(&tree, Workspace::default());
    assert!(p.is_test_file(&dir.path("helpers.go")));
    assert!(!p.is_test_file(&dir.path("main.go")));
}

/// Go interfaces are structural: a type satisfies one by having the methods,
/// with nothing written down to say so. An exported method may therefore be
/// reached through an interface no syntax reveals.
#[test]
fn an_exported_go_method_is_not_reported() {
    let mut dir = scratch("gomethod");
    go(&mut dir);
    write(&mut dir,
        "render.go",
        "package main\n\ntype R struct{}\n\n\
         func (r R) Render() int { return 1 }\n\
         func (r R) internal() int { return 2 }\n",
    );
    let names = dead_names(&dir);
    assert!(!names.contains(&"Render".to_string()), "got {names:?}");
}

// ─── which tests a change calls for ───────────────────────────

fn affected(dir: &Dir, symbol: &str) -> Vec<String> {
    let s = scanned(dir);
    let targets: Vec<String> =
        s.defs.iter().filter(|d| d.name() == symbol).map(|d| d.key()).collect();
    assert!(!targets.is_empty(), "{symbol} is not defined in the fixture");
    scan::tests_reaching(&s, &NameSet::of(&targets))
}

/// The same rule has to hold in every language the tool reads. Detection
/// lived only in the Rust frontend at first, so `impact` on a Python, Go or
/// TypeScript project reported a confident, high skip rate and would have
/// dropped every test that drives a subprocess.
#[test]
fn a_process_boundary_is_recognised_in_every_language() {
    for (name, files, changed, test_name) in [
        (
            "py",
            vec![
                (
                    "pyproject.toml",
                    "[project]\nname = \"d\"\nversion = \"1\"\n",
                ),
                ("pkg/core.py", "def changed():\n    return 1\n"),
                (
                    "tests/test_e2e.py",
                    "import subprocess\n\ndef test_end_to_end():\n    subprocess.run([\"demo\"])\n",
                ),
            ],
            "changed",
            "test_end_to_end",
        ),
        (
            "go",
            vec![
                ("go.mod", "module demo\n\ngo 1.21\n"),
                (
                    "main.go",
                    "package main\n\nfunc changed() int { return 1 }\nfunc main() { changed() }\n",
                ),
                (
                    "e2e_test.go",
                    "package main\n\nimport (\n\t\"os/exec\"\n\t\"testing\"\n)\n\n\
                     func TestEndToEnd(t *testing.T) { _ = exec.Command(\"demo\").Run() }\n",
                ),
            ],
            "changed",
            "TestEndToEnd",
        ),
        (
            "ts",
            vec![
                ("package.json", r#"{"name":"d","main":"./src/index.ts"}"#),
                (
                    "src/index.ts",
                    "export function changed(): number { return 1; }\n",
                ),
                (
                    "__tests__/e2e.test.ts",
                    "import { execSync } from \"child_process\";\n\
                     test(\"end to end\", () => { execSync(\"demo\"); });\n",
                ),
            ],
            "changed",
            "end to end",
        ),
    ] {
        let mut dir = scratch(name);
        for (rel, body) in files {
            write(&mut dir, rel, body);
        }
        let hit = affected(&dir, changed);
        assert!(
            hit.iter()
                .any(|t| t.contains(test_name) || test_name.contains(t.as_str())),
            "{name}: a test that spawns a process must always run, got {hit:?}"
        );
    }
}

#[test]
fn a_go_file_is_judged_by_its_imports_and_not_by_its_words() {
    let mut dir = scratch("gowords");
    go(&mut dir);
    write(&mut dir, "mode.go", "package main\n\nconst mode = \"testing\"\n\n// import \"testing\"\nfunc pick() string { return mode }\n");
    write(&mut dir, "block.go", "package main\n\nimport (\n\t\"fmt\"\n\n\t_ \"testing\"\n)\n\nfunc show() { fmt.Println() }\n");
    write(&mut dir, "raw.go", "package main\n\nimport t `testing`\n\nfunc raw(x *t.T) {}\n");
    write(&mut dir, "quick.go", "package main\n\nimport \"testing/quick\"\n\nfunc quickly() { quick.Check(nil, nil) }\n");
    let tree = dir.tree();
    let p = project::detect(&tree, Workspace::default());
    assert!(!p.is_test_file(&dir.path("mode.go")));
    assert!(p.is_test_file(&dir.path("block.go")));
    assert!(p.is_test_file(&dir.path("raw.go")));
    assert!(!p.is_test_file(&dir.path("quick.go")));
    assert!(p.is_test_file(&dir.path("main_test.go")));
}
