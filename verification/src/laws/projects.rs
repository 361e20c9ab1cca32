//! What belongs to a project, and what of it is test code.

use vstd::prelude::*;

use crate::frontend::frontend_for;
use crate::frontend::AnyFrontend;
use crate::frontend::Tier;
use crate::lang::owned;
use crate::lang::Language;
use crate::laws::paths::paths_come_apart;
use crate::laws::paths::segment;
use crate::paths::file_name;
use crate::paths::parent;
use crate::paths::stem;
use crate::paths::under;
use crate::paths::within;
use crate::project::among_tests;
use crate::project::cargo_application;
use crate::project::conventional_entries;
use crate::project::conventional_roots;
use crate::project::crate_dirs;
use crate::project::crate_manifest;
use crate::project::entry_candidates;
use crate::project::foreign;
use crate::project::has_dir;
use crate::project::has_file;
use crate::project::imports_testing;
use crate::project::in_test_dir;
use crate::project::manifest_text;
use crate::project::production_dirs;
use crate::project::python_main;
use crate::project::go_main;
use crate::project::read_dirs;
use crate::project::readable_in;
use crate::project::runs_by_convention;
use crate::project::rust_skip_dirs;
use crate::project::rust_test_path;
use crate::project::skip_dirs;
use crate::project::source_dir;
use crate::project::source_stems;
use crate::project::test_by_convention;
use crate::project::text_among;
use crate::project::with_entries;
use crate::project::EntryView;
use crate::project::TreeView;
use crate::targets::asked_in;
use crate::targets::dirs_of;
use crate::targets::discovered;
use crate::targets::kind_of;
use crate::targets::member_targets;
use crate::targets::outermost;
use crate::targets::ships_from;
use crate::targets::CargoTargetView;
use crate::targets::Kind;
use crate::targets::MetadataView;
use crate::targets::TargetView;
use crate::targets::WorkspaceView;
use crate::text::begins;
use crate::text::ends;
use crate::text::present;

verus! {

// ---------------------------------------------------------------------------
// What is passed over
// ---------------------------------------------------------------------------

/// The path goes through a directory that holds no code of the project.
pub open spec fn through_a_foreign_dir(lang: Language, path: Seq<char>) -> bool {
    let p = path + "/"@;
    ||| passed_over_always(p)
    ||| lang != Language::Rust && passed_over_in_python(p)
}

/// The directories that are passed over in every language.
pub open spec fn passed_over_always(p: Seq<char>) -> bool {
    ||| present(p, "/target/"@)
    ||| present(p, "/node_modules/"@)
    ||| present(p, "/.git/"@)
    ||| present(p, "/worktrees/"@)
    ||| present(p, "/vendor/"@)
    ||| present(p, "/.cargo/"@)
    ||| present(p, "/build/"@)
    ||| present(p, "/dist/"@)
    ||| present(p, "/temp/"@)
    ||| present(p, "/examples/"@)
}

/// The directories that hold what Python has installed or compiled.
pub open spec fn passed_over_in_python(p: Seq<char>) -> bool {
    ||| present(p, "/.venv/"@)
    ||| present(p, "/venv/"@)
    ||| present(p, "/site-packages/"@)
    ||| present(p, "/__pycache__/"@)
    ||| present(p, "/.tox/"@)
    ||| present(p, "/.mypy_cache/"@)
}

/// Just these directories are passed over.
pub proof fn foreign_directories_are_spelled_out(lang: Language, path: Seq<char>)
    ensures
        foreign(lang, path) == through_a_foreign_dir(lang, path),
{
    let p = path + "/"@;
    let a = rust_skip_dirs();
    let b = skip_dirs();
    assert(a[0] == "/target/"@ && b[0] == "/target/"@);
    assert(a[1] == "/node_modules/"@ && b[1] == "/node_modules/"@);
    assert(a[2] == "/.git/"@ && b[2] == "/.git/"@);
    assert(a[3] == "/worktrees/"@ && b[3] == "/worktrees/"@);
    assert(a[4] == "/vendor/"@ && b[4] == "/vendor/"@);
    assert(a[5] == "/.cargo/"@ && b[5] == "/.cargo/"@);
    assert(a[6] == "/build/"@ && b[6] == "/build/"@);
    assert(a[7] == "/dist/"@ && b[7] == "/dist/"@);
    assert(a[8] == "/temp/"@ && b[8] == "/temp/"@);
    assert(a[9] == "/examples/"@ && b[9] == "/examples/"@);
    assert(b[10] == "/.venv/"@);
    assert(b[11] == "/venv/"@);
    assert(b[12] == "/site-packages/"@);
    assert(b[13] == "/__pycache__/"@);
    assert(b[14] == "/.tox/"@);
    assert(b[15] == "/.mypy_cache/"@);
    assert(a.len() == 10 && b.len() == 16);
    if foreign(lang, path) {
        let all = crate::project::skip_dirs_in(lang);
        let i = choose|i: int| 0 <= i < all.len() && present(p, #[trigger] all[i]);
        assert(present(p, all[i]));
    }
    if through_a_foreign_dir(lang, path) {
        let all = crate::project::skip_dirs_in(lang);
        assert(exists|i: int| 0 <= i < all.len() && present(p, #[trigger] all[i]));
    }
}

/// A file is read where its extension is that of the language, it lies in one
/// of the directories, and on no way through one that is passed over.
pub proof fn what_is_read(lang: Language, dirs: Seq<Seq<char>>, path: Seq<char>)
    ensures
        readable_in(lang, dirs, path) <==> owned(lang, path) && !through_a_foreign_dir(lang, path)
            && exists|k: int| 0 <= k < dirs.len() && within(path, #[trigger] dirs[k]),
{
    foreign_directories_are_spelled_out(lang, path);
}

/// The text of a file is that of the first file at its path.
pub proof fn texts_are_found_by_path(files: Seq<EntryView>, path: Seq<char>, i: int)
    ensures
        0 <= i < files.len() && files[i].path == path && (forall|j: int|
            0 <= j < i ==> (#[trigger] files[j]).path != path) ==> text_among(files, path)
            == files[i].text,
        (forall|j: int| 0 <= j < files.len() ==> (#[trigger] files[j]).path != path) ==> text_among(
            files,
            path,
        ) is None,
    decreases files.len(),
{
    if files.len() > 0 {
        let rest = files.skip(1);
        texts_are_found_by_path(rest, path, i - 1);
        assert forall|j: int| 0 <= j < rest.len() implies #[trigger] rest[j] == files[j + 1] by {}
        if files[0].path != path && 0 < i < files.len() {
            assert(rest[i - 1] == files[i]);
        }
    }
}

// ---------------------------------------------------------------------------
// Tests
// ---------------------------------------------------------------------------

/// Files are tests by their directory or by their name, as each language has
/// it, and in Go by what they import.
pub proof fn tests_are_told_by_convention(path: Seq<char>, text: Option<Seq<char>>)
    ensures
        in_test_dir(path) <==> present(path, "/tests/"@) || present(path, "/test/"@) || present(
            path,
            "/__tests__/"@,
        ) || present(path, "/spec/"@),
        test_by_convention(Language::Python, path, text) <==> in_test_dir(path) || begins(
            stem(path),
            "test_"@,
        ) || ends(stem(path), "_test"@),
        test_by_convention(Language::TypeScript, path, text) <==> in_test_dir(path) || ends(
            stem(path),
            ".test"@,
        ) || ends(stem(path), ".spec"@) || ends(stem(path), "_test"@),
        test_by_convention(Language::Go, path, text) <==> ends(stem(path), "_test"@) || (
        text matches Some(t) && imports_testing(t)),
        test_by_convention(Language::Rust, path, text) <==> in_test_dir(path) || stem(path)
            == "tests"@ || stem(path) == "test"@ || ends(stem(path), "_test"@),
        rust_test_path(path) <==> present(path, "/tests/"@) || ends(path, "/tests.rs"@) || ends(
            path,
            "/test.rs"@,
        ) || ends(path, "_test.rs"@) || ends(path, "_tests.rs"@),
{
}

/// A file imports a package where an import names it in quotes of either kind.
pub proof fn imports_are_read(
    nodes: Seq<crate::frontend::syntax::NodeView>,
    i: int,
    k: int,
    package: Seq<char>,
)
    requires
        0 <= i < nodes.len(),
        nodes[i].kind == "import_spec"@,
        crate::laws::trees::in_role(nodes, i, "path"@, k),
        nodes[k].text == seq!['"'] + package + seq!['"'] || nodes[k].text == seq!['`'] + package
            + seq!['`'],
    ensures
        crate::project::imports(nodes, package),
{
    reveal_strlit("\"");
    reveal_strlit("`");
    assert("\""@ =~= seq!['"']);
    assert("`"@ =~= seq!['`']);
    crate::laws::trees::roles_are_found(nodes, i, "path"@, k);
    assert(crate::project::import_at(nodes, i, package));
}

/// What cargo names a target that is no production code is a test, and so is
/// what lies beside it, unless it lies beside a target that ships.
pub proof fn targets_tell_tests(w: WorkspaceView, path: Seq<char>, i: int, dir: Seq<char>)
    ensures
        !w.from_cargo ==> !among_tests(w, path),
        w.from_cargo && 0 <= i < w.targets.len() && w.targets[i].kind == Kind::NotProduction
            && w.targets[i].src_path == path ==> among_tests(w, path),
        w.from_cargo && 0 <= i < w.targets.len() && w.targets[i].kind == Kind::NotProduction
            && parent(w.targets[i].src_path) == Some(dir) && within(path, dir) && (forall|j: int|
            0 <= j < w.targets.len() && ((#[trigger] w.targets[j]).kind == Kind::Bin
                || w.targets[j].kind == Kind::Lib) ==> (parent(w.targets[j].src_path) matches Some(
                d,
            ) ==> !within(path, d))) ==> among_tests(w, path),
        among_tests(w, path) ==> exists|j: int|
            0 <= j < w.targets.len() && (#[trigger] w.targets[j]).kind == Kind::NotProduction && (
            w.targets[j].src_path == path || (parent(w.targets[j].src_path) matches Some(d)
                && within(path, d))),
{
    dirs_are_those_of_targets(w.targets, Kind::NotProduction, dir);
    if 0 <= i < w.targets.len() && w.targets[i].kind == Kind::NotProduction && parent(
        w.targets[i].src_path,
    ) == Some(dir) && within(path, dir) {
        let all = dirs_of(w.targets, Kind::NotProduction);
        assert(all.contains(dir));
        let k = choose|k: int| 0 <= k < all.len() && all[k] == dir;
        assert(within(path, all[k]));
    }
    if among_tests(w, path) && !crate::targets::test_target(w.targets, path) {
        let all = dirs_of(w.targets, Kind::NotProduction);
        let k = choose|k: int| 0 <= k < all.len() && within(path, #[trigger] all[k]);
        dirs_are_those_of_targets(w.targets, Kind::NotProduction, all[k]);
        assert(all.contains(all[k]));
    }
}

/// The directories of a kind of target are those that its files lie in.
pub proof fn dirs_are_those_of_targets(targets: Seq<TargetView>, kind: Kind, dir: Seq<char>)
    ensures
        dirs_of(targets, kind).contains(dir) <==> exists|i: int|
            0 <= i < targets.len() && (#[trigger] targets[i]).kind == kind && parent(
                targets[i].src_path,
            ) == Some(dir),
    decreases targets.len(),
{
    if targets.len() > 0 {
        let less = targets.drop_last();
        let n = targets.len() - 1;
        dirs_are_those_of_targets(less, kind, dir);
        let before = dirs_of(less, kind);
        let now = dirs_of(targets, kind);
        assert(targets.last() == targets[n]);
        if before.contains(dir) {
            let k = choose|k: int| 0 <= k < before.len() && before[k] == dir;
            assert(now[k] == dir);
            let i = choose|i: int|
                0 <= i < less.len() && (#[trigger] less[i]).kind == kind && parent(
                    less[i].src_path,
                ) == Some(dir);
            assert(targets[i] == less[i]);
        }
        if targets[n].kind == kind && parent(targets[n].src_path) == Some(dir) {
            assert(now[before.len() as int] == dir);
        }
        if now.contains(dir) && !before.contains(dir) {
            let k = choose|k: int| 0 <= k < now.len() && now[k] == dir;
            if k < before.len() {
                assert(before[k] == dir);
            }
            assert(targets[n].kind == kind && parent(targets[n].src_path) == Some(dir));
        }
        if exists|i: int|
            0 <= i < targets.len() && (#[trigger] targets[i]).kind == kind && parent(
                targets[i].src_path,
            ) == Some(dir) {
            let i = choose|i: int|
                0 <= i < targets.len() && (#[trigger] targets[i]).kind == kind && parent(
                    targets[i].src_path,
                ) == Some(dir);
            if i < n {
                assert(less[i] == targets[i]);
            }
        }
    }
}

// ---------------------------------------------------------------------------
// Targets
// ---------------------------------------------------------------------------

/// A target is a program where cargo calls it one, else a build script, else
/// no production where it is a test, a benchmark or an example, and else a
/// library.
pub proof fn kinds_are_told_apart(kinds: Seq<Seq<char>>)
    ensures
        kind_of(kinds) == Kind::Bin <==> kinds.contains("bin"@),
        kind_of(kinds) == Kind::BuildScript <==> kinds.contains("custom-build"@) && !kinds.contains(
            "bin"@,
        ),
        kind_of(kinds) == Kind::NotProduction <==> !kinds.contains("bin"@) && !kinds.contains(
            "custom-build"@,
        ) && (kinds.contains("test"@) || kinds.contains("bench"@) || kinds.contains("example"@)),
        kind_of(kinds) == Kind::Lib <==> !kinds.contains("bin"@) && !kinds.contains(
            "custom-build"@,
        ) && !kinds.contains("test"@) && !kinds.contains("bench"@) && !kinds.contains("example"@),
{
}

/// The target that cargo describes as `t` of the package at `i`.
pub open spec fn described_as(m: MetadataView, i: int, t: CargoTargetView, x: TargetView) -> bool {
    x.name == t.name && x.kind == kind_of(t.kind) && x.src_path == t.src_path && x.package
        == m.packages[i].name
}

/// The targets of a workspace are those of the packages that are its members,
/// and no others.
pub proof fn targets_are_those_of_members(m: MetadataView, n: int, x: TargetView)
    requires
        0 <= n <= m.packages.len(),
    ensures
        member_targets(m, n).contains(x) <==> exists|i: int, j: int|
            0 <= i < n && m.members.contains(m.packages[i].id) && 0 <= j
                < m.packages[i].targets.len() && described_as(
                m,
                i,
                #[trigger] m.packages[i].targets[j],
                x,
            ),
    decreases n,
{
    if n > 0 {
        targets_are_those_of_members(m, n - 1, x);
        let p = m.packages[n - 1];
        let f = |t: CargoTargetView| crate::targets::target_of(p, t);
        let own = p.targets.map_values(f);
        let before = member_targets(m, n - 1);
        let now = member_targets(m, n);
        if before.contains(x) {
            let k = choose|k: int| 0 <= k < before.len() && before[k] == x;
            assert(now[k] == x);
        }
        if m.members.contains(p.id) {
            assert forall|j: int| 0 <= j < p.targets.len() implies (described_as(
                m,
                n - 1,
                #[trigger] p.targets[j],
                x,
            ) == (own[j] == x)) by {
                if described_as(m, n - 1, p.targets[j], x) {
                    assert(own[j] =~= x);
                }
            }
            assert forall|j: int|
                0 <= j < p.targets.len() && described_as(
                    m,
                    n - 1,
                    #[trigger] m.packages[n - 1].targets[j],
                    x,
                ) implies now.contains(x) by {
                assert(now[before.len() + j] == own[j]);
            }
            if now.contains(x) && !before.contains(x) {
                let k = choose|k: int| 0 <= k < now.len() && now[k] == x;
                if k < before.len() {
                    assert(before[k] == x);
                }
                let j = k - before.len();
                assert(now[k] == own[j]);
                assert(described_as(m, n - 1, m.packages[n - 1].targets[j], x));
            }
        } else {
            assert(now =~= before);
        }
    }
}

/// Cargo's answer counts only where it speaks of the directory: where a target
/// of a member lies in it.
pub proof fn an_answer_must_speak_of_the_directory(dir: Seq<char>, m: MetadataView)
    ensures
        discovered(dir, None).from_cargo == false,
        discovered(dir, None).targets.len() == 0,
        discovered(dir, Some(m)).from_cargo <==> exists|i: int, j: int|
            0 <= i < m.packages.len() && m.members.contains(m.packages[i].id) && 0 <= j
                < m.packages[i].targets.len() && within(
                (#[trigger] m.packages[i].targets[j]).canonical,
                dir,
            ),
        discovered(dir, Some(m)).from_cargo ==> discovered(dir, Some(m)).targets == member_targets(
            m,
            m.packages.len() as int,
        ),
        !discovered(dir, Some(m)).from_cargo ==> discovered(dir, Some(m)).targets.len() == 0,
{
}

/// Cargo is asked in the directory that holds a `src`, and else where one is.
pub proof fn cargo_is_asked_above_src(dir: Seq<char>, name: Seq<char>)
    requires
        dir.len() > 0,
        dir.last() != '/',
        segment(name),
        name != "src"@,
    ensures
        asked_in(dir + "/"@ + "src"@) == dir,
        asked_in(dir + "/"@ + name) == dir + "/"@ + name,
        crate::frontend::mir_dump::manifest_dir(dir + "/"@ + "src"@, false, true) == dir,
        crate::frontend::mir_dump::manifest_dir(dir + "/"@ + "src"@, true, true) == dir + "/"@
            + "src"@,
        crate::frontend::mir_dump::manifest_dir(dir + "/"@ + "src"@, false, false) == dir + "/"@
            + "src"@,
        crate::frontend::mir_dump::manifest_dir(dir + "/"@ + name, false, true) == dir + "/"@
            + name,
{
    reveal_strlit("src");
    assert("src"@[0] == 's' && "src"@[1] == 'r' && "src"@[2] == 'c');
    assert(!"src"@.contains('/'));
    paths_come_apart(dir, "src"@);
    paths_come_apart(dir, name);
}

/// A directory is one of production where a target ships from it and from no
/// other that holds it.
pub proof fn outermost_directories_ship(targets: Seq<TargetView>, dir: Seq<char>, o: Seq<char>)
    ensures
        ships_from(targets, dir) <==> exists|i: int|
            0 <= i < targets.len() && ((#[trigger] targets[i]).kind == Kind::Bin || targets[i].kind
                == Kind::Lib) && parent(targets[i].src_path) == Some(dir),
        outermost(targets, dir) ==> ships_from(targets, dir),
        outermost(targets, dir) && ships_from(targets, o) && within(dir, o) ==> o == dir,
        ships_from(targets, dir) && !outermost(targets, dir) ==> exists|x: Seq<char>|
            #![trigger ships_from(targets, x)]
            ships_from(targets, x) && x != dir && within(dir, x),
{
    if exists|i: int|
        0 <= i < targets.len() && ((#[trigger] targets[i]).kind == Kind::Bin || targets[i].kind
            == Kind::Lib) && parent(targets[i].src_path) == Some(dir) {
        let i = choose|i: int|
            0 <= i < targets.len() && ((#[trigger] targets[i]).kind == Kind::Bin || targets[i].kind
                == Kind::Lib) && parent(targets[i].src_path) == Some(dir);
        assert(crate::targets::ships(targets[i]));
    }
}

// ---------------------------------------------------------------------------
// Programs and libraries
// ---------------------------------------------------------------------------

/// A Rust project runs on its own where cargo has a program among its targets,
/// and where cargo did not answer, where a source directory holds a `main.rs`
/// or a `bin`.
pub proof fn cargo_projects_run(t: TreeView, w: WorkspaceView)
    ensures
        w.from_cargo ==> (cargo_application(t, w) <==> exists|i: int|
            0 <= i < w.targets.len() && (#[trigger] w.targets[i]).kind == Kind::Bin),
        !w.from_cargo ==> (cargo_application(t, w) <==> exists|k: int|
            0 <= k < conventional_roots(t).len() && ({
                let dir = #[trigger] conventional_roots(t)[k];
                has_file(t, under(dir, "main.rs"@)) || has_dir(t, under(dir, "bin"@))
            })),
{
    if exists|k: int|
        0 <= k < conventional_roots(t).len() && ({
            let dir = #[trigger] conventional_roots(t)[k];
            has_file(t, under(dir, "main.rs"@)) || has_dir(t, under(dir, "bin"@))
        }) {
        let k = choose|k: int|
            0 <= k < conventional_roots(t).len() && ({
                let dir = #[trigger] conventional_roots(t)[k];
                has_file(t, under(dir, "main.rs"@)) || has_dir(t, under(dir, "bin"@))
            });
        assert(crate::project::holds_program(t, conventional_roots(t)[k]));
    }
}

/// Where a crate is told by its manifest, its code lies in the `src` beside
/// it, and where no crate is found the whole directory is read.
pub proof fn crates_are_told_by_their_manifests(t: TreeView, dir: Seq<char>)
    requires
        dir.len() > 0,
        dir.last() != '/',
    ensures
        source_dir(dir + "/"@ + "Cargo.toml"@) == dir + "/"@ + "src"@,
        crate_dirs(t).len() == 0 ==> conventional_roots(t) == seq![t.root],
        crate_dirs(t).len() > 0 ==> conventional_roots(t) == crate_dirs(t),
{
    reveal_strlit("Cargo.toml");
    reveal_strlit("src");
    let name = "Cargo.toml"@;
    assert(!name.contains('/')) by {
        if name.contains('/') {
            let i = choose|i: int| 0 <= i < name.len() && name[i] == '/';
            assert(i == 0 || i == 1 || i == 2 || i == 3 || i == 4 || i == 5 || i == 6 || i == 7
                || i == 8 || i == 9);
        }
    }
    paths_come_apart(dir, name);
}

/// What cargo says ships is read as production; where it says nothing,
/// convention decides. Test targets are read beside it where cargo answered.
pub proof fn cargo_decides_what_is_read(t: TreeView, w: WorkspaceView)
    ensures
        !w.from_cargo ==> production_dirs(t, w) == conventional_roots(t) && read_dirs(t, w)
            == conventional_roots(t),
        w.from_cargo ==> read_dirs(t, w) == production_dirs(t, w) + dirs_of(
            w.targets,
            Kind::NotProduction,
        ),
        w.from_cargo && crate::targets::shipped_dirs(w.targets).len() > 0 ==> production_dirs(t, w)
            == crate::targets::shipped_dirs(w.targets),
        w.from_cargo && crate::targets::shipped_dirs(w.targets).len() == 0 ==> production_dirs(t, w)
            == conventional_roots(t),
{
}

/// A project of another language runs on its own where it says so in the way
/// of that language.
pub proof fn other_projects_run(t: TreeView)
    ensures
        runs_by_convention(t, Language::Rust) <==> has_file(t, under(t.root, "src/main.rs"@)),
        runs_by_convention(t, Language::Go) <==> exists|i: int|
            0 <= i < t.files.len() && readable_in(
                Language::Go,
                seq![t.root],
                (#[trigger] t.files[i]).path,
            ) && !test_by_convention(Language::Go, t.files[i].path, t.files[i].text) && (
            t.files[i].text matches Some(x) && present(x, "package main"@)),
        ({
            let m = manifest_text(t, "pyproject.toml"@);
            runs_by_convention(t, Language::Python) <==> !present(m, "[project]"@) && (present(
                m,
                "[project.scripts]"@,
            ) || present(m, "console_scripts"@) || exists|i: int|
                0 <= i < t.files.len() && readable_in(
                    Language::Python,
                    seq![t.root],
                    (#[trigger] t.files[i]).path,
                ) && (file_name(t.files[i].path) == "__main__.py"@ || (t.files[i].text matches Some(
                    x,
                ) && present(x, "__main__"@))))
        }),
        ({
            let m = manifest_text(t, "package.json"@);
            runs_by_convention(t, Language::TypeScript) <==> present(m, "\"bin\""@) || has_file(
                t,
                under(t.root, "index.html"@),
            ) || exists|i: int|
                0 <= i < crate::project::json_keys(m, "engines"@).len() && #[trigger]
                crate::project::json_keys(m, "engines"@)[i] != "node"@
        }),
        conventional_entries(Language::Go) == seq!["main"@, "init"@],
        conventional_entries(Language::Python) == seq!["main"@],
        conventional_entries(Language::TypeScript) == seq!["main"@],
{
    let g = |p: Seq<char>, x: Option<Seq<char>>| go_main(p, x);
    let y = |p: Seq<char>, x: Option<Seq<char>>| python_main(p, x);
    assert forall|i: int| 0 <= i < t.files.len() implies g(
        (#[trigger] t.files[i]).path,
        t.files[i].text,
    ) == go_main(t.files[i].path, t.files[i].text) && y(t.files[i].path, t.files[i].text)
        == python_main(t.files[i].path, t.files[i].text) by {}
}

// ---------------------------------------------------------------------------
// Files that a host loads
// ---------------------------------------------------------------------------

/// A directory that holds what is compiled.
pub open spec fn output_dir(s: Seq<char>) -> bool {
    s == "out"@ || s == "dist"@ || s == "build"@ || s == "lib"@
}

/// A file that a manifest declares stands for the source that it is compiled
/// from: without its extension, and without the directory for what is
/// compiled.
pub proof fn declared_files_stand_for_sources(head: Seq<char>, rest: Seq<char>, ext: Seq<char>)
    requires
        !head.contains('/'),
        !ext.contains('.'),
        !begins(head + "/"@ + rest, "./"@),
    ensures
        source_stems("./"@ + (head + "/"@ + rest + "."@ + ext)) == source_stems(
            head + "/"@ + rest + "."@ + ext,
        ),
        !begins(head + "/"@ + rest + "."@ + ext, "./"@) ==> source_stems(
            head + "/"@ + rest + "."@ + ext,
        ) == (
            if output_dir(head) {
                rest
            } else {
                head + "/"@ + rest
            },
            head + "/"@ + rest,
        ),
{
    reveal_strlit("/");
    reveal_strlit(".");
    reveal_strlit("./");
    assert("/"@ =~= seq!['/']);
    assert("."@ =~= seq!['.']);
    let whole = head + "/"@ + rest;
    let decl = whole + "."@ + ext;
    assert(decl =~= head + "/"@ + rest + "."@ + ext);
    crate::laws::texts::prefixes_go("./"@, decl);
    crate::laws::texts::cut_at_the_last(whole, '.', ext);
    crate::laws::texts::cut_at_the_first(head, '/', rest);
}

/// The sources are looked for under `src` and beside the manifest, as plain
/// and as embedded markup.
pub proof fn sources_are_looked_for(root: Seq<char>, decl: Seq<char>, p: Seq<char>)
    ensures
        entry_candidates(root, decl).contains(p) <==> {
            let (a, b) = source_stems(decl);
            let src = under(root, "src"@);
            ||| p == under(src, a + ".ts"@)
            ||| p == under(src, a + ".tsx"@)
            ||| p == under(root, a + ".ts"@)
            ||| p == under(root, a + ".tsx"@)
            ||| p == under(src, b + ".ts"@)
            ||| p == under(src, b + ".tsx"@)
            ||| p == under(root, b + ".ts"@)
            ||| p == under(root, b + ".tsx"@)
        },
{
    let all = entry_candidates(root, decl);
    let (a, b) = source_stems(decl);
    let src = under(root, "src"@);
    assert(all.len() == 8);
    assert(all[0] == under(src, a + ".ts"@) && all[1] == under(src, a + ".tsx"@));
    assert(all[2] == under(root, a + ".ts"@) && all[3] == under(root, a + ".tsx"@));
    assert(all[4] == under(src, b + ".ts"@) && all[5] == under(src, b + ".tsx"@));
    assert(all[6] == under(root, b + ".ts"@) && all[7] == under(root, b + ".tsx"@));
}

/// Of the candidates those are entries that exist, each once.
pub proof fn entries_exist(
    t: TreeView,
    out: Seq<Seq<char>>,
    candidates: Seq<Seq<char>>,
    p: Seq<char>,
)
    ensures
        with_entries(t, out, candidates).contains(p) <==> out.contains(p) || (candidates.contains(p)
            && has_file(t, p)),
        out.no_duplicates() ==> with_entries(t, out, candidates).no_duplicates(),
    decreases candidates.len(),
{
    if candidates.len() > 0 {
        let less = candidates.drop_last();
        entries_exist(t, out, less, p);
        let before = with_entries(t, out, less);
        let now = with_entries(t, out, candidates);
        let c = candidates.last();
        if before.contains(p) {
            let k = choose|k: int| 0 <= k < before.len() && before[k] == p;
            assert(now[k] == p);
        }
        if c == p {
            assert(candidates[candidates.len() - 1] == p);
            if has_file(t, p) && !before.contains(p) {
                assert(now[before.len() as int] == p);
            }
        }
        if less.contains(p) {
            let k = choose|k: int| 0 <= k < less.len() && less[k] == p;
            assert(candidates[k] == p);
        }
        if candidates.contains(p) && c != p {
            let k = choose|k: int| 0 <= k < candidates.len() && candidates[k] == p;
            assert(less[k] == p);
        }
        if now.contains(p) && !before.contains(p) {
            let k = choose|k: int| 0 <= k < now.len() && now[k] == p;
            if k < before.len() {
                assert(before[k] == p);
            }
        }
    }
}

// ---------------------------------------------------------------------------
// Frontends
// ---------------------------------------------------------------------------

/// Rust is read from its syntax, or where it is asked for from what the
/// compiler resolved; any other language from its syntax tree, and never
/// precisely.
pub proof fn each_language_has_its_frontend(lang: Language)
    ensures
        lang == Language::Rust ==> (frontend_for(Tier::Default, lang) matches Some(f) && f is Syn),
        lang == Language::Rust ==> (frontend_for(Tier::Precise, lang) matches Some(f) && f is Mir),
        lang != Language::Rust ==> (frontend_for(Tier::Default, lang) matches Some(
            AnyFrontend::TreeSitter(f),
        ) && f.language == lang),
        lang != Language::Rust ==> frontend_for(Tier::Precise, lang) is None,
{
}

/// A crate is found by its manifest, at most three directories below the root,
/// on no way through a directory that is passed over, and beside a `src`.
pub proof fn crates_lie_near_the_root(t: TreeView, dirs: Seq<Seq<char>>)
    requires
        t.root.len() > 0,
        t.root.last() != '/',
        forall|i: int| 0 <= i < dirs.len() ==> segment(#[trigger] dirs[i]),
    ensures
        ({
            let path = t.root + "/"@ + crate::text::join(dirs.push("Cargo.toml"@), "/"@);
            crate_manifest(t, path) <==> {
                &&& dirs.len() <= 3
                &&& file_name(path) == "Cargo.toml"@
                &&& !through_a_foreign_dir(Language::Rust, path)
                &&& (parent(path) matches Some(dir) && has_dir(t, under(dir, "src"@)))
            }
        }),
{
    reveal_strlit("Cargo.toml");
    reveal_strlit("/");
    assert("/"@ =~= seq!['/']);
    let name = "Cargo.toml"@;
    assert(!name.contains('/')) by {
        if name.contains('/') {
            let i = choose|i: int| 0 <= i < name.len() && name[i] == '/';
            assert(i == 0 || i == 1 || i == 2 || i == 3 || i == 4 || i == 5 || i == 6 || i == 7
                || i == 8 || i == 9);
        }
    }
    let parts = dirs.push(name);
    assert forall|i: int| 0 <= i < parts.len() implies !(#[trigger] parts[i]).contains('/') by {
        if i < dirs.len() {
            assert(parts[i] == dirs[i]);
            assert(segment(dirs[i]));
        }
    }
    let rel = crate::text::join(parts, "/"@);
    let path = t.root + "/"@ + rel;
    crate::laws::texts::splitting_undoes_joining(parts, '/');
    crate::laws::paths::a_file_below_is_told_from_its_root(t.root, rel);
    foreign_directories_are_spelled_out(Language::Rust, path);
}

/// The code of each crate that is found is read, and no other.
pub proof fn the_code_of_crates_is_read(t: TreeView, dir: Seq<char>)
    ensures
        crate_dirs(t).contains(dir) <==> exists|i: int|
            0 <= i < t.files.len() && crate_manifest(t, (#[trigger] t.files[i]).path) && source_dir(
                t.files[i].path,
            ) == dir,
{
    let keep = |f: EntryView| crate_manifest(t, f.path);
    let told = |f: EntryView| source_dir(f.path);
    let kept = t.files.filter(keep);
    crate::seqs::map_members(kept, told, dir);
    if crate_dirs(t).contains(dir) {
        let k = choose|k: int| 0 <= k < kept.len() && told(#[trigger] kept[k]) == dir;
        assert(kept.contains(kept[k]));
        crate::seqs::filter_members(t.files, keep, kept[k]);
        let i = choose|i: int| 0 <= i < t.files.len() && t.files[i] == kept[k];
        assert(crate_manifest(t, t.files[i].path) && source_dir(t.files[i].path) == dir);
    }
    if exists|i: int|
        0 <= i < t.files.len() && crate_manifest(t, (#[trigger] t.files[i]).path) && source_dir(
            t.files[i].path,
        ) == dir {
        let i = choose|i: int|
            0 <= i < t.files.len() && crate_manifest(t, (#[trigger] t.files[i]).path) && source_dir(
                t.files[i].path,
            ) == dir;
        assert(t.files.contains(t.files[i]));
        crate::seqs::filter_members(t.files, keep, t.files[i]);
        let k = choose|k: int| 0 <= k < kept.len() && kept[k] == t.files[i];
        assert(told(kept[k]) == dir);
    }
}

/// A directory is there where a file lies in it.
pub proof fn directories_hold_files(t: TreeView, dir: Seq<char>, path: Seq<char>)
    ensures
        has_file(t, path) <==> exists|i: int|
            0 <= i < t.files.len() && (#[trigger] t.files[i]).path == path,
        has_dir(t, dir) <==> exists|i: int|
            0 <= i < t.files.len() && within((#[trigger] t.files[i]).path, dir) && t.files[i].path
                != dir,
{
}

/// A declaration may begin with `./`, as often as it likes.
pub proof fn a_dot_in_front_says_nothing(decl: Seq<char>)
    ensures
        source_stems("./"@ + decl) == source_stems(decl),
{
    reveal_strlit("./");
    crate::laws::texts::prefixes_go("./"@, decl);
}

/// Entries that are there stay, in front of those that are added.
pub proof fn entries_are_added_behind(t: TreeView, out: Seq<Seq<char>>, candidates: Seq<Seq<char>>)
    ensures
        out.is_prefix_of(with_entries(t, out, candidates)),
    decreases candidates.len(),
{
    if candidates.len() > 0 {
        let less = candidates.drop_last();
        entries_are_added_behind(t, out, less);
        let before = with_entries(t, out, less);
        let now = with_entries(t, out, candidates);
        assert(before.is_prefix_of(now));
        assert(out.is_prefix_of(now));
    }
}

/// The text of a manifest is that of the file of its name under the root, and
/// empty where there is none.
pub proof fn manifests_are_read(t: TreeView, name: Seq<char>)
    ensures
        text_among(t.files, under(t.root, name)) matches Some(x) ==> manifest_text(t, name) == x,
        text_among(t.files, under(t.root, name)) is None ==> manifest_text(t, name) == ""@,
{
}

} // verus!
