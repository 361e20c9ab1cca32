//! What a scan reads, and what it makes of it.

use vstd::prelude::*;

use crate::config::configured;
use crate::config::configured_by;
use crate::config::Config;
use crate::config::ConfigError;
use crate::config::ConfigView;
use crate::frontend::extraction;
use crate::frontend::mir_frontend::dump_of;
use crate::frontend::mir_frontend::merged;
use crate::frontend::rust_syntax::rust_events;
use crate::frontend::syn_frontend::after_events;
use crate::frontend::syn_frontend::after_files;
use crate::frontend::syn_frontend::file_modules;
use crate::frontend::syn_frontend::rust_extract;
use crate::frontend::syn_frontend::RustFile;
use crate::frontend::syn_frontend::RustFileView;
use crate::frontend::tree_sitter_frontend::extracted;
use crate::frontend::Tier;
use crate::ir::views;
use crate::ir::ExtractView;
use crate::ir::Frontend;
use crate::ir::Input;
use crate::lang::Language;
use crate::number::decimal;
use crate::paths::within;
use crate::project::cargo_application;
use crate::project::loaded_by_convention;
use crate::project::read_dirs;
use crate::project::runs_by_convention;
use crate::project::text_at;
use crate::project::AnyProject;
use crate::project::CargoProject;
use crate::project::ConventionProject;
use crate::project::Project;
use crate::project::SourceTree;
use crate::project::TreeView;
use crate::scan::sites;
use crate::scan::sites_from;
use crate::scan::ScanView;
use crate::scanner::belongs;
use crate::scanner::gathered;
use crate::scanner::project_in;
use crate::scanner::scan_of;
use crate::source::SourceView;
use crate::targets::WorkspaceView;
use crate::text::begins;
use crate::text::ends;
use crate::text::lines_of;
use crate::text::texts;

verus! {

// ---------------------------------------------------------------------------
// Projects
// ---------------------------------------------------------------------------

/// A Rust project reads its directories, takes for tests what its path or
/// cargo says is one, starts from `main`, and lets no host load a file.
pub proof fn cargo_projects(p: CargoProject, path: Seq<char>)
    ensures
        p.in_language() == Language::Rust,
        p.reads(path) <==> crate::project::has_file(p.tree@, path)
            && crate::project::readable_in(
            Language::Rust,
            read_dirs(p.tree@, p.workspace@),
            path,
        ),
        p.tests_at(path) <==> crate::project::rust_test_path(path) || crate::project::among_tests(
            p.workspace@,
            path,
        ),
        p.runs_alone() == cargo_application(p.tree@, p.workspace@),
        p.entries() == seq!["main"@],
        p.loaded().len() == 0,
        !p.workspace@.from_cargo ==> p.described()
            == "rust, cargo could not answer; directory conventions used"@,
        p.workspace@.from_cargo && cargo_application(p.tree@, p.workspace@) ==> p.described()
            == "rust, "@ + decimal(p.workspace@.targets.len()) + " cargo target(s); "@
            + "application"@,
        p.workspace@.from_cargo && !cargo_application(p.tree@, p.workspace@) ==> p.described()
            == "rust, "@ + decimal(p.workspace@.targets.len()) + " cargo target(s); "@ + "library"@,
{
}

/// A project of another language reads its whole directory, and goes by the
/// conventions of the language.
pub proof fn conventional_projects(p: ConventionProject, path: Seq<char>)
    ensures
        p.in_language() == p.lang,
        p.reads(path) <==> crate::project::has_file(p.tree@, path)
            && crate::project::readable_in(p.lang, seq![p.tree@.root], path),
        p.tests_at(path) == crate::project::test_by_convention(
            p.lang,
            path,
            text_at(p.tree@, path),
        ),
        p.runs_alone() == runs_by_convention(p.tree@, p.lang),
        p.entries() == crate::project::conventional_entries(p.lang),
        runs_by_convention(p.tree@, p.lang) ==> p.described() == crate::lang::name_of(p.lang)
            + ", by convention; "@ + "application"@,
        !runs_by_convention(p.tree@, p.lang) ==> p.described() == crate::lang::name_of(p.lang)
            + ", by convention; "@ + "library"@,
{
}

/// A host loads files only of a script that runs: those that its manifest
/// declares as `main` or as `module`.
pub proof fn hosts_load_declared_files(t: TreeView, lang: Language, p: Seq<char>)
    ensures
        lang != Language::TypeScript ==> loaded_by_convention(t, lang).len() == 0,
        !runs_by_convention(t, lang) ==> loaded_by_convention(t, lang).len() == 0,
        lang == Language::TypeScript && runs_by_convention(t, lang) ==> ({
            let m = crate::project::manifest_text(t, "package.json"@);
            let a = crate::project::json_string(m, "main"@);
            let b = crate::project::json_string(m, "module"@);
            loaded_by_convention(t, lang).contains(p) <==> crate::project::has_file(t, p) && {
                ||| (a matches Some(d) && crate::project::entry_candidates(t.root, d).contains(p))
                ||| (b matches Some(d) && crate::project::entry_candidates(t.root, d).contains(p))
            }
        }),
{
    if lang == Language::TypeScript && runs_by_convention(t, lang) {
        let m = crate::project::manifest_text(t, "package.json"@);
        let a = crate::project::json_string(m, "main"@);
        let b = crate::project::json_string(m, "module"@);
        let none = Seq::<Seq<char>>::empty();
        let one = crate::project::with_declared(t, none, a);
        if let Some(d) = a {
            crate::laws::projects::entries_exist(
                t,
                none,
                crate::project::entry_candidates(t.root, d),
                p,
            );
        }
        if let Some(d) = b {
            crate::laws::projects::entries_exist(
                t,
                one,
                crate::project::entry_candidates(t.root, d),
                p,
            );
        }
    }
}

/// A project is one of cargo where its language is Rust, stated or detected;
/// another goes by convention in its language.
pub proof fn the_language_decides_the_project(
    tree: SourceTree,
    lang: Option<Language>,
    workspace: WorkspaceView,
    p: AnyProject,
)
    requires
        project_in(tree, lang, workspace, p),
    ensures
        lang == Some(Language::Rust) ==> p is Cargo,
        lang matches Some(l) ==> p.in_language() == l,
        lang is None ==> (crate::lang::detected(
            tree@.here,
            tree@.above,
            tree@.listing,
        ) matches Some(l) ==> p.in_language() == l),
        p is Cargo ==> p.in_language() == Language::Rust,
        p matches AnyProject::Cargo(c) ==> *c.tree == tree && c.workspace@ == workspace,
        p matches AnyProject::Convention(c) ==> *c.tree == tree,
{
}

// ---------------------------------------------------------------------------
// Files
// ---------------------------------------------------------------------------

/// What is gathered of a project is every file that it reads and whose text
/// can be had, in order, each with its text and as a test where the project
/// takes it for one.
pub proof fn what_is_gathered(
    input: Input,
    tree: SourceTree,
    p: AnyProject,
    workspace: WorkspaceView,
    mir: Option<String>,
    path: Seq<char>,
    i: int,
)
    requires
        gathered(input, tree, p, workspace, mir),
    ensures
        (exists|k: int|
            0 <= k < views(input.sources@).len() && (#[trigger] views(input.sources@)[k]).path
                == path) <==> p.reads(path) && text_at(tree@, path) is Some,
        0 <= i < input.sources@.len() ==> text_at(tree@, input.sources@[i]@.path) == Some(
            input.sources@[i]@.text,
        ),
        0 <= i < input.sources@.len() ==> input.sources@[i]@.in_test == p.tests_at(
            input.sources@[i]@.path,
        ),
        input.mir == mir,
        input.root@ == tree@.root,
        texts(input.rust_roots@) == crate::project::production_dirs(tree@, workspace),
        p.in_language() != Language::Rust ==> input.rust@.len() == 0,
{
    let files = views(input.sources@);
    let paths = crate::scanner::paths_of(files);
    if p.reads(path) && text_at(tree@, path) is Some {
        assert(paths.contains(path));
        let k = choose|k: int| 0 <= k < paths.len() && paths[k] == path;
        assert(files[k].path == path);
    }
    if exists|k: int| 0 <= k < files.len() && (#[trigger] files[k]).path == path {
        let k = choose|k: int| 0 <= k < files.len() && (#[trigger] files[k]).path == path;
        assert(paths[k] == path);
        assert(paths.contains(path));
    }
    if 0 <= i < input.sources@.len() {
        assert(files[i] == input.sources@[i]@);
    }
}

/// A Rust file that parses keeps its path and whether it is a test, and belongs
/// to the innermost of the source directories that it lies in.
pub proof fn files_belong_to_the_innermost_directory(
    c: CargoProject,
    s: SourceView,
    f: RustFile,
    dir: Seq<char>,
)
    requires
        belongs(AnyProject::Cargo(c), s, f),
    ensures
        f.path@ == s.path,
        f.in_test == s.in_test,
        rust_events(s.text) == Some(views(f.events@)),
        read_dirs(c.tree@, c.workspace@).contains(f.crate_root@),
        within(s.path, f.crate_root@),
        read_dirs(c.tree@, c.workspace@).contains(dir) && within(s.path, dir) ==> dir.len()
            <= f.crate_root@.len(),
{
    if read_dirs(c.tree@, c.workspace@).contains(dir) && within(s.path, dir) {
        assert(crate::scanner::holds_code(AnyProject::Cargo(c), dir));
    }
}

/// Rust is read file by file, each from where it stands in the project.
pub proof fn rust_is_read_file_by_file(files: Seq<RustFile>, f: RustFile, roots: Seq<Seq<char>>)
    ensures
        ({
            let facts = RustFileView {
                file: f.path@,
                crate_root: f.crate_root@,
                in_test: f.in_test,
                modules: file_modules(f.path@, f.crate_root@),
            };
            after_files(files.push(f)) == after_events(facts, views(f.events@), after_files(files))
        }),
        after_files(seq![]).definitions.len() == 0,
        after_files(seq![]).edges.len() == 0,
        after_files(seq![]).reexported == Set::<Seq<char>>::empty(),
        rust_extract(files, roots).definitions == after_files(files).definitions,
        rust_extract(files, roots).edges == after_files(files).edges,
        rust_extract(files, roots).reexported == after_files(files).reexported,
        rust_extract(files, roots).crate_roots == roots,
{
    assert(files.push(f).drop_last() =~= files);
    assert(files.push(f).last() == f);
}

/// Each tier extracts what its frontend reads; the precise one needs a dump,
/// and is there for Rust alone.
pub proof fn tiers_extract_what_they_read(input: Input, lang: Language)
    ensures
        ({
            let base = rust_extract(input.rust@, texts(input.rust_roots@));
            &&& extraction(Tier::Default, Language::Rust, input) == Ok::<ExtractView, Seq<char>>(
                base,
            )
            &&& (input.mir matches Some(mir) ==> extraction(Tier::Precise, Language::Rust, input)
                == Ok::<ExtractView, Seq<char>>(merged(base, dump_of(lines_of(mir@)))))
            &&& input.mir is None ==> extraction(Tier::Precise, Language::Rust, input) == Err::<
                ExtractView,
                Seq<char>,
            >("--precise was given no MIR to read"@)
            &&& lang != Language::Rust ==> extraction(Tier::Default, lang, input) == Ok::<
                ExtractView,
                Seq<char>,
            >(extracted(lang, input.root@, views(input.sources@)))
            &&& lang != Language::Rust ==> extraction(Tier::Precise, lang, input) is Err
        }),
{
}

/// A scan keeps what was extracted and what the project says of itself.
pub proof fn a_scan_keeps_what_was_read(
    s: ScanView,
    x: ExtractView,
    p: AnyProject,
    config: ConfigView,
    key: Seq<char>,
)
    requires
        scan_of(s, x, p, config),
    ensures
        s.defs == x.definitions,
        s.reexported == x.reexported,
        s.config == config,
        s.application == p.runs_alone(),
        s.entry_points == p.entries(),
        s.entry_files == p.loaded(),
        sites(s, key) == sites_from(x.definitions, x.edges, key),
        s.edges == crate::scan::calls_from(x.definitions, x.edges, true),
        s.all_edges == crate::scan::calls_from(x.definitions, x.edges, false),
        s.guessed == crate::scan::guesses_from(x.definitions, x.edges),
        s.edges.subset_of(s.all_edges),
{
    crate::scan::accusable_within_everything(x.definitions, x.edges);
}

/// What a configuration file says is what its two lists hold; a stray key or a
/// text that is no table is refused.
pub proof fn configurations_are_read(
    table: Seq<(Seq<char>, Seq<Seq<char>>)>,
    text: Seq<char>,
    r: Result<Config, ConfigError>,
)
    ensures
        configured(table, r) && (forall|j: int|
            0 <= j < table.len() ==> (#[trigger] table[j]).0 == "roots"@ || table[j].0
                == "ignore"@) ==> (r matches Ok(c) && c@.roots == crate::config::list_under(
            table,
            "roots"@,
        ) && c@.ignore == crate::config::list_under(table, "ignore"@)),
        configured(table, r) && (exists|j: int|
            0 <= j < table.len() && (#[trigger] table[j]).0 != "roots"@ && table[j].0 != "ignore"@)
            ==> r matches Err(ConfigError::UnknownKey(_)),
        configured_by(text, r) && crate::config::toml_lists(text) is Err ==> r matches Err(
            ConfigError::Malformed(_),
        ),
        configured_by(text, r) ==> (crate::config::toml_lists(text) matches Ok(t) ==> configured(
            t,
            r,
        )),
{
    crate::laws::languages::other_keys_are_refused(table);
    if exists|j: int|
        0 <= j < table.len() && (#[trigger] table[j]).0 != "roots"@ && table[j].0 != "ignore"@ {
        let j = choose|j: int|
            0 <= j < table.len() && (#[trigger] table[j]).0 != "roots"@ && table[j].0
                != "ignore"@;
        assert(crate::config::stray_key(table) is Some);
    }
    if forall|j: int|
        0 <= j < table.len() ==> (#[trigger] table[j]).0 == "roots"@ || table[j].0 == "ignore"@ {
        assert(crate::config::stray_key(table) is None);
    }
}

/// The configuration in the directory counts, else the one above, else there is
/// none.
pub proof fn the_nearer_configuration_counts(
    here: Seq<char>,
    above: Option<Seq<char>>,
    text: Seq<char>,
    r: Result<Config, ConfigError>,
)
    ensures
        crate::config::nearer_configures(Some(here), above, r) <==> configured_by(here, r),
        crate::config::nearer_configures(None, Some(text), r) <==> configured_by(text, r),
        crate::config::nearer_configures(None, None, r) ==> (r matches Ok(c) && c@.roots.len() == 0
            && c@.ignore.len() == 0),
{
}

/// The language that is stated is the one that is read, else the one that is
/// detected, and Rust where nothing shows one.
pub proof fn the_stated_language_is_read(tree: SourceTree, l: Language)
    ensures
        crate::frontend::reading_language(tree, Some(l)) == l,
        crate::lang::detected(tree@.here, tree@.above, tree@.listing) == Some(l)
            ==> crate::frontend::reading_language(tree, None) == l,
        crate::lang::detected(tree@.here, tree@.above, tree@.listing) is None
            ==> crate::frontend::reading_language(tree, None) == Language::Rust,
{
}

/// A scan says how the project was read, and is configured as it was told; only
/// a precise one also says how many findings the default has.
pub proof fn scans_tell_how_they_were_made(
    tree: SourceTree,
    workspace: WorkspaceView,
    mir: Option<String>,
    config: ConfigView,
    tier: Tier,
    lang: Option<Language>,
    s: crate::scan::Scan,
)
    requires
        crate::scanner::scanned(
            tree,
            workspace,
            mir,
            config,
            tier,
            lang,
            Ok::<crate::scan::Scan, String>(s),
        ),
    ensures
        exists|p: AnyProject|
            #[trigger] project_in(tree, lang, workspace, p) && s.project_description@
                == p.described() && s@.application == p.runs_alone() && s@.entry_points
                == p.entries() && s@.entry_files == p.loaded() && s@.config == config,
        tier == Tier::Default ==> s.nominal_findings is None,
        tier == Tier::Precise ==> s.nominal_findings is Some,
        tier == Tier::Precise ==> crate::frontend::reading_language(tree, lang) == Language::Rust
            && mir is Some,
{
    let (p, input) = choose|p: AnyProject, input: Input|
        #![trigger project_in(tree, lang, workspace, p), gathered(input, tree, p, workspace, mir)]
        project_in(tree, lang, workspace, p) && gathered(input, tree, p, workspace, mir)
            && match extraction(tier, crate::frontend::reading_language(tree, lang), input) {
            Ok(x) => scan_of(s@, x, p, config) && crate::scanner::laid_out(s, x)
                && s.project_description@ == p.described() && match tier {
                Tier::Default => s.nominal_findings is None,
                Tier::Precise => s.nominal_findings matches Some(n) && crate::scanner::default_count(
                    rust_extract(input.rust@, texts(input.rust_roots@)),
                    p,
                    config,
                    n as nat,
                ),
            },
            Err(m) => false,
        };
    tiers_extract_what_they_read(input, crate::frontend::reading_language(tree, lang));
}

/// How many findings the default has is how many it reports on the same code.
pub proof fn the_default_is_counted(
    x: ExtractView,
    p: AnyProject,
    config: ConfigView,
    n: nat,
)
    requires
        crate::scanner::default_count(x, p, config, n),
    ensures
        exists|s: ScanView| #[trigger]
            scan_of(s, x, p, config) && n == crate::findings::unreachable_code(s).len(),
{
}

/// To ask for precision in a language that has none is refused, with the
/// language named and the way out told.
pub proof fn refusals_name_the_language(lang: Language, input: Input)
    requires
        lang != Language::Rust,
    ensures
        extraction(Tier::Precise, lang, input) matches Err(m) && ({
            let said = match lang {
                Language::Python => "python"@,
                Language::TypeScript => "typescript"@,
                _ => "go"@,
            };
            let first = "--precise is only available for Rust; this looks like a "@;
            &&& begins(m, first + said + " project."@)
            &&& ends(m, "see `landed check --stats`."@)
        }),
{
    let first = "--precise is only available for Rust; this looks like a "@;
    let last = "see `landed check --stats`."@;
    let dot = " project."@;
    reveal_strlit(" project.");
    reveal_strlit("see `landed check --stats`.");
    reveal_strlit(
        " project.\n\nPrecision comes from reading the compiler's resolved output, and only the Rust frontend does that. Run without --precise for the syntactic analysis, which reports what it cannot resolve rather than guessing — see `landed check --stats`.",
    );
    let rest =
        " project.\n\nPrecision comes from reading the compiler's resolved output, and only the Rust frontend does that. Run without --precise for the syntactic analysis, which reports what it cannot resolve rather than guessing — see `landed check --stats`."@;
    let said = crate::lang::name_of(lang);
    let m = first + said + rest;
    assert(rest.subrange(0, dot.len() as int) =~= dot);
    let front = first + said + dot;
    assert(m.subrange(0, front.len() as int) =~= front);
    assert(rest.subrange(rest.len() - last.len(), rest.len() as int) =~= last);
    assert(m.subrange(m.len() - last.len(), m.len() as int) =~= last);
}

} // verus!
