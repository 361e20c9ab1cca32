//! From a directory to its call graph.

use vstd::prelude::*;

use crate::config::Config;
use crate::config::ConfigView;
use crate::findings::never_run_graph;
use crate::findings::unreachable_code;
use crate::frontend::extract_as;
use crate::frontend::extraction;
use crate::frontend::reading_language;
use crate::frontend::rust_syntax::parse_events;
use crate::frontend::rust_syntax::rust_events;
use crate::frontend::syn_frontend::rust_extract;
use crate::frontend::syn_frontend::RustFile;
use crate::frontend::Tier;
use crate::ir::views;
use crate::ir::ExtractView;
use crate::ir::Input;
use crate::lang::Language;
use crate::paths::is_within;
use crate::paths::paths_rise;
use crate::paths::within;
use crate::project::detect_as;
use crate::project::production_dirs;
use crate::project::read_dirs;
use crate::project::resolve_roots;
use crate::project::text_at;
use crate::project::AnyProject;
use crate::project::Project;
use crate::project::SourceTree;
use crate::scan::calls_from;
use crate::scan::guesses_from;
use crate::scan::rows_from;
use crate::scan::sites;
use crate::scan::sites_from;
use crate::scan::Facts;
use crate::scan::Scan;
use crate::scan::ScanView;
use crate::source::SourceFile;
use crate::source::SourceView;
use crate::targets::Workspace;
use crate::targets::WorkspaceView;
use crate::text::texts;

verus! {

/// The paths of sources.
pub open spec fn paths_of(files: Seq<SourceView>) -> Seq<Seq<char>> {
    files.map_values(|f: SourceView| f.path)
}

/// `files` are those that the project reads, in order, with their text and
/// with whether they are test code. A file that cannot be read is left out.
pub open spec fn read_by<P: Project>(project: P, tree: SourceTree, files: Seq<SourceView>) -> bool {
    &&& paths_rise(paths_of(files))
    &&& forall|p: Seq<char>| #[trigger]
        paths_of(files).contains(p) == (project.reads(p) && text_at(tree@, p) is Some)
    &&& forall|i: int|
        0 <= i < files.len() ==> text_at(tree@, (#[trigger] files[i]).path) == Some(files[i].text)
            && files[i].in_test == project.tests_at(files[i].path)
}

/// The sources of a project.
pub fn read_sources<P: Project>(project: &P, tree: &SourceTree) -> (r: Vec<SourceFile>)
    ensures
        read_by(*project, *tree, views(r@)),
{
    let paths = project.source_files();
    let ghost all = texts(paths@);
    let ghost there = |p: Seq<char>| text_at(tree@, p) is Some;
    let mut r: Vec<SourceFile> = Vec::new();
    let mut i: usize = 0;
    proof {
        reveal(Seq::filter);
        assert(paths_of(views(r@)) =~= all.take(0).filter(there));
    }
    while i < paths.len()
        invariant
            0 <= i <= paths@.len(),
            all == texts(paths@),
            there == (|p: Seq<char>| text_at(tree@, p) is Some),
            paths_of(views(r@)) == all.take(i as int).filter(there),
            forall|k: int|
                0 <= k < r@.len() ==> text_at(tree@, (#[trigger] views(r@)[k]).path) == Some(
                    views(r@)[k].text,
                ) && views(r@)[k].in_test == project.tests_at(views(r@)[k].path),
        decreases paths@.len() - i,
    {
        let path = paths[i].as_str();
        proof {
            assert(all[i as int] == path@);
            crate::seqs::filter_step(all, there, i as int);
        }
        if let Some(text) = tree.read(path) {
            let f = SourceFile {
                path: paths[i].clone(),
                text: text.to_owned(),
                in_test: project.is_test_file(path),
            };
            let ghost before = views(r@);
            proof {
                crate::seqs::map_push(r@, |x: SourceFile| x@, f);
            }
            r.push(f);
            proof {
                assert(paths_of(views(r@)) =~= paths_of(before).push(f@.path));
                assert forall|k: int| 0 <= k < r@.len() implies text_at(
                    tree@,
                    (#[trigger] views(r@)[k]).path,
                ) == Some(views(r@)[k].text) && views(r@)[k].in_test == project.tests_at(
                    views(r@)[k].path,
                ) by {
                    if k < before.len() {
                        assert(views(r@)[k] == before[k]);
                    }
                }
            }
        }
        i += 1;
    }
    proof {
        assert(all.take(all.len() as int) =~= all);
        let kept = all.filter(there);
        filter_rises(all, there);
        assert forall|p: Seq<char>| #[trigger]
            paths_of(views(r@)).contains(p) == (project.reads(p) && text_at(tree@, p) is Some) by {
            crate::seqs::filter_members(all, there, p);
        }
    }
    r
}

proof fn filter_rises(s: Seq<Seq<char>>, keep: spec_fn(Seq<char>) -> bool)
    requires
        paths_rise(s),
    ensures
        paths_rise(s.filter(keep)),
    decreases s.len(),
{
    reveal(Seq::filter);
    if s.len() > 0 {
        let t = s.drop_last();
        filter_rises(t, keep);
        let kept = s.filter(keep);
        let before = t.filter(keep);
        if keep(s.last()) {
            assert(kept =~= before.push(s.last()));
            assert forall|i: int, j: int| 0 <= i < j < kept.len() implies crate::order::texts_less(
                crate::text::split(#[trigger] kept[i], "/"@),
                crate::text::split(#[trigger] kept[j], "/"@),
            ) by {
                if j == before.len() {
                    assert(before.contains(kept[i]));
                    crate::seqs::filter_members(t, keep, kept[i]);
                    let k = choose|k: int| 0 <= k < t.len() && t[k] == kept[i];
                    assert(s[k] == kept[i]);
                    assert(s[s.len() - 1] == kept[j]);
                }
            }
        }
    }
}

/// The directory is one that the code of the project is read from.
pub open spec fn holds_code(project: AnyProject, dir: Seq<char>) -> bool {
    match project {
        AnyProject::Cargo(c) => read_dirs(c.tree@, c.workspace@).contains(dir),
        AnyProject::Convention(p) => dir == p.tree@.root,
    }
}

/// The directory is the deepest of those that hold the file.
pub open spec fn deepest_dir(project: AnyProject, path: Seq<char>, dir: Seq<char>) -> bool {
    &&& holds_code(project, dir)
    &&& within(path, dir)
    &&& forall|d: Seq<char>| #[trigger]
        holds_code(project, d) && within(path, d) ==> d.len() <= dir.len()
}

/// `f` is what the parser tells of a source, with its place in the project.
pub open spec fn belongs(project: AnyProject, s: SourceView, f: RustFile) -> bool {
    &&& f.path@ == s.path
    &&& f.in_test == s.in_test
    &&& rust_events(s.text) == Some(views(f.events@))
    &&& deepest_dir(project, s.path, f.crate_root@)
}

/// `rust` is what the parser tells of those of the sources that parse, in
/// order.
pub open spec fn parsed_from(
    project: AnyProject,
    sources: Seq<SourceView>,
    rust: Seq<RustFile>,
) -> bool {
    let kept = sources.filter(|s: SourceView| rust_events(s.text) is Some);
    &&& rust.len() == kept.len()
    &&& forall|i: int| 0 <= i < rust.len() ==> belongs(project, kept[i], #[trigger] rust[i])
}

fn deepest(dirs: &Vec<String>, path: &str) -> (r: String)
    requires
        exists|k: int| 0 <= k < texts(dirs@).len() && within(path@, #[trigger] texts(dirs@)[k]),
    ensures
        texts(dirs@).contains(r@),
        within(path@, r@),
        forall|d: Seq<char>| #[trigger]
            texts(dirs@).contains(d) && within(path@, d) ==> d.len() <= r@.len(),
{
    let ghost all = texts(dirs@);
    let mut best: Option<usize> = None;
    let mut size: usize = 0;
    let mut i: usize = 0;
    while i < dirs.len()
        invariant
            0 <= i <= dirs@.len(),
            all == texts(dirs@),
            match best {
                Some(b) => b < i && within(path@, all[b as int]) && size == all[b as int].len()
                    && forall|k: int|
                    0 <= k < i && within(path@, #[trigger] all[k]) ==> all[k].len() <= size,
                None => forall|k: int| 0 <= k < i ==> !within(path@, #[trigger] all[k]),
            },
        decreases dirs@.len() - i,
    {
        let dir = dirs[i].as_str();
        assert(all[i as int] == dir@);
        if is_within(path, dir) {
            let n: usize = crate::text::width(dir);
            if best.is_none() || n > size {
                best = Some(i);
                size = n;
            }
        }
        i += 1;
    }
    match best {
        Some(b) => {
            proof {
                assert(all.contains(all[b as int]));
                assert forall|d: Seq<char>| #[trigger]
                    all.contains(d) && within(path@, d) implies d.len() <= size by {
                    let k = choose|k: int| 0 <= k < all.len() && all[k] == d;
                    assert(within(path@, all[k]));
                }
            }
            dirs[b].clone()
        },
        None => "".to_owned(),
    }
}

/// The directories that the code of the project is read from.
fn code_dirs(project: &AnyProject) -> (r: Vec<String>)
    ensures
        forall|d: Seq<char>| #[trigger] texts(r@).contains(d) == holds_code(*project, d),
{
    match project {
        AnyProject::Cargo(c) => c.source_dirs(),
        AnyProject::Convention(p) => {
            let r = vec![p.tree.root.clone()];
            proof {
                assert(texts(r@) =~= seq![p.tree@.root]);
                assert(texts(r@)[0] == p.tree@.root);
            }
            r
        },
    }
}

/// What the parser tells of the sources, each with its place. One that does
/// not parse is left out rather than failing the run.
fn parse_files(project: &AnyProject, sources: &Vec<SourceFile>) -> (r: Vec<RustFile>)
    requires
        forall|i: int|
            0 <= i < sources@.len() ==> project.reads((#[trigger] views(sources@)[i]).path),
    ensures
        parsed_from(*project, views(sources@), r@),
{
    let ghost given = views(sources@);
    let ghost parses = |s: SourceView| rust_events(s.text) is Some;
    let dirs = code_dirs(project);
    let ghost places = texts(dirs@);
    let mut r: Vec<RustFile> = Vec::new();
    let mut n: usize = 0;
    proof {
        reveal(Seq::filter);
        assert(given.take(0).filter(parses).len() == 0);
    }
    while n < sources.len()
        invariant
            0 <= n <= sources@.len(),
            given == views(sources@),
            parses == (|s: SourceView| rust_events(s.text) is Some),
            places == texts(dirs@),
            forall|d: Seq<char>| #[trigger] places.contains(d) == holds_code(*project, d),
            forall|i: int|
                0 <= i < given.len() ==> project.reads((#[trigger] given[i]).path),
            r@.len() == given.take(n as int).filter(parses).len(),
            forall|i: int|
                0 <= i < r@.len() ==> belongs(
                    *project,
                    given.take(n as int).filter(parses)[i],
                    #[trigger] r@[i],
                ),
        decreases sources@.len() - n,
    {
        let source = &sources[n];
        let ghost before = given.take(n as int).filter(parses);
        proof {
            assert(given[n as int] == source@);
            crate::seqs::filter_step(given, parses, n as int);
        }
        if let Some(events) = parse_events(source.text.as_str()) {
            let path = source.path.as_str();
            proof {
                assert(project.reads(path@));
                assert(exists|d: Seq<char>| #[trigger] holds_code(*project, d) && within(path@, d))
                    by {
                    match project {
                        AnyProject::Cargo(c) => {
                            let read = read_dirs(c.tree@, c.workspace@);
                            let k = choose|k: int|
                                0 <= k < read.len() && within(path@, #[trigger] read[k]);
                            assert(holds_code(*project, read[k]));
                        },
                        AnyProject::Convention(p) => {
                            assert(holds_code(*project, p.tree@.root));
                        },
                    }
                }
                let d = choose|d: Seq<char>| #[trigger]
                    holds_code(*project, d) && within(path@, d);
                assert(places.contains(d));
                let k = choose|k: int| 0 <= k < places.len() && places[k] == d;
                assert(within(path@, places[k]));
            }
            let crate_root = deepest(&dirs, path);
            proof {
                assert(places.contains(crate_root@));
                assert forall|d: Seq<char>| #[trigger]
                    holds_code(*project, d) && within(path@, d) implies d.len()
                    <= crate_root@.len() by {
                    assert(places.contains(d));
                }
            }
            let f = RustFile {
                path: source.path.clone(),
                crate_root,
                in_test: source.in_test,
                events,
            };
            let ghost older = r@;
            r.push(f);
            proof {
                let after = given.take(n + 1).filter(parses);
                assert(after =~= before.push(given[n as int]));
                assert forall|i: int| 0 <= i < r@.len() implies belongs(
                    *project,
                    after[i],
                    #[trigger] r@[i],
                ) by {
                    if i < older.len() {
                        assert(r@[i] == older[i]);
                    }
                }
            }
        }
        n += 1;
    }
    assert(given.take(given.len() as int) =~= given);
    r
}

/// `input` is what is read of the directory.
pub open spec fn gathered(
    input: Input,
    tree: SourceTree,
    project: AnyProject,
    workspace: WorkspaceView,
    mir: Option<String>,
) -> bool {
    &&& input.root@ == tree@.root
    &&& read_by(project, tree, views(input.sources@))
    &&& if project.in_language() == Language::Rust {
        parsed_from(project, views(input.sources@), input.rust@)
    } else {
        input.rust@.len() == 0
    }
    &&& texts(input.rust_roots@) == production_dirs(tree@, workspace)
    &&& input.mir == mir
}

/// The scan is that of what was extracted from a project.
pub open spec fn scan_of(
    s: ScanView,
    x: ExtractView,
    project: AnyProject,
    config: ConfigView,
) -> bool {
    &&& s.defs == x.definitions
    &&& s.edges == calls_from(x.definitions, x.edges, true)
    &&& s.guessed == guesses_from(x.definitions, x.edges)
    &&& s.all_edges == calls_from(x.definitions, x.edges, false)
    &&& forall|k: Seq<char>| #[trigger] sites(s, k) == sites_from(x.definitions, x.edges, k)
    &&& s.reexported == x.reexported
    &&& s.config == config
    &&& s.application == project.runs_alone()
    &&& s.entry_points == project.entries()
    &&& s.entry_files == project.loaded()
}

/// The scan lists its calls in the order of what was extracted, and names the
/// directories that were read.
pub open spec fn laid_out(s: Scan, x: ExtractView) -> bool {
    &&& s.edges.rows() == rows_from(x.definitions, x.edges, true)
    &&& s.all_edges.rows() == rows_from(x.definitions, x.edges, false)
    &&& texts(s.crate_roots@) == x.crate_roots
}

/// The default tier, which extracts `x`, finds `n` unreachable functions.
pub open spec fn default_count(
    x: ExtractView,
    project: AnyProject,
    config: ConfigView,
    n: nat,
) -> bool {
    exists|s: ScanView| #[trigger] scan_of(s, x, project, config) && n == unreachable_code(s).len()
}

proof fn counted(s: ScanView, x: ExtractView, project: AnyProject, config: ConfigView)
    requires
        scan_of(s, x, project, config),
    ensures
        default_count(x, project, config, unreachable_code(s).len()),
{
}

/// The project of a directory in a language.
pub open spec fn project_in(
    tree: SourceTree,
    lang: Option<Language>,
    workspace: WorkspaceView,
    p: AnyProject,
) -> bool {
    match crate::project::language_of(tree@, lang) {
        Some(Language::Rust) => p matches AnyProject::Cargo(c) && *c.tree == tree && c.workspace@
            == workspace,
        Some(l) => p matches AnyProject::Convention(c) && *c.tree == tree && c.lang == l,
        None => p matches AnyProject::Convention(c) && *c.tree == tree && c.lang == Language::Rust,
    }
}

/// What is said of a project, with its configuration.
fn facts<P: Project>(project: &P, config: Config) -> (r: Facts)
    ensures
        r.application == project.runs_alone(),
        texts(r.entry_points@) == project.entries(),
        texts(r.entry_files@) == project.loaded(),
        r.config == config,
        r.description@ == project.described(),
{
    Facts {
        application: project.is_application(),
        entry_points: project.entry_points(),
        entry_files: project.entry_files(),
        config,
        description: project.describe(),
    }
}

/// Scans a directory in the default tier, in the language that it shows.
pub fn scan_crate(
    tree: &SourceTree,
    workspace: Workspace,
    config: Config,
) -> (r: Result<Scan, String>)
    ensures
        scanned(*tree, workspace@, None, config@, Tier::Default, None, r),
{
    scan_crate_as(tree, workspace, None, config, Tier::Default, None)
}

/// `r` is what a scan of the directory gives: the frontend that its language
/// and the tier call for is run on what the project reads, and its extract is
/// joined with what the project says of itself.
pub open spec fn scanned(
    tree: SourceTree,
    workspace: WorkspaceView,
    mir: Option<String>,
    config: ConfigView,
    tier: Tier,
    lang: Option<Language>,
    r: Result<Scan, String>,
) -> bool {
    exists|p: AnyProject, input: Input|
        #![trigger project_in(tree, lang, workspace, p), gathered(input, tree, p, workspace, mir)]
        project_in(tree, lang, workspace, p) && gathered(input, tree, p, workspace, mir)
            && match extraction(tier, reading_language(tree, lang), input) {
            Ok(x) => r matches Ok(s) && scan_of(s@, x, p, config) && laid_out(s, x)
                && s.project_description@ == p.described() && match tier {
                Tier::Default => s.nominal_findings is None,
                Tier::Precise => s.nominal_findings matches Some(n) && default_count(
                    rust_extract(input.rust@, texts(input.rust_roots@)),
                    p,
                    config,
                    n as nat,
                ),
            },
            Err(m) => r matches Err(e) && e@ == m,
        }
}

/// Scans a directory, of which cargo says `workspace` and the compiler `mir`.
pub fn scan_crate_as(
    tree: &SourceTree,
    workspace: Workspace,
    mir: Option<String>,
    config: Config,
    tier: Tier,
    lang: Option<Language>,
) -> (r: Result<Scan, String>)
    ensures
        scanned(*tree, workspace@, mir, config@, tier, lang, r),
{
    let ghost w = workspace@;
    let rust_roots = resolve_roots(tree, &workspace);
    let project = detect_as(tree, workspace, lang);
    let sources = read_sources(&project, tree);
    proof {
        assert forall|i: int| 0 <= i < sources@.len() implies project.reads(
            (#[trigger] views(sources@)[i]).path,
        ) by {
            assert(paths_of(views(sources@))[i] == views(sources@)[i].path);
            assert(paths_of(views(sources@)).contains(views(sources@)[i].path));
        }
    }
    let rust: Vec<RustFile> = match project.language() {
        Language::Rust => parse_files(&project, &sources),
        _ => Vec::new(),
    };
    let input = Input { root: tree.root.clone(), sources, rust, rust_roots, mir };
    proof {
        assert(project_in(*tree, lang, w, project));
        assert(gathered(input, *tree, project, w, mir));
    }
    let x = match extract_as(tier, tree, &input, lang) {
        Ok(x) => x,
        Err(m) => {
            return Err(m);
        },
    };
    let ghost settings = config@;
    let mut nominal: Option<usize> = None;
    if tier == Tier::Precise {
        let plain = extract_as(Tier::Default, tree, &input, lang);
        let copy = Config {
            roots: crate::text::copy_all(&config.roots),
            ignore: crate::text::copy_all(&config.ignore),
        };
        proof {
            assert(copy@ =~= config@);
        }
        if let Ok(plain) = plain {
            let ghost was = plain@;
            let default_scan = Scan::from_extract(plain, facts(&project, copy));
            let found = never_run_graph(&default_scan);
            proof {
                assert(scan_of(default_scan@, was, project, config@));
                assert(views(found@).len() == found@.len());
                counted(default_scan@, was, project, settings);
            }
            nominal = Some(found.len());
        }
    }
    let mut s = Scan::from_extract(x, facts(&project, config));
    let ghost before = s@;
    s.nominal_findings = nominal;
    assert(s@ =~= before);
    Ok(s)
}

} // verus!
