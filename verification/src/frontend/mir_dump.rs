//! How cargo is asked for the MIR of a crate, and what its answers mean.
//!
//! Precise mode exists to be precise, so it must never quietly answer with
//! something less: every failure is named, with what to do about it.

use vstd::prelude::*;

use crate::ir::views;
use crate::paths::file_name;
use crate::paths::file_name_of;
use crate::paths::parent;
use crate::paths::parent_of;
use crate::targets::Kind;
use crate::targets::TargetView;
use crate::targets::Workspace;
use crate::targets::WorkspaceView;
use crate::text::begins;
use crate::text::chars_of;
use crate::text::join;
use crate::text::join_strings;
use crate::text::lines;
use crate::text::lines_of;
use crate::text::pieces;
use crate::text::present;
use crate::text::same;
use crate::text::starts_with;
use crate::text::string_of;
use crate::text::texts;
use crate::text::trim;
use crate::text::trimmed;

verus! {

/// The directory of the manifest for `path`: `path` itself, or the one above
/// a `src` directory, wherever a manifest is there; else `path`.
pub open spec fn manifest_dir(path: Seq<char>, here: bool, above: bool) -> Seq<char> {
    if here || file_name(path) != "src"@ || !above {
        path
    } else {
        match parent(path) {
            Some(p) => p,
            None => path,
        }
    }
}

/// The directory of the manifest for `path`, given whether `path` and the
/// directory above it hold one.
pub fn crate_dir(path: &str, here: bool, above: bool) -> (r: String)
    ensures
        r@ == manifest_dir(path@, here, above),
{
    if !here && above && same(file_name_of(path).as_str(), "src") {
        if let Some(p) = parent_of(path) {
            return p;
        }
    }
    path.to_owned()
}

/// Why there is no MIR.
#[derive(Debug)]
pub enum PreciseError {
    /// No manifest in the directory.
    NoManifest(String),
    /// No nightly toolchain.
    NoNightly,
    /// Cargo could not be started; holds why.
    CargoDidNotRun(String),
    /// No target gave any; holds what cargo said of each.
    NothingProduced(Vec<String>),
    /// What cargo gave is no MIR.
    NoMir,
}

/// What an error says.
pub open spec fn error_text(e: PreciseError) -> Seq<char> {
    match e {
        PreciseError::NoManifest(dir) => "--precise needs a cargo crate: no Cargo.toml at "@ + dir@
            + ".\nMIR comes from the compiler, so there must be something to compile."@,
        PreciseError::NoNightly =>
            "--precise needs a nightly toolchain, which is not installed.\n\nMIR is emitted through -Zunpretty, an unstable flag.\n\nInstall it:   rustup toolchain install nightly\n\nOr run without --precise for the syntactic analysis. That mode reports what it could not resolve rather than guessing — see `landed check --stats`."@,
        PreciseError::CargoDidNotRun(why) => "could not run cargo: "@ + why@,
        PreciseError::NothingProduced(failures) =>
            "--precise could not produce MIR for any target.\n\n"@ + (if failures@.len() == 0 {
                "(cargo reported no error, but emitted nothing)"@
            } else {
                join(texts(failures@), "\n"@)
            })
                + "\n\nMIR exists only for code the compiler accepted. Fix the build, or run without --precise — the syntactic analysis reads source directly and does not need a successful build."@,
        PreciseError::NoMir =>
            "cargo produced no MIR. The crate may have no compiled targets, or the -Zunpretty=mir output format may have changed in this nightly."@,
    }
}

impl PreciseError {
    /// What the error says.
    pub fn message(&self) -> (r: String)
        ensures
            r@ == error_text(*self),
    {
        match self {
            PreciseError::NoManifest(dir) => {
                let mut out = "--precise needs a cargo crate: no Cargo.toml at ".to_owned();
                out.append(dir.as_str());
                out.append(
                    ".\nMIR comes from the compiler, so there must be something to compile.",
                );
                out
            },
            PreciseError::NoNightly =>
                "--precise needs a nightly toolchain, which is not installed.\n\nMIR is emitted through -Zunpretty, an unstable flag.\n\nInstall it:   rustup toolchain install nightly\n\nOr run without --precise for the syntactic analysis. That mode reports what it could not resolve rather than guessing — see `landed check --stats`.".to_owned(),
            PreciseError::CargoDidNotRun(why) => {
                let mut out = "could not run cargo: ".to_owned();
                out.append(why.as_str());
                out
            },
            PreciseError::NothingProduced(failures) => {
                let mut out = "--precise could not produce MIR for any target.\n\n".to_owned();
                if failures.len() == 0 {
                    out.append("(cargo reported no error, but emitted nothing)");
                } else {
                    out.append(join_strings(failures, "\n").as_str());
                }
                out.append(
                    "\n\nMIR exists only for code the compiler accepted. Fix the build, or run without --precise — the syntactic analysis reads source directly and does not need a successful build.",
                );
                out
            },
            PreciseError::NoMir =>
                "cargo produced no MIR. The crate may have no compiled targets, or the -Zunpretty=mir output format may have changed in this nightly.".to_owned(),
        }
    }
}

/// How cargo is told of one target.
pub open spec fn selector(t: TargetView) -> Seq<Seq<char>> {
    match t.kind {
        Kind::Lib => seq!["-p"@, t.package, "--lib"@],
        _ => seq!["-p"@, t.package, "--bin"@, t.name],
    }
}

/// How cargo is told of each target that ships, or to choose for itself.
/// Extra arguments go to one target at a time.
pub open spec fn selectors_of(w: WorkspaceView) -> Seq<Seq<Seq<char>>> {
    let ships = w.targets.filter(|t: TargetView| crate::targets::ships(t)).map_values(
        |t: TargetView| selector(t),
    );
    if ships.len() == 0 {
        seq![seq![]]
    } else {
        ships
    }
}

/// The model of lists of texts.
pub open spec fn text_lists(v: Seq<Vec<String>>) -> Seq<Seq<Seq<char>>> {
    v.map_values(|l: Vec<String>| texts(l@))
}

/// How cargo is told of each target that ships, or to choose for itself.
pub fn selectors(ws: &Workspace) -> (r: Vec<Vec<String>>)
    ensures
        text_lists(r@) == selectors_of(ws@),
{
    let ghost all = ws@.targets;
    let ghost keep = |t: TargetView| crate::targets::ships(t);
    let ghost told = |t: TargetView| selector(t);
    let mut r: Vec<Vec<String>> = Vec::new();
    let mut i: usize = 0;
    proof {
        reveal(Seq::filter);
        assert(text_lists(r@) =~= all.take(0).filter(keep).map_values(told));
    }
    while i < ws.targets.len()
        invariant
            0 <= i <= ws.targets@.len(),
            all == ws@.targets,
            keep == (|t: TargetView| crate::targets::ships(t)),
            told == (|t: TargetView| selector(t)),
            text_lists(r@) == all.take(i as int).filter(keep).map_values(told),
        decreases ws.targets@.len() - i,
    {
        let t = &ws.targets[i];
        let ghost before = r@;
        proof {
            assert(all[i as int] == t@);
            crate::seqs::filter_step(all, keep, i as int);
        }
        if t.kind == Kind::Bin || t.kind == Kind::Lib {
            let mut sel: Vec<String> = vec!["-p".to_owned(), t.package.clone()];
            if t.kind == Kind::Lib {
                sel.push("--lib".to_owned());
            } else {
                sel.push("--bin".to_owned());
                sel.push(t.name.clone());
            }
            proof {
                assert(texts(sel@) =~= selector(t@));
                crate::seqs::map_push(all.take(i as int).filter(keep), told, t@);
                crate::seqs::map_push(before, |l: Vec<String>| texts(l@), sel);
            }
            r.push(sel);
        }
        i += 1;
    }
    assert(all.take(all.len() as int) =~= all);
    if r.len() == 0 {
        let free: Vec<String> = Vec::new();
        proof {
            assert(texts(free@) =~= seq![]);
        }
        r.push(free);
        assert(text_lists(r@) =~= seq![seq![]]);
    }
    r
}

/// What cargo is called with for one selector. The test profile compiles test
/// bodies too, so a call that only a test makes gets its typed identity; a
/// release build would inline calls away.
pub open spec fn arguments_of(sel: Seq<Seq<char>>) -> Seq<Seq<char>> {
    seq!["+nightly"@, "rustc"@, "--profile"@, "test"@] + sel + seq!["--"@, "-Zunpretty=mir"@]
}

/// What cargo is called with for one selector.
pub fn arguments(sel: &Vec<String>) -> (r: Vec<String>)
    ensures
        texts(r@) == arguments_of(texts(sel@)),
{
    let mut r: Vec<String> = vec![
        "+nightly".to_owned(),
        "rustc".to_owned(),
        "--profile".to_owned(),
        "test".to_owned(),
    ];
    let ghost head = seq!["+nightly"@, "rustc"@, "--profile"@, "test"@];
    let ghost all = texts(sel@);
    let mut i: usize = 0;
    proof {
        assert(texts(r@) =~= head + all.take(0));
    }
    while i < sel.len()
        invariant
            0 <= i <= sel@.len(),
            all == texts(sel@),
            texts(r@) == head + all.take(i as int),
        decreases sel@.len() - i,
    {
        let ghost before = texts(r@);
        r.push(sel[i].clone());
        proof {
            assert(texts(r@) =~= before.push(all[i as int]));
            assert(before.push(all[i as int]) =~= head + all.take(i + 1));
        }
        i += 1;
    }
    r.push("--".to_owned());
    r.push("-Zunpretty=mir".to_owned());
    proof {
        assert(all.take(all.len() as int) =~= all);
        assert(texts(r@) =~= arguments_of(all));
    }
    r
}

/// What cargo answered to one call.
#[verifier::ext_equal]
pub struct RunView {
    pub selector: Seq<Seq<char>>,
    pub success: bool,
    pub stdout: Seq<char>,
    pub stderr: Seq<char>,
}

#[derive(Debug)]
pub struct Run {
    pub selector: Vec<String>,
    pub success: bool,
    pub stdout: String,
    pub stderr: String,
}

impl View for Run {
    type V = RunView;

    open spec fn view(&self) -> RunView {
        RunView {
            selector: texts(self.selector@),
            success: self.success,
            stdout: self.stdout@,
            stderr: self.stderr@,
        }
    }
}

/// The line tells of an error.
pub open spec fn tells_error(line: Seq<char>) -> bool {
    begins(line, "error"@) || present(line, "error["@)
}

/// The first two lines that tell of an error.
pub open spec fn first_errors(lines: Seq<Seq<char>>) -> Seq<Seq<char>>
    decreases lines.len(),
{
    if lines.len() == 0 {
        seq![]
    } else {
        let before = first_errors(lines.drop_last());
        if before.len() < 2 && tells_error(lines.last()) {
            before.push(lines.last())
        } else {
            before
        }
    }
}

/// What is said of a target that failed.
pub open spec fn failure_text(r: RunView) -> Seq<char> {
    "  "@ + join(r.selector, " "@) + ": "@ + join(first_errors(lines_of(r.stderr)), " / "@)
}

/// All that the calls gave.
pub open spec fn gathered(runs: Seq<RunView>) -> Seq<char>
    decreases runs.len(),
{
    if runs.len() == 0 {
        seq![]
    } else {
        gathered(runs.drop_last()) + if runs.last().success {
            runs.last().stdout + "\n"@
        } else {
            seq![]
        }
    }
}

/// What is said of the targets that failed.
pub open spec fn failures_of(runs: Seq<RunView>) -> Seq<Seq<char>> {
    runs.filter(|r: RunView| !r.success).map_values(|r: RunView| failure_text(r))
}

fn failure(run: &Run) -> (r: String)
    ensures
        r@ == failure_text(run@),
{
    let err = chars_of(run.stderr.as_str());
    let list = lines(&err);
    let ghost all = pieces(list@);
    let mut told: Vec<String> = Vec::new();
    let mut i: usize = 0;
    proof {
        assert(texts(told@) =~= first_errors(all.take(0)));
    }
    while i < list.len()
        invariant
            0 <= i <= list@.len(),
            all == pieces(list@),
            texts(told@) == first_errors(all.take(i as int)),
            told@.len() <= 2,
        decreases list@.len() - i,
    {
        let line = list[i];
        let ghost before = texts(told@);
        proof {
            assert(all.take(i + 1).drop_last() =~= all.take(i as int));
            assert(all.take(i + 1).last() == line@);
            assert(before.len() == told@.len());
        }
        if told.len() < 2 && (starts_with(line, "error") || crate::text::contains(
            line,
            "error[",
        )) {
            told.push(string_of(line));
            assert(texts(told@) =~= before.push(line@));
        }
        i += 1;
    }
    assert(all.take(all.len() as int) =~= all);
    let mut out = "  ".to_owned();
    out.append(join_strings(&run.selector, " ").as_str());
    out.append(": ");
    out.append(join_strings(&told, " / ").as_str());
    out
}

/// What runs of cargo come to.
pub open spec fn comes_of(runs: Seq<RunView>, r: Result<String, PreciseError>) -> bool {
    let text = gathered(runs);
    if trimmed(text).len() == 0 {
        r matches Err(PreciseError::NothingProduced(f)) && texts(f@) == failures_of(runs)
    } else if !present(text, "fn "@) {
        r matches Err(PreciseError::NoMir)
    } else {
        r matches Ok(t) && t@ == text
    }
}

/// What is to be run, or why nothing can be.
pub open spec fn planned(
    dir: Seq<char>,
    has_manifest: bool,
    has_nightly: bool,
    w: WorkspaceView,
    r: Result<Vec<Vec<String>>, PreciseError>,
) -> bool {
    if !has_manifest {
        r matches Err(PreciseError::NoManifest(d)) && d@ == dir
    } else if !has_nightly {
        r matches Err(PreciseError::NoNightly)
    } else {
        r matches Ok(v) && text_lists(v@) == selectors_of(w)
    }
}

/// The MIR that cargo's answers make, or why they make none.
pub fn outcome(runs: &Vec<Run>) -> (r: Result<String, PreciseError>)
    ensures
        comes_of(views(runs@), r),
        ({
            let text = gathered(views(runs@));
            if trimmed(text).len() == 0 {
                r matches Err(PreciseError::NothingProduced(f)) && texts(f@) == failures_of(
                    views(runs@),
                )
            } else if !present(text, "fn "@) {
                r matches Err(PreciseError::NoMir)
            } else {
                r matches Ok(t) && t@ == text
            }
        }),
{
    let ghost all = views(runs@);
    let ghost failed = |x: RunView| !x.success;
    let ghost told = |x: RunView| failure_text(x);
    let mut text = String::new();
    let mut failures: Vec<String> = Vec::new();
    let mut i: usize = 0;
    proof {
        reveal(Seq::filter);
        assert(texts(failures@) =~= all.take(0).filter(failed).map_values(told));
        assert(text@ =~= gathered(all.take(0)));
    }
    while i < runs.len()
        invariant
            0 <= i <= runs@.len(),
            all == views(runs@),
            failed == (|x: RunView| !x.success),
            told == (|x: RunView| failure_text(x)),
            text@ == gathered(all.take(i as int)),
            texts(failures@) == all.take(i as int).filter(failed).map_values(told),
        decreases runs@.len() - i,
    {
        let run = &runs[i];
        let ghost before = texts(failures@);
        let ghost so_far = text@;
        proof {
            assert(all[i as int] == run@);
            assert(all.take(i + 1).drop_last() =~= all.take(i as int));
            assert(all.take(i + 1).last() == run@);
            crate::seqs::filter_step(all, failed, i as int);
        }
        if run.success {
            text.append(run.stdout.as_str());
            text.append("\n");
            assert(text@ =~= so_far + (run@.stdout + "\n"@));
        } else {
            proof {
                crate::seqs::map_push(all.take(i as int).filter(failed), told, run@);
            }
            failures.push(failure(run));
            assert(texts(failures@) =~= before.push(failure_text(run@)));
            assert(text@ =~= so_far + Seq::<char>::empty());
        }
        i += 1;
    }
    assert(all.take(all.len() as int) =~= all);
    let c = chars_of(text.as_str());
    if trim(&c).len() == 0 {
        return Err(PreciseError::NothingProduced(failures));
    }
    if !crate::text::contains(&c, "fn ") {
        return Err(PreciseError::NoMir);
    }
    Ok(text)
}

/// How cargo is to be asked for the MIR of `dir`, or why it cannot be: one
/// selector for each call.
pub fn plan(dir: &str, has_manifest: bool, has_nightly: bool, ws: &Workspace) -> (r: Result<
    Vec<Vec<String>>,
    PreciseError,
>)
    ensures
        planned(dir@, has_manifest, has_nightly, ws@, r),
        if !has_manifest {
            r matches Err(PreciseError::NoManifest(d)) && d@ == dir@
        } else if !has_nightly {
            r matches Err(PreciseError::NoNightly)
        } else {
            r matches Ok(v) && text_lists(v@) == selectors_of(ws@)
        },
{
    if !has_manifest {
        return Err(PreciseError::NoManifest(dir.to_owned()));
    }
    if !has_nightly {
        return Err(PreciseError::NoNightly);
    }
    Ok(selectors(ws))
}

} // verus!
