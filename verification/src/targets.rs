//! What cargo says of a crate: its targets, their kinds and their files.

use vstd::prelude::*;

use crate::ir::views;
use crate::names::NameSet;
use crate::paths::file_name;
use crate::paths::file_name_of;
use crate::paths::is_within;
use crate::paths::parent;
use crate::paths::parent_of;
use crate::paths::paths_rise;
use crate::paths::sort_paths;
use crate::paths::sorted_paths;
use crate::paths::within;
use crate::text::lists;
use crate::text::same;
use crate::text::texts;

verus! {

/// What a target is for.
#[derive(Debug, Clone, Copy, PartialEq, Eq, Structural)]
pub enum Kind {
    /// A real entry point: `main` runs.
    Bin,
    /// Consumed by other crates, so its public API is an entry point.
    Lib,
    /// Integration test, benchmark, example: compiled, never production.
    NotProduction,
    /// Runs at build time, not in the shipped program.
    BuildScript,
}

/// The kind that cargo's names for it make. Whatever is also a binary is an
/// entry point.
pub open spec fn kind_of(kinds: Seq<Seq<char>>) -> Kind {
    if kinds.contains("bin"@) {
        Kind::Bin
    } else if kinds.contains("custom-build"@) {
        Kind::BuildScript
    } else if kinds.contains("test"@) || kinds.contains("bench"@) || kinds.contains("example"@) {
        Kind::NotProduction
    } else {
        Kind::Lib
    }
}

impl Kind {
    pub fn from_cargo(kinds: &Vec<String>) -> (r: Self)
        ensures
            r == kind_of(texts(kinds@)),
    {
        if lists(kinds, "bin") {
            Kind::Bin
        } else if lists(kinds, "custom-build") {
            Kind::BuildScript
        } else if lists(kinds, "test") || lists(kinds, "bench") || lists(kinds, "example") {
            Kind::NotProduction
        } else {
            Kind::Lib
        }
    }
}

#[verifier::ext_equal]
pub struct TargetView {
    pub name: Seq<char>,
    pub kind: Kind,
    pub src_path: Seq<char>,
    pub package: Seq<char>,
}

#[derive(Debug)]
pub struct Target {
    pub name: String,
    pub kind: Kind,
    /// The file that cargo compiles the target from.
    pub src_path: String,
    /// The package that it belongs to.
    pub package: String,
}

impl View for Target {
    type V = TargetView;

    open spec fn view(&self) -> TargetView {
        TargetView {
            name: self.name@,
            kind: self.kind,
            src_path: self.src_path@,
            package: self.package@,
        }
    }
}

#[verifier::ext_equal]
pub struct WorkspaceView {
    pub targets: Seq<TargetView>,
    pub from_cargo: bool,
}

#[derive(Debug)]
pub struct Workspace {
    pub targets: Vec<Target>,
    /// Cargo answered. Otherwise directory conventions apply.
    pub from_cargo: bool,
}

impl View for Workspace {
    type V = WorkspaceView;

    open spec fn view(&self) -> WorkspaceView {
        WorkspaceView { targets: views(self.targets@), from_cargo: self.from_cargo }
    }
}

/// Nothing is known.
pub open spec fn no_workspace() -> WorkspaceView {
    WorkspaceView { targets: seq![], from_cargo: false }
}

impl Default for Workspace {
    fn default() -> (r: Self)
        ensures
            r@ == no_workspace(),
    {
        let r = Workspace { targets: Vec::new(), from_cargo: false };
        assert(views(r.targets@) =~= seq![]);
        r
    }
}

/// The target is part of what ships.
pub open spec fn ships(t: TargetView) -> bool {
    t.kind == Kind::Bin || t.kind == Kind::Lib
}

/// `dir` holds the file of a target that ships.
pub open spec fn ships_from(targets: Seq<TargetView>, dir: Seq<char>) -> bool {
    exists|i: int|
        0 <= i < targets.len() && ships(#[trigger] targets[i]) && parent(targets[i].src_path)
            == Some(dir)
}

/// `dir` holds the file of a target that ships, and no directory around it
/// does.
pub open spec fn outermost(targets: Seq<TargetView>, dir: Seq<char>) -> bool {
    ships_from(targets, dir) && forall|o: Seq<char>|
        #![trigger ships_from(targets, o)]
        ships_from(targets, o) && o != dir ==> !within(dir, o)
}

/// The directories to scan, in order.
pub open spec fn shipped_dirs(targets: Seq<TargetView>) -> Seq<Seq<char>> {
    sorted_paths(Set::new(|d: Seq<char>| outermost(targets, d)))
}

/// The path lies with the file of a target that ships.
pub open spec fn among_shipped(targets: Seq<TargetView>, path: Seq<char>) -> bool {
    exists|i: int|
        0 <= i < targets.len() && ships(#[trigger] targets[i]) && (parent(
            targets[i].src_path,
        ) matches Some(dir) && within(path, dir))
}

/// The file is what cargo compiles a test, a benchmark or an example from.
pub open spec fn test_target(targets: Seq<TargetView>, path: Seq<char>) -> bool {
    exists|i: int|
        0 <= i < targets.len() && (#[trigger] targets[i]).kind == Kind::NotProduction
            && targets[i].src_path == path
}

impl Workspace {
    /// The directories of the files of targets that ship.
    fn shipping_dirs(&self) -> (r: NameSet)
        ensures
            forall|d: Seq<char>| #[trigger] r@.contains(d) == ships_from(self@.targets, d),
    {
        let ghost all = self@.targets;
        let mut r = NameSet::new();
        let mut i: usize = 0;
        while i < self.targets.len()
            invariant
                0 <= i <= self.targets@.len(),
                all == self@.targets,
                forall|d: Seq<char>| #[trigger]
                    r@.contains(d) == exists|k: int|
                        0 <= k < i && ships(#[trigger] all[k]) && parent(all[k].src_path) == Some(
                            d,
                        ),
            decreases self.targets@.len() - i,
        {
            let t = &self.targets[i];
            let ghost so_far = r@;
            assert(all[i as int] == t@);
            if t.kind == Kind::Bin || t.kind == Kind::Lib {
                if let Some(dir) = parent_of(t.src_path.as_str()) {
                    r.insert(dir.as_str());
                }
            }
            proof {
                assert forall|d: Seq<char>| #[trigger]
                    r@.contains(d) == exists|k: int|
                        0 <= k < i + 1 && ships(#[trigger] all[k]) && parent(all[k].src_path)
                            == Some(d) by {
                    if so_far.contains(d) {
                        let k = choose|k: int|
                            0 <= k < i && ships(#[trigger] all[k]) && parent(all[k].src_path)
                                == Some(d);
                        assert(ships(all[k]));
                    }
                    if r@.contains(d) && !so_far.contains(d) {
                        assert(ships(all[i as int]));
                    }
                }
            }
            i += 1;
        }
        r
    }

    /// The directories to scan: those of the files of targets that ship, in
    /// order, none inside another.
    pub fn production_source_dirs(&self) -> (r: Vec<String>)
        ensures
            texts(r@) == shipped_dirs(self@.targets),
            forall|d: Seq<char>| #[trigger]
                texts(r@).contains(d) == outermost(self@.targets, d),
            paths_rise(texts(r@)),
    {
        let ghost all = self@.targets;
        let dirs = self.shipping_dirs();
        let names = dirs.items();
        let ghost list = texts(names@);
        let mut kept: Vec<String> = Vec::new();
        let mut i: usize = 0;
        while i < names.len()
            invariant
                0 <= i <= names@.len(),
                all == self@.targets,
                list == texts(names@),
                list == dirs.list(),
                forall|d: Seq<char>| #[trigger] dirs@.contains(d) == ships_from(all, d),
                forall|d: Seq<char>| #[trigger]
                    texts(kept@).contains(d) == (list.take(i as int).contains(d) && outermost(
                        all,
                        d,
                    )),
            decreases names@.len() - i,
        {
            let d = &names[i];
            let ghost before = kept@;
            let ghost mine = list[i as int];
            proof {
                assert(dirs@.contains(mine));
            }
            let mut inside: bool = false;
            let mut j: usize = 0;
            while j < names.len()
                invariant
                    0 <= j <= names@.len(),
                    list == texts(names@),
                    inside == exists|k: int|
                        0 <= k < j && #[trigger] list[k] != d@ && within(d@, list[k]),
                decreases names@.len() - j,
            {
                let o = &names[j];
                assert(list[j as int] == o@);
                if !same(o.as_str(), d.as_str()) && is_within(d.as_str(), o.as_str()) {
                    inside = true;
                }
                j += 1;
            }
            proof {
                if !inside {
                    assert forall|o: Seq<char>|
                        #![trigger ships_from(all, o)]
                        ships_from(all, o) && o != mine implies !within(mine, o) by {
                        assert(dirs@.contains(o));
                        let k = choose|k: int| 0 <= k < list.len() && list[k] == o;
                        assert(list[k] != d@);
                    }
                } else {
                    let k = choose|k: int|
                        0 <= k < list.len() && #[trigger] list[k] != d@ && within(d@, list[k]);
                    assert(dirs@.contains(list[k]));
                    assert(ships_from(all, list[k]));
                }
                assert(inside == !outermost(all, mine));
            }
            if !inside {
                kept.push(d.clone());
                assert(texts(kept@) =~= texts(before).push(d@));
            }
            proof {
                assert(list.take(i + 1) =~= list.take(i as int).push(mine));
                assert forall|x: Seq<char>| #[trigger]
                    texts(kept@).contains(x) == (list.take(i + 1).contains(x) && outermost(
                        all,
                        x,
                    )) by {
                    crate::seqs::pushed_members(list.take(i as int), mine, x);
                    crate::seqs::pushed_members(texts(before), mine, x);
                    assert(texts(before).contains(x) == (list.take(i as int).contains(x)
                        && outermost(all, x)));
                }
            }
            i += 1;
        }
        let ghost chosen = texts(kept@);
        let r = sort_paths(kept);
        proof {
            assert(list.take(list.len() as int) =~= list);
            assert forall|d: Seq<char>| #[trigger] texts(r@).contains(d) == outermost(all, d) by {
                assert(texts(r@).to_set().contains(d) == chosen.to_set().contains(d));
                if outermost(all, d) {
                    assert(dirs@.contains(d));
                }
            }
            let whole = Set::new(|d: Seq<char>| outermost(all, d));
            assert(texts(r@).to_set() =~= whole);
            crate::paths::sorted_paths_is(texts(r@), whole);
        }
        r
    }
}

/// The directories of targets that match.
pub open spec fn dirs_of(targets: Seq<TargetView>, kind: Kind) -> Seq<Seq<char>>
    decreases targets.len(),
{
    if targets.len() == 0 {
        seq![]
    } else {
        let before = dirs_of(targets.drop_last(), kind);
        match parent(targets.last().src_path) {
            Some(dir) => if targets.last().kind == kind {
                before.push(dir)
            } else {
                before
            },
            None => before,
        }
    }
}

/// Some target is a binary.
pub open spec fn any_binary(targets: Seq<TargetView>) -> bool {
    exists|i: int| 0 <= i < targets.len() && (#[trigger] targets[i]).kind == Kind::Bin
}

impl Workspace {
    /// The directories of what cargo compiles as tests, benchmarks or
    /// examples. What is defined there is test code, whatever its name.
    pub fn non_production_roots(&self) -> (r: Vec<String>)
        ensures
            texts(r@) == dirs_of(self@.targets, Kind::NotProduction),
    {
        let ghost all = self@.targets;
        let mut r: Vec<String> = Vec::new();
        let mut i: usize = 0;
        proof {
            assert(texts(r@) =~= dirs_of(all.take(0), Kind::NotProduction));
        }
        while i < self.targets.len()
            invariant
                0 <= i <= self.targets@.len(),
                all == self@.targets,
                texts(r@) == dirs_of(all.take(i as int), Kind::NotProduction),
            decreases self.targets@.len() - i,
        {
            let t = &self.targets[i];
            let ghost before = r@;
            proof {
                assert(all[i as int] == t@);
                assert(all.take(i + 1).drop_last() =~= all.take(i as int));
                assert(all.take(i + 1).last() == t@);
            }
            if t.kind == Kind::NotProduction {
                if let Some(dir) = parent_of(t.src_path.as_str()) {
                    r.push(dir);
                    assert(texts(r@) =~= texts(before).push(dir@));
                }
            }
            i += 1;
        }
        assert(all.take(all.len() as int) =~= all);
        r
    }

    /// Whether cargo compiles a test, a benchmark or an example from the file.
    pub fn is_test_target(&self, path: &str) -> (r: bool)
        ensures
            r == test_target(self@.targets, path@),
    {
        let ghost all = self@.targets;
        let mut i: usize = 0;
        while i < self.targets.len()
            invariant
                0 <= i <= self.targets@.len(),
                all == self@.targets,
                forall|k: int|
                    0 <= k < i ==> !((#[trigger] all[k]).kind == Kind::NotProduction
                        && all[k].src_path == path@),
            decreases self.targets@.len() - i,
        {
            let t = &self.targets[i];
            assert(all[i as int] == t@);
            if t.kind == Kind::NotProduction && same(t.src_path.as_str(), path) {
                return true;
            }
            i += 1;
        }
        false
    }

    /// Whether the path lies with the file of a target that ships.
    pub fn is_among_shipped(&self, path: &str) -> (r: bool)
        ensures
            r == among_shipped(self@.targets, path@),
    {
        let ghost all = self@.targets;
        let mut i: usize = 0;
        while i < self.targets.len()
            invariant
                0 <= i <= self.targets@.len(),
                all == self@.targets,
                forall|k: int|
                    0 <= k < i ==> !(ships(#[trigger] all[k]) && (parent(
                        all[k].src_path,
                    ) matches Some(dir) && within(path@, dir))),
            decreases self.targets@.len() - i,
        {
            let t = &self.targets[i];
            assert(all[i as int] == t@);
            if t.kind == Kind::Bin || t.kind == Kind::Lib {
                if let Some(dir) = parent_of(t.src_path.as_str()) {
                    if is_within(path, dir.as_str()) {
                        assert(ships(all[i as int]));
                        return true;
                    }
                }
            }
            i += 1;
        }
        false
    }

    /// Whether cargo declares a binary.
    pub fn is_application(&self) -> (r: bool)
        ensures
            r == any_binary(self@.targets),
    {
        let ghost all = self@.targets;
        let mut i: usize = 0;
        while i < self.targets.len()
            invariant
                0 <= i <= self.targets@.len(),
                all == self@.targets,
                forall|k: int| 0 <= k < i ==> (#[trigger] all[k]).kind != Kind::Bin,
            decreases self.targets@.len() - i,
        {
            assert(all[i as int] == self.targets@[i as int]@);
            if self.targets[i].kind == Kind::Bin {
                return true;
            }
            i += 1;
        }
        false
    }

    /// The names of the binaries.
    pub fn binary_names(&self) -> (r: Vec<String>)
        ensures
            texts(r@) == self@.targets.filter(|t: TargetView| t.kind == Kind::Bin).map_values(
                |t: TargetView| t.name,
            ),
    {
        let ghost all = self@.targets;
        let ghost bin = |t: TargetView| t.kind == Kind::Bin;
        let ghost named = |t: TargetView| t.name;
        let mut r: Vec<String> = Vec::new();
        let mut i: usize = 0;
        proof {
            reveal(Seq::filter);
            assert(texts(r@) =~= all.take(0).filter(bin).map_values(named));
        }
        while i < self.targets.len()
            invariant
                0 <= i <= self.targets@.len(),
                all == self@.targets,
                bin == (|t: TargetView| t.kind == Kind::Bin),
                named == (|t: TargetView| t.name),
                texts(r@) == all.take(i as int).filter(bin).map_values(named),
            decreases self.targets@.len() - i,
        {
            let t = &self.targets[i];
            let ghost before = r@;
            proof {
                assert(all[i as int] == t@);
                crate::seqs::filter_step(all, bin, i as int);
            }
            if t.kind == Kind::Bin {
                proof {
                    crate::seqs::map_push(all.take(i as int).filter(bin), named, t@);
                }
                r.push(t.name.clone());
                assert(texts(r@) =~= texts(before).push(t@.name));
            }
            i += 1;
        }
        assert(all.take(all.len() as int) =~= all);
        r
    }
}

// ---------------------------------------------------------------------------
// What cargo answers
// ---------------------------------------------------------------------------

/// A target in cargo's answer.
#[verifier::ext_equal]
pub struct CargoTargetView {
    pub name: Seq<char>,
    pub kind: Seq<Seq<char>>,
    pub src_path: Seq<char>,
    pub canonical: Seq<char>,
}

#[derive(Debug)]
pub struct CargoTarget {
    pub name: String,
    pub kind: Vec<String>,
    pub src_path: String,
    /// The file with every link in its path resolved, or the path as it is
    /// where that cannot be done.
    pub canonical: String,
}

impl View for CargoTarget {
    type V = CargoTargetView;

    open spec fn view(&self) -> CargoTargetView {
        CargoTargetView {
            name: self.name@,
            kind: texts(self.kind@),
            src_path: self.src_path@,
            canonical: self.canonical@,
        }
    }
}

#[verifier::ext_equal]
pub struct PackageView {
    pub id: Seq<char>,
    pub name: Seq<char>,
    pub targets: Seq<CargoTargetView>,
}

#[derive(Debug)]
pub struct Package {
    pub id: String,
    pub name: String,
    pub targets: Vec<CargoTarget>,
}

impl View for Package {
    type V = PackageView;

    open spec fn view(&self) -> PackageView {
        PackageView { id: self.id@, name: self.name@, targets: views(self.targets@) }
    }
}

#[verifier::ext_equal]
pub struct MetadataView {
    pub packages: Seq<PackageView>,
    pub members: Seq<Seq<char>>,
}

/// What `cargo metadata` answers.
#[derive(Debug)]
pub struct Metadata {
    pub packages: Vec<Package>,
    pub workspace_members: Vec<String>,
}

impl View for Metadata {
    type V = MetadataView;

    open spec fn view(&self) -> MetadataView {
        MetadataView { packages: views(self.packages@), members: texts(self.workspace_members@) }
    }
}

pub open spec fn target_of(p: PackageView, t: CargoTargetView) -> TargetView {
    TargetView { name: t.name, kind: kind_of(t.kind), src_path: t.src_path, package: p.name }
}

/// The targets of the first `n` packages that are members of the workspace.
/// What lies outside is someone else's code.
pub open spec fn member_targets(m: MetadataView, n: int) -> Seq<TargetView>
    decreases n,
{
    if n <= 0 {
        seq![]
    } else {
        let p = m.packages[n - 1];
        member_targets(m, n - 1) + if m.members.contains(p.id) {
            p.targets.map_values(|t: CargoTargetView| target_of(p, t))
        } else {
            seq![]
        }
    }
}

/// Some target of a member lies in `dir`.
pub open spec fn describes(m: MetadataView, dir: Seq<char>) -> bool {
    exists|i: int, j: int|
        0 <= i < m.packages.len() && m.members.contains(m.packages[i].id) && 0 <= j
            < m.packages[i].targets.len() && within(
            (#[trigger] m.packages[i].targets[j]).canonical,
            dir,
        )
}

/// The directory in which cargo is asked of `path`: that above a `src`.
pub open spec fn asked_in(path: Seq<char>) -> Seq<char> {
    if file_name(path) == "src"@ && parent(path) is Some {
        parent(path)->Some_0
    } else {
        path
    }
}

/// The directory in which cargo is asked of `path`: that above a `src`.
pub fn home_of(path: &str) -> (r: String)
    ensures
        r@ == asked_in(path@),
{
    if same(file_name_of(path).as_str(), "src") {
        if let Some(dir) = parent_of(path) {
            return dir;
        }
    }
    path.to_owned()
}

/// The workspace at `dir`, of which cargo answered `metadata`. Cargo looks
/// for a manifest further up too, so the answer counts only where it speaks
/// of `dir`.
pub open spec fn discovered(dir: Seq<char>, metadata: Option<MetadataView>) -> WorkspaceView {
    match metadata {
        Some(m) => if describes(m, dir) {
            WorkspaceView {
                targets: member_targets(m, m.packages.len() as int),
                from_cargo: true,
            }
        } else {
            no_workspace()
        },
        None => no_workspace(),
    }
}

/// The model of an optional answer.
pub open spec fn answer(m: Option<&Metadata>) -> Option<MetadataView> {
    match m {
        Some(m) => Some(m@),
        None => None,
    }
}

fn add_targets(
    targets: &mut Vec<Target>,
    p: &Package,
    dir: &str,
) -> (here: bool)
    ensures
        views(final(targets)@) == views(old(targets)@) + p@.targets.map_values(
            |t: CargoTargetView| target_of(p@, t),
        ),
        here == exists|j: int|
            0 <= j < p@.targets.len() && within((#[trigger] p@.targets[j]).canonical, dir@),
{
    let ghost start = views(targets@);
    let ghost all = p@.targets;
    let ghost f = |t: CargoTargetView| target_of(p@, t);
    let mut here: bool = false;
    let mut j: usize = 0;
    proof {
        assert(start + all.take(0).map_values(f) =~= start);
    }
    while j < p.targets.len()
        invariant
            0 <= j <= p.targets@.len(),
            all == p@.targets,
            f == (|t: CargoTargetView| target_of(p@, t)),
            views(targets@) == start + all.take(j as int).map_values(f),
            here == exists|k: int|
                0 <= k < j && within((#[trigger] all[k]).canonical, dir@),
        decreases p.targets@.len() - j,
    {
        let t = &p.targets[j];
        let ghost before = targets@;
        let made = Target {
            name: t.name.clone(),
            kind: Kind::from_cargo(&t.kind),
            src_path: t.src_path.clone(),
            package: p.name.clone(),
        };
        proof {
            assert(all[j as int] == t@);
            assert(all.take(j + 1) =~= all.take(j as int).push(t@));
            crate::seqs::map_push(all.take(j as int), f, t@);
            crate::seqs::map_push(before, |x: Target| x@, made);
            assert(start + all.take(j as int).map_values(f).push(made@) =~= (start + all.take(
                j as int,
            ).map_values(f)).push(made@));
        }
        targets.push(made);
        if is_within(t.canonical.as_str(), dir) {
            here = true;
        }
        j += 1;
    }
    assert(all.take(all.len() as int) =~= all);
    here
}

/// The workspace at `dir`, of which cargo answered `metadata`. That cargo is
/// absent, or that there is no crate, is ordinary and no error.
pub fn discover(dir: &str, metadata: Option<&Metadata>) -> (r: Workspace)
    ensures
        r@ == discovered(dir@, answer(metadata)),
{
    let m = match metadata {
        Some(m) => m,
        None => {
            return Workspace::default();
        },
    };
    let ghost v = m@;
    let mut targets: Vec<Target> = Vec::new();
    let mut here: bool = false;
    let mut i: usize = 0;
    proof {
        assert(views(targets@) =~= member_targets(v, 0));
    }
    while i < m.packages.len()
        invariant
            0 <= i <= m.packages@.len(),
            v == m@,
            views(targets@) == member_targets(v, i as int),
            here == exists|k: int, j: int|
                0 <= k < i && v.members.contains(v.packages[k].id) && 0 <= j
                    < v.packages[k].targets.len() && within(
                    (#[trigger] v.packages[k].targets[j]).canonical,
                    dir@,
                ),
        decreases m.packages@.len() - i,
    {
        let p = &m.packages[i];
        let ghost before = here;
        assert(v.packages[i as int] == p@);
        if lists(&m.workspace_members, p.id.as_str()) {
            let found = add_targets(&mut targets, p, dir);
            proof {
                if found {
                    let j = choose|j: int|
                        0 <= j < p@.targets.len() && within(
                            (#[trigger] p@.targets[j]).canonical,
                            dir@,
                        );
                    assert(within(v.packages[i as int].targets[j].canonical, dir@));
                }
                if !found {
                    assert forall|j: int| 0 <= j < v.packages[i as int].targets.len() implies !within(
                        (#[trigger] v.packages[i as int].targets[j]).canonical,
                        dir@,
                    ) by {
                        assert(!within(p@.targets[j].canonical, dir@));
                    }
                }
            }
            here = here || found;
        } else {
            assert(member_targets(v, i as int) + Seq::<TargetView>::empty() =~= member_targets(
                v,
                i as int,
            ));
        }
        i += 1;
    }
    if !here {
        return Workspace::default();
    }
    Workspace { targets, from_cargo: true }
}

} // verus!
