//! What a project is, whatever its language: which files hold production
//! code, which hold tests, and where execution starts.

use vstd::prelude::*;

use crate::frontend::syntax::kid;
use crate::frontend::syntax::kid_of;
use crate::frontend::syntax::parse_nodes;
use crate::frontend::syntax::syntax;
use crate::frontend::syntax::Dialect;
use crate::frontend::syntax::NodeView;
use crate::frontend::syntax::SyntaxNode;
use crate::ir::opt;
use crate::ir::views;
use crate::lang::detect as detect_language;
use crate::lang::detected;
use crate::lang::name_of;
use crate::lang::owned;
use crate::lang::Language;
use crate::number::decimal;
use crate::number::decimal_of;
use crate::paths::file_name;
use crate::paths::file_name_of;
use crate::paths::is_within;
use crate::paths::join;
use crate::paths::parent;
use crate::paths::parent_of;
use crate::paths::paths_rise;
use crate::paths::sort_paths;
use crate::paths::stem;
use crate::paths::stem_of;
use crate::paths::under;
use crate::paths::within;
use crate::targets::among_shipped;
use crate::targets::any_binary;
use crate::targets::dirs_of;
use crate::targets::shipped_dirs;
use crate::targets::test_target;
use crate::targets::Kind;
use crate::targets::Workspace;
use crate::targets::WorkspaceView;
use crate::text::begins;
use crate::text::cat3;
use crate::text::chars_of;
use crate::text::contains;
use crate::text::cut;
use crate::text::cut_last;
use crate::text::ends;
use crate::text::ends_with;
use crate::text::lists;
use crate::text::literals;
use crate::text::no_prefixes;
use crate::text::present;
use crate::text::same;
use crate::text::split;
use crate::text::starts_with;
use crate::text::string_of;
use crate::text::texts;

verus! {

// ---------------------------------------------------------------------------
// The files of a directory
// ---------------------------------------------------------------------------

#[verifier::ext_equal]
pub struct EntryView {
    pub path: Seq<char>,
    pub text: Option<Seq<char>>,
}

/// A file in a directory.
#[derive(Debug)]
pub struct TreeFile {
    pub path: String,
    /// What it holds, where that can be read as text.
    pub text: Option<String>,
}

impl View for TreeFile {
    type V = EntryView;

    open spec fn view(&self) -> EntryView {
        EntryView { path: self.path@, text: opt(self.text) }
    }
}

#[verifier::ext_equal]
pub struct TreeView {
    pub root: Seq<char>,
    pub here: Seq<Seq<char>>,
    pub above: Seq<Seq<char>>,
    pub listing: Seq<Seq<char>>,
    pub files: Seq<EntryView>,
}

/// A directory as it was read.
#[derive(Debug)]
pub struct SourceTree {
    pub root: String,
    /// The names of the files in the directory itself.
    pub here: Vec<String>,
    /// The names of the files in the directory above.
    pub above: Vec<String>,
    /// The paths of the files down to some depth, by which the language is
    /// judged where no manifest tells it.
    pub listing: Vec<String>,
    /// The files, at any depth.
    pub files: Vec<TreeFile>,
}

impl View for SourceTree {
    type V = TreeView;

    open spec fn view(&self) -> TreeView {
        TreeView {
            root: self.root@,
            here: texts(self.here@),
            above: texts(self.above@),
            listing: texts(self.listing@),
            files: views(self.files@),
        }
    }
}

/// The file is there.
pub open spec fn has_file(t: TreeView, path: Seq<char>) -> bool {
    exists|i: int| 0 <= i < t.files.len() && (#[trigger] t.files[i]).path == path
}

/// Some file lies in the directory.
pub open spec fn has_dir(t: TreeView, dir: Seq<char>) -> bool {
    exists|i: int|
        0 <= i < t.files.len() && within((#[trigger] t.files[i]).path, dir) && t.files[i].path
            != dir
}

/// What the first file of this path among `files` holds.
pub open spec fn text_among(files: Seq<EntryView>, path: Seq<char>) -> Option<Seq<char>>
    decreases files.len(),
{
    if files.len() == 0 {
        None
    } else if files[0].path == path {
        files[0].text
    } else {
        text_among(files.skip(1), path)
    }
}

/// What the file holds, where it is there and can be read.
pub open spec fn text_at(t: TreeView, path: Seq<char>) -> Option<Seq<char>> {
    text_among(t.files, path)
}

impl SourceTree {
    pub fn is_file(&self, path: &str) -> (r: bool)
        ensures
            r == has_file(self@, path@),
    {
        let ghost t = self@;
        let mut i: usize = 0;
        while i < self.files.len()
            invariant
                0 <= i <= self.files@.len(),
                t == self@,
                forall|k: int| 0 <= k < i ==> (#[trigger] t.files[k]).path != path@,
            decreases self.files@.len() - i,
        {
            assert(t.files[i as int] == self.files@[i as int]@);
            if same(self.files[i].path.as_str(), path) {
                return true;
            }
            i += 1;
        }
        false
    }

    pub fn is_dir(&self, dir: &str) -> (r: bool)
        ensures
            r == has_dir(self@, dir@),
    {
        let ghost t = self@;
        let mut i: usize = 0;
        while i < self.files.len()
            invariant
                0 <= i <= self.files@.len(),
                t == self@,
                forall|k: int|
                    0 <= k < i ==> !(within((#[trigger] t.files[k]).path, dir@) && t.files[k].path
                        != dir@),
            decreases self.files@.len() - i,
        {
            assert(t.files[i as int] == self.files@[i as int]@);
            let p = self.files[i].path.as_str();
            if is_within(p, dir) && !same(p, dir) {
                return true;
            }
            i += 1;
        }
        false
    }

    pub fn read(&self, path: &str) -> (r: Option<&str>)
        ensures
            match r {
                Some(s) => text_at(self@, path@) == Some(s@),
                None => text_at(self@, path@) is None,
            },
    {
        let ghost all = self@.files;
        let mut i: usize = 0;
        proof {
            assert(all.skip(0) =~= all);
        }
        while i < self.files.len()
            invariant
                0 <= i <= self.files@.len(),
                all == self@.files,
                text_among(all, path@) == text_among(all.skip(i as int), path@),
            decreases self.files@.len() - i,
        {
            let f = &self.files[i];
            proof {
                assert(all.skip(i as int)[0] == f@);
                assert(all.skip(i as int).skip(1) =~= all.skip(i + 1));
            }
            if same(f.path.as_str(), path) {
                return match &f.text {
                    Some(s) => Some(s.as_str()),
                    None => None,
                };
            }
            i += 1;
        }
        None
    }
}

/// The segments that hold copies of code that a crate does not own.
pub open spec fn rust_skip_dirs() -> Seq<Seq<char>> {
    seq![
        "/target/"@,
        "/node_modules/"@,
        "/.git/"@,
        "/worktrees/"@,
        "/vendor/"@,
        "/.cargo/"@,
        "/build/"@,
        "/dist/"@,
        "/temp/"@,
        "/examples/"@,
    ]
}

/// The segments that hold copies of code that the project does not own: those,
/// and the environments and caches of Python.
pub open spec fn skip_dirs() -> Seq<Seq<char>> {
    rust_skip_dirs() + seq![
        "/.venv/"@,
        "/venv/"@,
        "/site-packages/"@,
        "/__pycache__/"@,
        "/.tox/"@,
        "/.mypy_cache/"@,
    ]
}

/// The segments that are passed over in a language.
pub open spec fn skip_dirs_in(lang: Language) -> Seq<Seq<char>> {
    match lang {
        Language::Rust => rust_skip_dirs(),
        _ => skip_dirs(),
    }
}

/// The path has one of the segments.
pub open spec fn holds_segment(path: Seq<char>, segments: Seq<Seq<char>>) -> bool {
    exists|i: int| 0 <= i < segments.len() && present(path + "/"@, #[trigger] segments[i])
}

/// The path lies where code is not the project's own, in a language.
pub open spec fn foreign(lang: Language, path: Seq<char>) -> bool {
    holds_segment(path, skip_dirs_in(lang))
}

fn has_segment(path: &str, segments: &[&'static str]) -> (r: bool)
    ensures
        r == holds_segment(path@, literals(segments@)),
{
    let mut s = path.to_owned();
    s.append("/");
    let c = chars_of(s.as_str());
    let ghost all = literals(segments@);
    let len: usize = segments.len();
    let mut i: usize = 0;
    while i < len
        invariant
            0 <= i <= len,
            len == segments@.len(),
            all == literals(segments@),
            c@ == path@ + "/"@,
            forall|k: int| 0 <= k < i ==> !present(path@ + "/"@, #[trigger] all[k]),
        decreases len - i,
    {
        assert(all[i as int] == segments@[i as int]@);
        if contains(&c, segments[i]) {
            assert(present(path@ + "/"@, all[i as int]));
            return true;
        }
        i += 1;
    }
    false
}

fn skipped_by_rust(path: &str) -> (r: bool)
    ensures
        r == holds_segment(path@, rust_skip_dirs()),
{
    let list: &[&'static str] = &[
        "/target/",
        "/node_modules/",
        "/.git/",
        "/worktrees/",
        "/vendor/",
        "/.cargo/",
        "/build/",
        "/dist/",
        "/temp/",
        "/examples/",
    ];
    assert(literals(list@) =~= rust_skip_dirs());
    has_segment(path, list)
}

/// Whether a path lies where code is not the project's own, in any language
/// but Rust.
pub fn skipped(path: &str) -> (r: bool)
    ensures
        r == holds_segment(path@, skip_dirs()),
{
    let list: &[&'static str] = &[
        "/.venv/",
        "/venv/",
        "/site-packages/",
        "/__pycache__/",
        "/.tox/",
        "/.mypy_cache/",
    ];
    proof {
        let first = rust_skip_dirs();
        let more = literals(list@);
        assert(first + more =~= skip_dirs());
        if holds_segment(path@, first) {
            let i = choose|i: int| 0 <= i < first.len() && present(path@ + "/"@, #[trigger] first[i]);
            assert(present(path@ + "/"@, skip_dirs()[i]));
        }
        if holds_segment(path@, more) {
            let i = choose|i: int| 0 <= i < more.len() && present(path@ + "/"@, #[trigger] more[i]);
            assert(skip_dirs()[first.len() + i] == more[i]);
            assert(present(path@ + "/"@, skip_dirs()[first.len() + i]));
        }
        if holds_segment(path@, skip_dirs()) {
            let i = choose|i: int|
                0 <= i < skip_dirs().len() && present(path@ + "/"@, #[trigger] skip_dirs()[i]);
            if i < first.len() {
                assert(present(path@ + "/"@, first[i]));
            } else {
                assert(present(path@ + "/"@, more[i - first.len()]));
            }
        }
    }
    skipped_by_rust(path) || has_segment(path, list)
}

/// Whether a path lies where code is not the project's own, in a language. A
/// crate may stand in a directory that holds an environment of Python.
pub fn skipped_in(lang: Language, path: &str) -> (r: bool)
    ensures
        r == foreign(lang, path@),
{
    match lang {
        Language::Rust => skipped_by_rust(path),
        _ => skipped(path),
    }
}

/// What lies below a directory that is not the project's own is not either.
pub proof fn foreign_below(lang: Language, dir: Seq<char>, rel: Seq<char>)
    requires
        foreign(lang, dir),
    ensures
        foreign(lang, dir + "/"@ + rel),
{
    let all = skip_dirs_in(lang);
    let i = choose|i: int| 0 <= i < all.len() && present(dir + "/"@, #[trigger] all[i]);
    let n = all[i];
    let k = choose|k: int| crate::text::occurs_at(dir + "/"@, n, k);
    let whole = dir + "/"@ + rel + "/"@;
    assert(whole.subrange(k, k + n.len()) =~= (dir + "/"@).subrange(k, k + n.len()));
    assert(crate::text::occurs_at(whole, n, k));
    assert(present(whole, all[i]));
}

// ---------------------------------------------------------------------------
// Files of a language, in order
// ---------------------------------------------------------------------------

/// The path lies in one of the directories.
pub open spec fn in_some(path: Seq<char>, dirs: Seq<Seq<char>>) -> bool {
    exists|k: int| 0 <= k < dirs.len() && within(path, #[trigger] dirs[k])
}

/// The path is one of the language in one of the directories, and the
/// project's own.
pub open spec fn readable_in(lang: Language, dirs: Seq<Seq<char>>, path: Seq<char>) -> bool {
    &&& owned(lang, path)
    &&& !foreign(lang, path)
    &&& in_some(path, dirs)
}

/// The tree has the file, and it is to be read.
pub open spec fn source_in(
    t: TreeView,
    lang: Language,
    dirs: Seq<Seq<char>>,
    path: Seq<char>,
) -> bool {
    has_file(t, path) && readable_in(lang, dirs, path)
}

fn any_within(path: &str, dirs: &Vec<String>) -> (r: bool)
    ensures
        r == in_some(path@, texts(dirs@)),
{
    let mut i: usize = 0;
    while i < dirs.len()
        invariant
            0 <= i <= dirs@.len(),
            forall|k: int| 0 <= k < i ==> !within(path@, #[trigger] texts(dirs@)[k]),
        decreases dirs@.len() - i,
    {
        if is_within(path, dirs[i].as_str()) {
            assert(within(path@, texts(dirs@)[i as int]));
            return true;
        }
        i += 1;
    }
    false
}

fn is_readable(lang: Language, dirs: &Vec<String>, path: &str) -> (r: bool)
    ensures
        r == readable_in(lang, texts(dirs@), path@),
{
    lang.owns(path) && !skipped_in(lang, path) && any_within(path, dirs)
}

/// The files of a language in the directories, in order.
fn walk(tree: &SourceTree, lang: Language, dirs: &Vec<String>) -> (r: Vec<String>)
    ensures
        paths_rise(texts(r@)),
        forall|p: Seq<char>| #[trigger]
            texts(r@).contains(p) == source_in(tree@, lang, texts(dirs@), p),
{
    let ghost t = tree@;
    let mut found: Vec<String> = Vec::new();
    let mut i: usize = 0;
    while i < tree.files.len()
        invariant
            0 <= i <= tree.files@.len(),
            t == tree@,
            forall|p: Seq<char>| #[trigger]
                texts(found@).contains(p) == (readable_in(lang, texts(dirs@), p) && exists|k: int|
                    0 <= k < i && (#[trigger] t.files[k]).path == p),
        decreases tree.files@.len() - i,
    {
        let f = &tree.files[i];
        let ghost before = texts(found@);
        assert(t.files[i as int] == f@);
        let take = is_readable(lang, dirs, f.path.as_str());
        if take {
            found.push(f.path.clone());
            assert(texts(found@) =~= before.push(f@.path));
        }
        proof {
            assert forall|p: Seq<char>| #[trigger]
                texts(found@).contains(p) == (readable_in(lang, texts(dirs@), p) && exists|k: int|
                    0 <= k < i + 1 && (#[trigger] t.files[k]).path == p) by {
                crate::seqs::pushed_members(before, f@.path, p);
                assert(before.contains(p) == (readable_in(lang, texts(dirs@), p) && exists|k: int|
                    0 <= k < i && (#[trigger] t.files[k]).path == p));
                if before.contains(p) {
                    let k = choose|k: int| 0 <= k < i && (#[trigger] t.files[k]).path == p;
                    assert(t.files[k].path == p);
                }
                if p == f@.path {
                    assert(t.files[i as int].path == p);
                }
            }
        }
        i += 1;
    }
    let ghost all = texts(found@);
    let r = sort_paths(found);
    proof {
        assert forall|p: Seq<char>| #[trigger]
            texts(r@).contains(p) == source_in(t, lang, texts(dirs@), p) by {
            assert(texts(r@).to_set().contains(p) == all.to_set().contains(p));
            assert(all.contains(p) == (readable_in(lang, texts(dirs@), p) && exists|k: int|
                0 <= k < t.files.len() && (#[trigger] t.files[k]).path == p));
        }
    }
    r
}

// ---------------------------------------------------------------------------
// Manifests in JSON
// ---------------------------------------------------------------------------

/// The string under a key of the object that `serde_json` reads out of a text,
/// where it is one.
pub uninterp spec fn json_string(text: Seq<char>, key: Seq<char>) -> Option<Seq<char>>;

/// The keys of the object under a key of the object that `serde_json` reads
/// out of a text; none where there is no such object.
pub uninterp spec fn json_keys(text: Seq<char>, key: Seq<char>) -> Seq<Seq<char>>;

/// Calls `serde_json::from_str`, `Value::get` and `Value::as_str`: what they
/// give is a function of the text and the key.
#[verifier::external_body]
fn string_field(text: &str, key: &str) -> (r: Option<String>)
    ensures
        opt(r) == json_string(text@, key@),
{
    let value: serde_json::Value = serde_json::from_str(text).ok()?;
    value.get(key)?.as_str().map(str::to_string)
}

/// Calls `serde_json::from_str`, `Value::get`, `Value::as_object` and
/// `Map::keys`: what they give is a function of the text and the key.
#[verifier::external_body]
fn field_keys(text: &str, key: &str) -> (r: Vec<String>)
    ensures
        texts(r@) == json_keys(text@, key@),
{
    let value: serde_json::Value = serde_json::from_str(text).unwrap_or_default();
    match value.get(key).and_then(serde_json::Value::as_object) {
        Some(object) => object.keys().cloned().collect(),
        None => Vec::new(),
    }
}

/// Some host other than the runtime itself is named as an engine: it loads
/// the package and calls into it.
pub open spec fn names_a_host(engines: Seq<Seq<char>>) -> bool {
    exists|i: int| 0 <= i < engines.len() && #[trigger] engines[i] != "node"@
}

/// Whether some host other than the runtime itself is named as an engine.
pub fn has_host(engines: &Vec<String>) -> (r: bool)
    ensures
        r == names_a_host(texts(engines@)),
{
    let mut i: usize = 0;
    while i < engines.len()
        invariant
            0 <= i <= engines@.len(),
            forall|k: int| 0 <= k < i ==> #[trigger] texts(engines@)[k] == "node"@,
        decreases engines@.len() - i,
    {
        if !same(engines[i].as_str(), "node") {
            assert(texts(engines@)[i as int] != "node"@);
            return true;
        }
        i += 1;
    }
    false
}

/// The stem of a source that a declared build output may come from, its build
/// directory left out.
pub open spec fn source_stems(decl: Seq<char>) -> (Seq<char>, Seq<char>) {
    let rel = no_prefixes(decl, "./"@);
    let whole = match cut_last(rel, "."@) {
        Some((a, _)) => a,
        None => rel,
    };
    let tail = match cut(whole, "/"@) {
        Some((head, rest)) => if head == "out"@ || head == "dist"@ || head == "build"@ || head
            == "lib"@ {
            rest
        } else {
            whole
        },
        None => whole,
    };
    (tail, whole)
}

/// The files that a stem may stand for, under `root`.
pub open spec fn stem_files(root: Seq<char>, stem: Seq<char>) -> Seq<Seq<char>> {
    seq![
        under(under(root, "src"@), stem + ".ts"@),
        under(under(root, "src"@), stem + ".tsx"@),
        under(root, stem + ".ts"@),
        under(root, stem + ".tsx"@),
    ]
}

/// The files that a declared build output may come from, most likely first.
pub open spec fn entry_candidates(root: Seq<char>, decl: Seq<char>) -> Seq<Seq<char>> {
    stem_files(root, source_stems(decl).0) + stem_files(root, source_stems(decl).1)
}

/// `out` with those of `candidates` that are there, each once.
pub open spec fn with_entries(
    t: TreeView,
    out: Seq<Seq<char>>,
    candidates: Seq<Seq<char>>,
) -> Seq<Seq<char>>
    decreases candidates.len(),
{
    if candidates.len() == 0 {
        out
    } else {
        let before = with_entries(t, out, candidates.drop_last());
        let p = candidates.last();
        if has_file(t, p) && !before.contains(p) {
            before.push(p)
        } else {
            before
        }
    }
}

/// `out` with the sources of a declared output, where one is declared.
pub open spec fn with_declared(
    t: TreeView,
    out: Seq<Seq<char>>,
    decl: Option<Seq<char>>,
) -> Seq<Seq<char>> {
    match decl {
        Some(d) => with_entries(t, out, entry_candidates(t.root, d)),
        None => out,
    }
}

fn stems_of(decl: &str) -> (r: (String, String))
    ensures
        (r.0@, r.1@) == source_stems(decl@),
{
    let c = chars_of(decl);
    let rel = crate::text::drop_prefixes(&c, "./");
    let whole = match crate::text::cut_last_once(rel, ".") {
        Some((a, _)) => a,
        None => rel,
    };
    let tail = match crate::text::cut_once(whole, "/") {
        Some((head, rest)) => {
            let head = string_of(head);
            let h = head.as_str();
            if same(h, "out") || same(h, "dist") || same(h, "build") || same(h, "lib") {
                rest
            } else {
                whole
            }
        },
        None => whole,
    };
    (string_of(tail), string_of(whole))
}

fn add_entry(tree: &SourceTree, out: &mut Vec<String>, path: String)
    ensures
        texts(final(out)@) == (if has_file(tree@, path@) && !texts(old(out)@).contains(path@) {
            texts(old(out)@).push(path@)
        } else {
            texts(old(out)@)
        }),
{
    if tree.is_file(path.as_str()) && !lists(out, path.as_str()) {
        let ghost before = texts(out@);
        out.push(path);
        assert(texts(out@) =~= before.push(path@));
    }
}

fn add_stem(tree: &SourceTree, out: &mut Vec<String>, stem: &str)
    ensures
        texts(final(out)@) == with_entries(
            tree@,
            texts(old(out)@),
            stem_files(tree@.root, stem@),
        ),
{
    let src = join(tree.root.as_str(), "src");
    let mut ts = stem.to_owned();
    ts.append(".ts");
    let mut tsx = stem.to_owned();
    tsx.append(".tsx");
    let ghost all = stem_files(tree@.root, stem@);
    let ghost start = texts(out@);
    proof {
        reveal_with_fuel(with_entries, 5);
        assert(all.drop_last() =~= all.take(3));
        assert(all.take(3).drop_last() =~= all.take(2));
        assert(all.take(2).drop_last() =~= all.take(1));
        assert(all.take(1).drop_last() =~= Seq::<Seq<char>>::empty());
    }
    add_entry(tree, out, join(src.as_str(), ts.as_str()));
    add_entry(tree, out, join(src.as_str(), tsx.as_str()));
    add_entry(tree, out, join(tree.root.as_str(), ts.as_str()));
    add_entry(tree, out, join(tree.root.as_str(), tsx.as_str()));
}

proof fn entries_in_two(
    t: TreeView,
    out: Seq<Seq<char>>,
    a: Seq<Seq<char>>,
    b: Seq<Seq<char>>,
)
    ensures
        with_entries(t, out, a + b) == with_entries(t, with_entries(t, out, a), b),
    decreases b.len(),
{
    if b.len() == 0 {
        assert(a + b =~= a);
    } else {
        assert((a + b).drop_last() =~= a + b.drop_last());
        assert((a + b).last() == b.last());
        entries_in_two(t, out, a, b.drop_last());
    }
}

/// Adds the sources of a declared output.
pub fn add_declared(tree: &SourceTree, out: &mut Vec<String>, decl: &Option<String>)
    ensures
        texts(final(out)@) == with_declared(tree@, texts(old(out)@), opt(*decl)),
{
    if let Some(d) = decl {
        let (tail, whole) = stems_of(d.as_str());
        proof {
            entries_in_two(
                tree@,
                texts(out@),
                stem_files(tree@.root, tail@),
                stem_files(tree@.root, whole@),
            );
        }
        add_stem(tree, out, tail.as_str());
        add_stem(tree, out, whole.as_str());
    }
}

// ---------------------------------------------------------------------------
// Projects
// ---------------------------------------------------------------------------

/// What reachability asks of a project.
pub trait Project {
    spec fn in_language(&self) -> Language;

    spec fn reads(&self, path: Seq<char>) -> bool;

    spec fn tests_at(&self, path: Seq<char>) -> bool;

    spec fn runs_alone(&self) -> bool;

    spec fn entries(&self) -> Seq<Seq<char>>;

    spec fn loaded(&self) -> Seq<Seq<char>>;

    spec fn described(&self) -> Seq<char>;

    fn language(&self) -> (r: Language)
        ensures
            r == self.in_language(),
    ;

    /// Every file to read, production and test alike, in order. A call from a
    /// test is what makes a finding more than unreferenced code.
    fn source_files(&self) -> (r: Vec<String>)
        ensures
            paths_rise(texts(r@)),
            forall|p: Seq<char>| #[trigger] texts(r@).contains(p) == self.reads(p),
    ;

    /// Whether the file is wholly test code.
    fn is_test_file(&self, path: &str) -> (r: bool)
        ensures
            r == self.tests_at(path@),
    ;

    /// Whether something here runs on its own. The library surface of an
    /// application is no entry point; that of a library is all it has.
    fn is_application(&self) -> (r: bool)
        ensures
            r == self.runs_alone(),
    ;

    /// Names that are reachable whoever calls them.
    fn entry_points(&self) -> (r: Vec<String>)
        ensures
            texts(r@) == self.entries(),
    ;

    /// Files that a host loads and calls into: what they export is a root.
    fn entry_files(&self) -> (r: Vec<String>)
        ensures
            texts(r@) == self.loaded(),
    ;

    /// How those answers were reached.
    fn describe(&self) -> (r: String)
        ensures
            r@ == self.described(),
    ;
}

/// A project known by its manifests and its layout.
pub struct ConventionProject<'a> {
    pub tree: &'a SourceTree,
    pub lang: Language,
}

/// The path lies in a directory for tests.
pub open spec fn in_test_dir(path: Seq<char>) -> bool {
    present(path, "/tests/"@) || present(path, "/test/"@) || present(path, "/__tests__/"@)
        || present(path, "/spec/"@)
}

/// The file is wholly test code, by the convention of the language. A Go file
/// that imports the package for tests works only in a test binary, whatever
/// its name.
pub open spec fn test_by_convention(
    lang: Language,
    path: Seq<char>,
    text: Option<Seq<char>>,
) -> bool {
    let s = stem(path);
    match lang {
        Language::Python => in_test_dir(path) || begins(s, "test_"@) || ends(s, "_test"@),
        Language::TypeScript => in_test_dir(path) || ends(s, ".test"@) || ends(s, ".spec"@)
            || ends(s, "_test"@),
        Language::Go => ends(s, "_test"@) || (text matches Some(t) && imports_testing(t)),
        Language::Rust => in_test_dir(path) || s == "tests"@ || s == "test"@ || ends(s, "_test"@),
    }
}

/// The `i`th node of a Go file imports the package, in a string of either
/// kind.
pub open spec fn import_at(nodes: Seq<NodeView>, i: int, package: Seq<char>) -> bool {
    nodes[i].kind == "import_spec"@ && (kid(nodes, i, "path"@) matches Some(k) && (nodes[k].text
        == "\""@ + package + "\""@ || nodes[k].text == "`"@ + package + "`"@))
}

/// A Go file imports the package.
pub open spec fn imports(nodes: Seq<NodeView>, package: Seq<char>) -> bool {
    exists|i: int| 0 <= i < nodes.len() && #[trigger] import_at(nodes, i, package)
}

/// The text of a Go file names the package for tests among its imports.
pub open spec fn imports_testing(text: Seq<char>) -> bool {
    syntax(text, Dialect::Go) matches Some(nodes) && imports(nodes, "testing"@)
}

/// Whether the syntax of a Go file imports the package.
pub fn imports_package(nodes: &Vec<SyntaxNode>, package: &str) -> (r: bool)
    ensures
        r == imports(views(nodes@), package@),
{
    let ghost v = views(nodes@);
    let quoted = cat3("\"", package, "\"");
    let raw = cat3("`", package, "`");
    let mut i: usize = 0;
    while i < nodes.len()
        invariant
            0 <= i <= nodes@.len(),
            v == views(nodes@),
            quoted@ == "\""@ + package@ + "\""@,
            raw@ == "`"@ + package@ + "`"@,
            forall|k: int| 0 <= k < i ==> !#[trigger] import_at(v, k, package@),
        decreases nodes@.len() - i,
    {
        assert(v[i as int] == nodes@[i as int]@);
        if same(nodes[i].kind.as_str(), "import_spec") {
            if let Some(k) = kid_of(nodes, i, "path") {
                assert(v[k as int] == nodes@[k as int]@);
                let text = nodes[k].text.as_str();
                if same(text, quoted.as_str()) || same(text, raw.as_str()) {
                    assert(import_at(v, i as int, package@));
                    return true;
                }
            }
        }
        i += 1;
    }
    false
}

fn reads_testing(text: &str) -> (r: bool)
    ensures
        r == imports_testing(text@),
{
    match parse_nodes(text, Dialect::Go) {
        Some(nodes) => imports_package(&nodes, "testing"),
        None => false,
    }
}

fn lies_in_test_dir(path: &[char]) -> (r: bool)
    ensures
        r == in_test_dir(path@),
{
    contains(path, "/tests/") || contains(path, "/test/") || contains(path, "/__tests__/")
        || contains(path, "/spec/")
}

fn is_test_by_convention(lang: Language, path: &str, text: Option<&str>) -> (r: bool)
    ensures
        r == test_by_convention(
            lang,
            path@,
            match text {
                Some(t) => Some(t@),
                None => None,
            },
        ),
{
    let p = chars_of(path);
    let name = stem_of(path);
    let s = chars_of(name.as_str());
    match lang {
        Language::Python => lies_in_test_dir(&p) || starts_with(&s, "test_") || ends_with(
            &s,
            "_test",
        ),
        Language::TypeScript => lies_in_test_dir(&p) || ends_with(&s, ".test") || ends_with(
            &s,
            ".spec",
        ) || ends_with(&s, "_test"),
        Language::Go => {
            if ends_with(&s, "_test") {
                return true;
            }
            match text {
                Some(t) => reads_testing(t),
                None => false,
            }
        },
        Language::Rust => lies_in_test_dir(&p) || same(name.as_str(), "tests") || same(
            name.as_str(),
            "test",
        ) || ends_with(&s, "_test"),
    }
}

/// Some file of the project, which `keep` admits by its path and text, is
/// read.
pub open spec fn some_source(
    t: TreeView,
    lang: Language,
    keep: spec_fn(Seq<char>, Option<Seq<char>>) -> bool,
) -> bool {
    exists|i: int|
        0 <= i < t.files.len() && readable_in(lang, seq![t.root], (#[trigger] t.files[i]).path)
            && keep(t.files[i].path, t.files[i].text)
}

/// A Go file of package `main`, no test.
pub open spec fn go_main(path: Seq<char>, text: Option<Seq<char>>) -> bool {
    !test_by_convention(Language::Go, path, text) && (text matches Some(t) && present(
        t,
        "package main"@,
    ))
}

/// A Python file that runs on its own: by its name, or by the guard in it.
pub open spec fn python_main(path: Seq<char>, text: Option<Seq<char>>) -> bool {
    file_name(path) == "__main__.py"@ || (text matches Some(t) && present(t, "__main__"@))
}

/// What a manifest at the root holds, or nothing.
pub open spec fn manifest_text(t: TreeView, name: Seq<char>) -> Seq<char> {
    match text_at(t, under(t.root, name)) {
        Some(s) => s,
        None => ""@,
    }
}

/// Something in the project runs on its own, by the convention of the
/// language. A packaged distribution is a library even where it ships a
/// command, and neither a version of the runtime nor `private` makes a
/// package an application.
pub open spec fn runs_by_convention(t: TreeView, lang: Language) -> bool {
    match lang {
        Language::Go => some_source(t, lang, |p: Seq<char>, x: Option<Seq<char>>| go_main(p, x)),
        Language::Python => {
            let m = manifest_text(t, "pyproject.toml"@);
            !present(m, "[project]"@) && (present(m, "[project.scripts]"@) || present(
                m,
                "console_scripts"@,
            ) || some_source(t, lang, |p: Seq<char>, x: Option<Seq<char>>| python_main(p, x)))
        },
        Language::TypeScript => {
            let m = manifest_text(t, "package.json"@);
            present(m, "\"bin\""@) || has_file(t, under(t.root, "index.html"@)) || names_a_host(
                json_keys(m, "engines"@),
            )
        },
        Language::Rust => has_file(t, under(t.root, "src/main.rs"@)),
    }
}

/// The files that a host loads.
pub open spec fn loaded_by_convention(t: TreeView, lang: Language) -> Seq<Seq<char>> {
    if lang != Language::TypeScript || !runs_by_convention(t, lang) {
        seq![]
    } else {
        let m = manifest_text(t, "package.json"@);
        with_declared(
            t,
            with_declared(t, seq![], json_string(m, "main"@)),
            json_string(m, "module"@),
        )
    }
}

/// Names that a language enters by.
pub open spec fn conventional_entries(lang: Language) -> Seq<Seq<char>> {
    if lang == Language::Go {
        seq!["main"@, "init"@]
    } else {
        seq!["main"@]
    }
}

pub open spec fn app_or_lib(application: bool) -> Seq<char> {
    if application {
        "application"@
    } else {
        "library"@
    }
}

impl<'a> ConventionProject<'a> {
    pub fn new(tree: &'a SourceTree, lang: Language) -> (r: Self)
        ensures
            r.tree == tree,
            r.lang == lang,
    {
        ConventionProject { tree, lang }
    }

    fn manifest(&self, name: &str) -> (r: String)
        ensures
            r@ == manifest_text(self.tree@, name@),
    {
        match self.tree.read(join(self.tree.root.as_str(), name).as_str()) {
            Some(s) => s.to_owned(),
            None => "".to_owned(),
        }
    }

    fn any_go_main(&self) -> (r: bool)
        ensures
            r == some_source(
                self.tree@,
                Language::Go,
                |p: Seq<char>, x: Option<Seq<char>>| go_main(p, x),
            ),
    {
        let ghost t = self.tree@;
        let roots: Vec<String> = vec![self.tree.root.clone()];
        assert(texts(roots@) =~= seq![t.root]);
        let files = &self.tree.files;
        let mut i: usize = 0;
        while i < files.len()
            invariant
                0 <= i <= files@.len(),
                t == self.tree@,
                t.files == views(files@),
                texts(roots@) == seq![t.root],
                forall|k: int|
                    0 <= k < i ==> !(readable_in(
                        Language::Go,
                        seq![t.root],
                        (#[trigger] t.files[k]).path,
                    ) && go_main(t.files[k].path, t.files[k].text)),
            decreases files@.len() - i,
        {
            let f = &files[i];
            assert(t.files[i as int] == f@);
            if is_readable(Language::Go, &roots, f.path.as_str()) {
                if let Some(text) = &f.text {
                    let c = chars_of(text.as_str());
                    if !is_test_by_convention(
                        Language::Go,
                        f.path.as_str(),
                        Some(text.as_str()),
                    ) && contains(&c, "package main") {
                        assert(go_main(t.files[i as int].path, t.files[i as int].text));
                        return true;
                    }
                }
            }
            i += 1;
        }
        false
    }

    fn any_python_main(&self) -> (r: bool)
        ensures
            r == some_source(
                self.tree@,
                Language::Python,
                |p: Seq<char>, x: Option<Seq<char>>| python_main(p, x),
            ),
    {
        let ghost t = self.tree@;
        let roots: Vec<String> = vec![self.tree.root.clone()];
        assert(texts(roots@) =~= seq![t.root]);
        let files = &self.tree.files;
        let mut i: usize = 0;
        while i < files.len()
            invariant
                0 <= i <= files@.len(),
                t == self.tree@,
                t.files == views(files@),
                texts(roots@) == seq![t.root],
                forall|k: int|
                    0 <= k < i ==> !(readable_in(
                        Language::Python,
                        seq![t.root],
                        (#[trigger] t.files[k]).path,
                    ) && python_main(t.files[k].path, t.files[k].text)),
            decreases files@.len() - i,
        {
            let f = &files[i];
            assert(t.files[i as int] == f@);
            if is_readable(Language::Python, &roots, f.path.as_str()) {
                let guarded = match &f.text {
                    Some(text) => {
                        let c = chars_of(text.as_str());
                        contains(&c, "__main__")
                    },
                    None => false,
                };
                if guarded || same(file_name_of(f.path.as_str()).as_str(), "__main__.py") {
                    assert(python_main(t.files[i as int].path, t.files[i as int].text));
                    return true;
                }
            }
            i += 1;
        }
        false
    }
}

impl<'a> Project for ConventionProject<'a> {
    open spec fn in_language(&self) -> Language {
        self.lang
    }

    open spec fn reads(&self, path: Seq<char>) -> bool {
        source_in(self.tree@, self.lang, seq![self.tree@.root], path)
    }

    open spec fn tests_at(&self, path: Seq<char>) -> bool {
        test_by_convention(self.lang, path, text_at(self.tree@, path))
    }

    open spec fn runs_alone(&self) -> bool {
        runs_by_convention(self.tree@, self.lang)
    }

    open spec fn entries(&self) -> Seq<Seq<char>> {
        conventional_entries(self.lang)
    }

    open spec fn loaded(&self) -> Seq<Seq<char>> {
        loaded_by_convention(self.tree@, self.lang)
    }

    open spec fn described(&self) -> Seq<char> {
        name_of(self.lang) + ", by convention; "@ + app_or_lib(self.runs_alone())
    }

    fn language(&self) -> (r: Language) {
        self.lang
    }

    fn source_files(&self) -> (r: Vec<String>) {
        let roots: Vec<String> = vec![self.tree.root.clone()];
        assert(texts(roots@) =~= seq![self.tree@.root]);
        walk(self.tree, self.lang, &roots)
    }

    fn is_test_file(&self, path: &str) -> (r: bool) {
        is_test_by_convention(self.lang, path, self.tree.read(path))
    }

    fn is_application(&self) -> (r: bool) {
        match self.lang {
            Language::Go => self.any_go_main(),
            Language::Python => {
                let m = self.manifest("pyproject.toml");
                let c = chars_of(m.as_str());
                !contains(&c, "[project]") && (contains(&c, "[project.scripts]") || contains(
                    &c,
                    "console_scripts",
                ) || self.any_python_main())
            },
            Language::TypeScript => {
                let m = self.manifest("package.json");
                let c = chars_of(m.as_str());
                contains(&c, "\"bin\"") || self.tree.is_file(
                    join(self.tree.root.as_str(), "index.html").as_str(),
                ) || has_host(&field_keys(m.as_str(), "engines"))
            },
            Language::Rust => self.tree.is_file(
                join(self.tree.root.as_str(), "src/main.rs").as_str(),
            ),
        }
    }

    fn entry_points(&self) -> (r: Vec<String>) {
        let r: Vec<String> = if self.lang == Language::Go {
            vec!["main".to_owned(), "init".to_owned()]
        } else {
            vec!["main".to_owned()]
        };
        assert(texts(r@) =~= conventional_entries(self.lang));
        r
    }

    fn entry_files(&self) -> (r: Vec<String>) {
        let mut out: Vec<String> = Vec::new();
        assert(texts(out@) =~= seq![]);
        if self.lang != Language::TypeScript || !self.is_application() {
            return out;
        }
        let m = self.manifest("package.json");
        add_declared(self.tree, &mut out, &string_field(m.as_str(), "main"));
        add_declared(self.tree, &mut out, &string_field(m.as_str(), "module"));
        out
    }

    fn describe(&self) -> (r: String) {
        let mut out = self.lang.name().to_owned();
        out.append(", by convention; ");
        if self.is_application() {
            out.append("application");
        } else {
            out.append("library");
        }
        out
    }
}

// ---------------------------------------------------------------------------
// Rust, by what cargo says
// ---------------------------------------------------------------------------

/// A manifest near the root, with sources beside it.
pub open spec fn crate_manifest(t: TreeView, path: Seq<char>) -> bool {
    &&& file_name(path) == "Cargo.toml"@
    &&& !foreign(Language::Rust, path)
    &&& crate::source::path_from(path, t.root) matches Some(rel) && split(rel, "/"@).len() <= 4
    &&& parent(path) matches Some(dir) && has_dir(t, under(dir, "src"@))
}

/// The directory of the sources beside a manifest.
pub open spec fn source_dir(path: Seq<char>) -> Seq<char> {
    match parent(path) {
        Some(dir) => under(dir, "src"@),
        None => path,
    }
}

/// The directories of sources that manifests near the root show.
pub open spec fn crate_dirs(t: TreeView) -> Seq<Seq<char>> {
    t.files.filter(|f: EntryView| crate_manifest(t, f.path)).map_values(
        |f: EntryView| source_dir(f.path),
    )
}

/// The directories to read where cargo does not say: those that manifests
/// show, or the root of a loose directory.
pub open spec fn conventional_roots(t: TreeView) -> Seq<Seq<char>> {
    if crate_dirs(t).len() == 0 {
        seq![t.root]
    } else {
        crate_dirs(t)
    }
}

fn is_crate_manifest(tree: &SourceTree, path: &str) -> (r: bool)
    ensures
        r == crate_manifest(tree@, path@),
{
    if !same(file_name_of(path).as_str(), "Cargo.toml") || skipped_by_rust(path) {
        return false;
    }
    let near = match crate::source::relative_path(path, tree.root.as_str()) {
        Some(rel) => {
            let c = chars_of(rel.as_str());
            proof {
                reveal_strlit("/");
            }
            let parts = crate::text::split_all(&c, "/");
            assert(crate::text::pieces(parts@).len() == parts@.len());
            parts.len() <= 4
        },
        None => false,
    };
    if !near {
        return false;
    }
    match parent_of(path) {
        Some(dir) => tree.is_dir(join(dir.as_str(), "src").as_str()),
        None => false,
    }
}

fn roots_by_convention(tree: &SourceTree) -> (r: Vec<String>)
    ensures
        texts(r@) == conventional_roots(tree@),
{
    let ghost t = tree@;
    let ghost keep = |f: EntryView| crate_manifest(t, f.path);
    let ghost told = |f: EntryView| source_dir(f.path);
    let mut r: Vec<String> = Vec::new();
    let mut i: usize = 0;
    proof {
        reveal(Seq::filter);
        assert(texts(r@) =~= t.files.take(0).filter(keep).map_values(told));
    }
    while i < tree.files.len()
        invariant
            0 <= i <= tree.files@.len(),
            t == tree@,
            keep == (|f: EntryView| crate_manifest(t, f.path)),
            told == (|f: EntryView| source_dir(f.path)),
            texts(r@) == t.files.take(i as int).filter(keep).map_values(told),
        decreases tree.files@.len() - i,
    {
        let f = &tree.files[i];
        let ghost before = texts(r@);
        proof {
            assert(t.files[i as int] == f@);
            crate::seqs::filter_step(t.files, keep, i as int);
        }
        if is_crate_manifest(tree, f.path.as_str()) {
            let dir = match parent_of(f.path.as_str()) {
                Some(dir) => join(dir.as_str(), "src"),
                None => f.path.clone(),
            };
            proof {
                crate::seqs::map_push(t.files.take(i as int).filter(keep), told, f@);
            }
            r.push(dir);
            assert(texts(r@) =~= before.push(source_dir(f@.path)));
        }
        i += 1;
    }
    proof {
        assert(t.files.take(t.files.len() as int) =~= t.files);
        assert(texts(r@).len() == r@.len());
    }
    if r.len() == 0 {
        r.push(tree.root.clone());
        assert(texts(r@) =~= seq![t.root]);
    }
    r
}

/// The directories to read for production code: those of the targets that
/// cargo knows, or those that the layout shows.
pub open spec fn production_dirs(t: TreeView, w: WorkspaceView) -> Seq<Seq<char>> {
    if w.from_cargo && shipped_dirs(w.targets).len() > 0 {
        shipped_dirs(w.targets)
    } else {
        conventional_roots(t)
    }
}

/// The directories to read for production code: those of the targets that
/// cargo knows, or those that the layout shows.
pub fn resolve_roots(tree: &SourceTree, ws: &Workspace) -> (r: Vec<String>)
    ensures
        texts(r@) == production_dirs(tree@, ws@),
        r@.len() > 0,
{
    if ws.from_cargo {
        let dirs = ws.production_source_dirs();
        assert(texts(dirs@).len() == dirs@.len());
        if dirs.len() > 0 {
            return dirs;
        }
    }
    let r = roots_by_convention(tree);
    assert(texts(r@).len() == r@.len());
    r
}

/// A project of which cargo was asked.
pub struct CargoProject<'a> {
    pub tree: &'a SourceTree,
    pub workspace: Workspace,
}

/// The file is wholly test code, by the convention of Rust.
pub open spec fn rust_test_path(path: Seq<char>) -> bool {
    present(path, "/tests/"@) || ends(path, "/tests.rs"@) || ends(path, "/test.rs"@) || ends(
        path,
        "_test.rs"@,
    ) || ends(path, "_tests.rs"@)
}

/// The file is test code by what cargo says: a test, a benchmark or an example
/// is compiled from it, or it lies with the file of one and in no directory of
/// production code.
pub open spec fn among_tests(w: WorkspaceView, path: Seq<char>) -> bool {
    w.from_cargo && (test_target(w.targets, path) || (in_some(
        path,
        dirs_of(w.targets, Kind::NotProduction),
    ) && !among_shipped(w.targets, path)))
}

impl<'a> CargoProject<'a> {
    pub fn new(tree: &'a SourceTree, workspace: Workspace) -> (r: Self)
        ensures
            r.tree == tree,
            r.workspace == workspace,
    {
        CargoProject { tree, workspace }
    }

    pub fn workspace(&self) -> (r: &Workspace)
        ensures
            *r == self.workspace,
    {
        &self.workspace
    }

    /// The directories that are read: those of production code, then those of
    /// tests that cargo knows.
    pub fn source_dirs(&self) -> (r: Vec<String>)
        ensures
            texts(r@) == read_dirs(self.tree@, self.workspace@),
    {
        let mut r = resolve_roots(self.tree, &self.workspace);
        let ghost prod = texts(r@);
        if self.workspace.from_cargo {
            let tests = self.workspace.non_production_roots();
            let ghost list = texts(tests@);
            let mut i: usize = 0;
            proof {
                assert(prod + list.take(0) =~= prod);
            }
            while i < tests.len()
                invariant
                    0 <= i <= tests@.len(),
                    list == texts(tests@),
                    texts(r@) == prod + list.take(i as int),
                decreases tests@.len() - i,
            {
                let ghost before = texts(r@);
                r.push(tests[i].clone());
                proof {
                    assert(texts(r@) =~= before.push(list[i as int]));
                    assert(prod + list.take(i + 1) =~= (prod + list.take(i as int)).push(
                        list[i as int],
                    ));
                }
                i += 1;
            }
            assert(list.take(list.len() as int) =~= list);
        }
        r
    }
}

/// The directories that are read: those of production code, then those of
/// tests that cargo knows.
pub open spec fn read_dirs(t: TreeView, w: WorkspaceView) -> Seq<Seq<char>> {
    if w.from_cargo {
        production_dirs(t, w) + dirs_of(w.targets, Kind::NotProduction)
    } else {
        production_dirs(t, w)
    }
}

/// The directory holds a program, by its layout.
pub open spec fn holds_program(t: TreeView, dir: Seq<char>) -> bool {
    has_file(t, under(dir, "main.rs"@)) || has_dir(t, under(dir, "bin"@))
}

/// Cargo declares a binary; or, where cargo does not say, a directory of
/// sources holds a program.
pub open spec fn cargo_application(t: TreeView, w: WorkspaceView) -> bool {
    if w.from_cargo {
        any_binary(w.targets)
    } else {
        exists|k: int|
            0 <= k < conventional_roots(t).len() && holds_program(
                t,
                #[trigger] conventional_roots(t)[k],
            )
    }
}

impl<'a> Project for CargoProject<'a> {
    open spec fn in_language(&self) -> Language {
        Language::Rust
    }

    open spec fn reads(&self, path: Seq<char>) -> bool {
        source_in(
            self.tree@,
            Language::Rust,
            read_dirs(self.tree@, self.workspace@),
            path,
        )
    }

    open spec fn tests_at(&self, path: Seq<char>) -> bool {
        rust_test_path(path) || among_tests(self.workspace@, path)
    }

    open spec fn runs_alone(&self) -> bool {
        cargo_application(self.tree@, self.workspace@)
    }

    open spec fn entries(&self) -> Seq<Seq<char>> {
        seq!["main"@]
    }

    open spec fn loaded(&self) -> Seq<Seq<char>> {
        seq![]
    }

    open spec fn described(&self) -> Seq<char> {
        if self.workspace@.from_cargo {
            "rust, "@ + decimal(self.workspace@.targets.len()) + " cargo target(s); "@
                + app_or_lib(self.runs_alone())
        } else {
            "rust, cargo could not answer; directory conventions used"@
        }
    }

    fn language(&self) -> (r: Language) {
        Language::Rust
    }

    fn source_files(&self) -> (r: Vec<String>) {
        let dirs = self.source_dirs();
        walk(self.tree, Language::Rust, &dirs)
    }

    fn is_test_file(&self, path: &str) -> (r: bool) {
        let c = chars_of(path);
        if contains(&c, "/tests/") || ends_with(&c, "/tests.rs") || ends_with(&c, "/test.rs")
            || ends_with(&c, "_test.rs") || ends_with(&c, "_tests.rs") {
            return true;
        }
        if !self.workspace.from_cargo {
            return false;
        }
        if self.workspace.is_test_target(path) {
            return true;
        }
        let tests = self.workspace.non_production_roots();
        any_within(path, &tests) && !self.workspace.is_among_shipped(path)
    }

    fn is_application(&self) -> (r: bool) {
        if self.workspace.from_cargo {
            return self.workspace.is_application();
        }
        let roots = roots_by_convention(self.tree);
        let ghost list = texts(roots@);
        let mut i: usize = 0;
        while i < roots.len()
            invariant
                0 <= i <= roots@.len(),
                list == texts(roots@),
                !self.workspace.from_cargo,
                list == conventional_roots(self.tree@),
                forall|k: int| 0 <= k < i ==> !holds_program(self.tree@, #[trigger] list[k]),
            decreases roots@.len() - i,
        {
            let r = roots[i].as_str();
            assert(list[i as int] == r@);
            if self.tree.is_file(join(r, "main.rs").as_str()) || self.tree.is_dir(
                join(r, "bin").as_str(),
            ) {
                assert(holds_program(self.tree@, conventional_roots(self.tree@)[i as int]));
                return true;
            }
            i += 1;
        }
        false
    }

    fn entry_points(&self) -> (r: Vec<String>) {
        let r: Vec<String> = vec!["main".to_owned()];
        assert(texts(r@) =~= seq!["main"@]);
        r
    }

    fn entry_files(&self) -> (r: Vec<String>) {
        let r: Vec<String> = Vec::new();
        assert(texts(r@) =~= seq![]);
        r
    }

    fn describe(&self) -> (r: String) {
        if !self.workspace.from_cargo {
            return "rust, cargo could not answer; directory conventions used".to_owned();
        }
        let mut out = "rust, ".to_owned();
        out.append(decimal_of(self.workspace.targets.len()).as_str());
        out.append(" cargo target(s); ");
        if self.is_application() {
            out.append("application");
        } else {
            out.append("library");
        }
        assert(self.workspace@.targets.len() == self.workspace.targets@.len());
        out
    }
}

// ---------------------------------------------------------------------------
// The right kind of project
// ---------------------------------------------------------------------------

/// A project of either kind.
pub enum AnyProject<'a> {
    Cargo(CargoProject<'a>),
    Convention(ConventionProject<'a>),
}

impl<'a> Project for AnyProject<'a> {
    open spec fn in_language(&self) -> Language {
        match self {
            AnyProject::Cargo(p) => p.in_language(),
            AnyProject::Convention(p) => p.in_language(),
        }
    }

    open spec fn reads(&self, path: Seq<char>) -> bool {
        match self {
            AnyProject::Cargo(p) => p.reads(path),
            AnyProject::Convention(p) => p.reads(path),
        }
    }

    open spec fn tests_at(&self, path: Seq<char>) -> bool {
        match self {
            AnyProject::Cargo(p) => p.tests_at(path),
            AnyProject::Convention(p) => p.tests_at(path),
        }
    }

    open spec fn runs_alone(&self) -> bool {
        match self {
            AnyProject::Cargo(p) => p.runs_alone(),
            AnyProject::Convention(p) => p.runs_alone(),
        }
    }

    open spec fn entries(&self) -> Seq<Seq<char>> {
        match self {
            AnyProject::Cargo(p) => p.entries(),
            AnyProject::Convention(p) => p.entries(),
        }
    }

    open spec fn loaded(&self) -> Seq<Seq<char>> {
        match self {
            AnyProject::Cargo(p) => p.loaded(),
            AnyProject::Convention(p) => p.loaded(),
        }
    }

    open spec fn described(&self) -> Seq<char> {
        match self {
            AnyProject::Cargo(p) => p.described(),
            AnyProject::Convention(p) => p.described(),
        }
    }

    fn language(&self) -> (r: Language) {
        match self {
            AnyProject::Cargo(p) => p.language(),
            AnyProject::Convention(p) => p.language(),
        }
    }

    fn source_files(&self) -> (r: Vec<String>) {
        match self {
            AnyProject::Cargo(p) => p.source_files(),
            AnyProject::Convention(p) => p.source_files(),
        }
    }

    fn is_test_file(&self, path: &str) -> (r: bool) {
        match self {
            AnyProject::Cargo(p) => p.is_test_file(path),
            AnyProject::Convention(p) => p.is_test_file(path),
        }
    }

    fn is_application(&self) -> (r: bool) {
        match self {
            AnyProject::Cargo(p) => p.is_application(),
            AnyProject::Convention(p) => p.is_application(),
        }
    }

    fn entry_points(&self) -> (r: Vec<String>) {
        match self {
            AnyProject::Cargo(p) => p.entry_points(),
            AnyProject::Convention(p) => p.entry_points(),
        }
    }

    fn entry_files(&self) -> (r: Vec<String>) {
        match self {
            AnyProject::Cargo(p) => p.entry_files(),
            AnyProject::Convention(p) => p.entry_files(),
        }
    }

    fn describe(&self) -> (r: String) {
        match self {
            AnyProject::Cargo(p) => p.describe(),
            AnyProject::Convention(p) => p.describe(),
        }
    }
}

/// The language to read a directory in: the one that was stated, or the one
/// that it shows.
pub open spec fn language_of(t: TreeView, stated: Option<Language>) -> Option<Language> {
    match stated {
        Some(l) => Some(l),
        None => detected(t.here, t.above, t.listing),
    }
}

/// The right project for a directory, of which cargo says `workspace`.
pub fn detect<'a>(tree: &'a SourceTree, workspace: Workspace) -> (r: AnyProject<'a>)
    ensures
        match language_of(tree@, None) {
            Some(Language::Rust) => r matches AnyProject::Cargo(p) && p.tree == tree && p.workspace
                == workspace,
            Some(l) => r matches AnyProject::Convention(p) && p.tree == tree && p.lang == l,
            None => r matches AnyProject::Convention(p) && p.tree == tree && p.lang
                == Language::Rust,
        },
{
    detect_as(tree, workspace, None)
}

/// As `detect`, with the language stated rather than found out. A directory
/// that shows none is read for what is there.
pub fn detect_as<'a>(
    tree: &'a SourceTree,
    workspace: Workspace,
    lang: Option<Language>,
) -> (r: AnyProject<'a>)
    ensures
        match language_of(tree@, lang) {
            Some(Language::Rust) => r matches AnyProject::Cargo(p) && p.tree == tree && p.workspace
                == workspace,
            Some(l) => r matches AnyProject::Convention(p) && p.tree == tree && p.lang == l,
            None => r matches AnyProject::Convention(p) && p.tree == tree && p.lang
                == Language::Rust,
        },
{
    let found = match lang {
        Some(l) => Some(l),
        None => detect_language(&tree.here, &tree.above, &tree.listing),
    };
    match found {
        Some(Language::Rust) => AnyProject::Cargo(CargoProject::new(tree, workspace)),
        Some(l) => AnyProject::Convention(ConventionProject::new(tree, l)),
        None => AnyProject::Convention(ConventionProject::new(tree, Language::Rust)),
    }
}

} // verus!
