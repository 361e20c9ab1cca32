//! What a project of scripts declares as public, and what its files are called.

use vstd::prelude::*;

use crate::frontend::syntax::dialect_of;
use crate::frontend::syntax::syntax;
use crate::frontend::syntax::Dialect;
use crate::frontend::syntax::NodeView;
use crate::frontend::tree_sitter_frontend::declares_public;
use crate::frontend::tree_sitter_frontend::exports_of;
use crate::frontend::tree_sitter_frontend::extracted;
use crate::frontend::tree_sitter_frontend::handed_on_at;
use crate::frontend::tree_sitter_frontend::listed_at;
use crate::frontend::tree_sitter_frontend::marked;
use crate::frontend::tree_sitter_frontend::module_of;
use crate::frontend::tree_sitter_frontend::walked;
use crate::frontend::tree_sitter_frontend::walked_files;
use crate::frontend::tree_sitter_frontend::FileView;
use crate::lang::Language;
use crate::laws::paths::a_file_below_is_told_from_its_root;
use crate::laws::texts::cut_at_the_last;
use crate::laws::texts::nothing_to_cut;
use crate::laws::texts::shedding_takes_the_ends;
use crate::laws::trees::directly_below;
use crate::laws::trees::in_role;
use crate::laws::trees::roles_are_found;
use crate::paths::extension;
use crate::paths::file_name;
use crate::source::SourceView;
use crate::text::join;
use crate::text::trimmed;

verus! {

/// Node `j` stands below node `i`, at any distance, or is it: everything from
/// `i` up to it is deeper than `i`.
pub open spec fn somewhere_below(nodes: Seq<NodeView>, i: int, j: int) -> bool {
    &&& 0 <= i <= j < nodes.len()
    &&& forall|k: int| i < k <= j ==> (#[trigger] nodes[k]).depth > nodes[i].depth
}

/// A name is public where a string in what is assigned to `__all__` holds it.
pub proof fn listed_names_are_public(
    nodes: Seq<NodeView>,
    is_init: bool,
    i: int,
    l: int,
    r: int,
    j: int,
    q: char,
    name: Seq<char>,
)
    requires
        0 <= i < nodes.len(),
        nodes[i].kind == "assignment"@,
        in_role(nodes, i, "left"@, l),
        trimmed(nodes[l].text) == "__all__"@,
        in_role(nodes, i, "right"@, r),
        somewhere_below(nodes, r, j),
        nodes[j].kind == "string"@,
        q == '"' || q == '\'',
        name.len() > 0,
        name[0] != '"' && name[0] != '\'',
        name.last() != '"' && name.last() != '\'',
        nodes[j].text == seq![q] + name + seq![q],
    ensures
        declares_public(nodes, is_init, name),
{
    roles_are_found(nodes, i, "left"@, l);
    roles_are_found(nodes, i, "right"@, r);
    assert(crate::frontend::tree_sitter_frontend::lists_all(nodes, i, r));
    assert(crate::frontend::syntax::in_subtree(nodes, r, j));
    reveal_strlit("\"'");
    let set = "\"'"@;
    assert(set[0] == '"' && set[1] == '\'');
    assert forall|c: char| #[trigger] set.contains(c) == (c == '"' || c == '\'') by {
        if set.contains(c) {
            let k = choose|k: int| 0 <= k < set.len() && set[k] == c;
            assert(k == 0 || k == 1);
        }
    }
    assert(set.contains(q));
    shedding_takes_the_ends(seq![q], name, seq![q], set);
    assert(crate::frontend::tree_sitter_frontend::is_string(nodes, j, name));
    assert(listed_at(nodes, i, name));
    assert(crate::frontend::tree_sitter_frontend::declares_at(nodes, is_init, i, name));
}

/// A name is public where the root of a package imports it: by the last
/// segment of what is imported, or by its alias. Elsewhere an import makes
/// nothing public.
pub proof fn names_that_a_package_imports_are_public(
    nodes: Seq<NodeView>,
    i: int,
    c: int,
    a: int,
    over: Seq<char>,
    name: Seq<char>,
)
    requires
        0 <= i < nodes.len(),
        nodes[i].kind == "import_from_statement"@ || nodes[i].kind == "import_statement"@,
        directly_below(nodes, i, c),
        !name.contains('.'),
    ensures
        (nodes[c].kind == "dotted_name"@ || nodes[c].kind == "identifier"@) && (nodes[c].text
            == name || nodes[c].text == over + seq!['.'] + name) ==> declares_public(
            nodes,
            true,
            name,
        ),
        nodes[c].kind == "aliased_import"@ && in_role(nodes, c, "alias"@, a) && nodes[a].text
            == name ==> declares_public(nodes, true, name),
{
    reveal_strlit(".");
    assert("."@ =~= seq!['.']);
    assert(crate::frontend::syntax::child(nodes, i, c));
    if (nodes[c].kind == "dotted_name"@ || nodes[c].kind == "identifier"@) && (nodes[c].text == name
        || nodes[c].text == over + seq!['.'] + name) {
        if nodes[c].text == name {
            nothing_to_cut(name, '.');
        } else {
            cut_at_the_last(over, '.', name);
        }
        assert(crate::frontend::tree_sitter_frontend::imported_as(nodes, c, name));
        assert(handed_on_at(nodes, i, name));
        assert(crate::frontend::tree_sitter_frontend::declares_at(nodes, true, i, name));
    }
    if nodes[c].kind == "aliased_import"@ && in_role(nodes, c, "alias"@, a) && nodes[a].text
        == name {
        reveal_strlit("dotted_name");
        reveal_strlit("identifier");
        reveal_strlit("aliased_import");
        assert("dotted_name"@.len() == 11 && "identifier"@.len() == 10 && "aliased_import"@.len()
            == 14);
        roles_are_found(nodes, c, "alias"@, a);
        assert(crate::frontend::tree_sitter_frontend::imported_as(nodes, c, name));
        assert(handed_on_at(nodes, i, name));
        assert(crate::frontend::tree_sitter_frontend::declares_at(nodes, true, i, name));
    }
}

/// A file that lists nothing and is no root of a package makes nothing public.
pub proof fn other_files_make_nothing_public(nodes: Seq<NodeView>, name: Seq<char>)
    requires
        forall|i: int|
            0 <= i < nodes.len() && (#[trigger] nodes[i]).kind == "assignment"@ ==> forall|l: int|
                #[trigger] in_role(nodes, i, "left"@, l) ==> trimmed(nodes[l].text) != "__all__"@,
    ensures
        !declares_public(nodes, false, name),
{
    if declares_public(nodes, false, name) {
        let i = choose|i: int|
            0 <= i < nodes.len()
                && #[trigger] crate::frontend::tree_sitter_frontend::declares_at(
                nodes,
                false,
                i,
                name,
            );
        assert(listed_at(nodes, i, name));
        let (r, j) = choose|r: int, j: int|
            #![trigger crate::frontend::tree_sitter_frontend::lists_all(nodes, i, r), crate::frontend::syntax::in_subtree(nodes, r, j)]
            crate::frontend::tree_sitter_frontend::lists_all(nodes, i, r)
                && crate::frontend::syntax::in_subtree(nodes, r, j)
                && crate::frontend::tree_sitter_frontend::is_string(nodes, j, name);
        let l = crate::frontend::syntax::kid(nodes, i, "left"@)->0;
        roles_are_found(nodes, i, "left"@, l);
        assert(nodes[i].kind == "assignment"@);
        assert(in_role(nodes, i, "left"@, l));
    }
}

/// What a project makes public is what its files do, the root of a package
/// being the file `__init__.py`.
pub proof fn a_project_makes_public_what_its_files_do(
    files: Seq<SourceView>,
    k: int,
    name: Seq<char>,
)
    ensures
        exports_of(files).contains(name) <==> exists|k: int|
            0 <= k < files.len() && (syntax((#[trigger] files[k]).text, Dialect::Python) matches Some(
                nodes,
            ) && declares_public(nodes, file_name(files[k].path) == "__init__.py"@, name)),
{
    if exports_of(files).contains(name) {
        let k = choose|k: int|
            0 <= k < files.len() && crate::frontend::tree_sitter_frontend::file_declares(
                #[trigger] files[k],
                name,
            );
        assert(syntax(files[k].text, Dialect::Python) is Some);
    }
    if exists|k: int|
        0 <= k < files.len() && (syntax((#[trigger] files[k]).text, Dialect::Python) matches Some(
            nodes,
        ) && declares_public(nodes, file_name(files[k].path) == "__init__.py"@, name)) {
        let k = choose|k: int|
            0 <= k < files.len() && (syntax((#[trigger] files[k]).text, Dialect::Python) matches Some(
                nodes,
            ) && declares_public(nodes, file_name(files[k].path) == "__init__.py"@, name));
        assert(crate::frontend::tree_sitter_frontend::file_declares(files[k], name));
    }
}

// ---------------------------------------------------------------------------
// Modules
// ---------------------------------------------------------------------------

/// A file stands for the module that its path spells under the root, without
/// its extension; one that is named for what its directory holds stands for
/// the directory.
pub proof fn files_are_modules(
    root: Seq<char>,
    dirs: Seq<Seq<char>>,
    stem: Seq<char>,
    ext: Seq<char>,
)
    requires
        root.len() > 0,
        root.last() != '/',
        forall|i: int|
            0 <= i < dirs.len() ==> (#[trigger] dirs[i]).len() > 0 && !dirs[i].contains('/'),
        stem.len() > 0,
        !stem.contains('/'),
        !ext.contains('/'),
        !ext.contains('.'),
    ensures
        ({
            let file = root + "/"@ + join(dirs.push(stem + "."@ + ext), "/"@);
            let whole = stem == "__init__"@ || stem == "index"@ || stem == "mod"@ || stem == "lib"@
                || stem == "main"@;
            &&& !whole ==> module_of(file, root) == Some(join(dirs.push(stem), "::"@))
            &&& whole && dirs.len() > 0 ==> module_of(file, root) == Some(join(dirs, "::"@))
            &&& whole && dirs.len() == 0 ==> module_of(file, root) is None
        }),
{
    reveal_strlit("/");
    reveal_strlit(".");
    assert("/"@ =~= seq!['/']);
    assert("."@ =~= seq!['.']);
    let last = stem + "."@ + ext;
    let parts = dirs.push(last);
    let rel = join(parts, "/"@);
    assert forall|i: int| 0 <= i < parts.len() implies !(#[trigger] parts[i]).contains('/')
        && parts[i].len() > 0 by {
        if i == dirs.len() {
            if last.contains('/') {
                let k = choose|k: int| 0 <= k < last.len() && last[k] == '/';
                if k < stem.len() {
                    assert(stem[k] == '/');
                } else if k > stem.len() {
                    assert(ext[k - stem.len() - 1] == '/');
                }
            }
        } else {
            assert(parts[i] == dirs[i]);
        }
    }
    crate::laws::texts::splitting_undoes_joining(parts, '/');
    crate::laws::texts::full_pieces_stay(parts);
    a_file_below_is_told_from_its_root(root, rel);
    assert(parts.drop_last() =~= dirs);
    assert(parts.last() == last);
    cut_at_the_last(stem, '.', ext);
}

/// Each language is read under its grammar; of scripts only those that hold
/// types and no markup are read under the plain one.
pub proof fn files_are_read_under_their_grammar(file: Seq<char>)
    ensures
        dialect_of(Language::Python, file) == Some(Dialect::Python),
        dialect_of(Language::Go, file) == Some(Dialect::Go),
        dialect_of(Language::Rust, file) is None,
        dialect_of(Language::TypeScript, file) == Some(
            if extension(file) == Some("ts"@) || extension(file) == Some("mts"@) || extension(file)
                == Some("cts"@) {
                Dialect::TypeScript
            } else {
                Dialect::Tsx
            },
        ),
{
}

// ---------------------------------------------------------------------------
// A whole project
// ---------------------------------------------------------------------------

/// A project is read file by file: one more file adds what the walk over it
/// finds, as that file is placed, and one that cannot be parsed adds nothing.
pub proof fn projects_are_read_file_by_file(
    lang: Language,
    root: Seq<char>,
    files: Seq<SourceView>,
    f: SourceView,
    exports: Set<Seq<char>>,
)
    ensures
        ({
            let before = walked_files(lang, root, files, exports);
            let after = walked_files(lang, root, files.push(f), exports);
            match dialect_of(lang, f.path) {
                Some(dialect) => match syntax(f.text, dialect) {
                    Some(nodes) => ({
                        let facts = FileView {
                            lang,
                            file: f.path,
                            module: module_of(f.path, root),
                            in_test: f.in_test,
                            exports,
                        };
                        let w = walked(facts, nodes, nodes.len() as int, before);
                        &&& after.definitions == w.definitions
                        &&& after.edges == w.edges
                        &&& after.strings == w.strings
                    }),
                    None => after == before,
                },
                None => after == before,
            }
        }),
        walked_files(lang, root, seq![], exports).definitions.len() == 0,
        walked_files(lang, root, seq![], exports).edges.len() == 0,
        walked_files(lang, root, seq![], exports).strings.len() == 0,
{
    assert(files.push(f).drop_last() =~= files);
    assert(files.push(f).last() == f);
}

/// What is extracted is what the walk found, with the literals of the whole
/// project held against every name; what a Python project makes public is
/// re-exported, and no other language re-exports anything.
pub proof fn extracts_are_what_was_found(
    lang: Language,
    root: Seq<char>,
    files: Seq<SourceView>,
    i: int,
)
    ensures
        ({
            let all = extracted(lang, root, files);
            let exports = if lang == Language::Python {
                exports_of(files)
            } else {
                Set::<Seq<char>>::empty()
            };
            let w = walked_files(lang, root, files, exports);
            &&& all.edges == w.edges
            &&& all.definitions.len() == w.definitions.len()
            &&& 0 <= i < w.definitions.len() ==> all.definitions[i] == marked(
                w.strings,
                w.definitions[i],
            )
            &&& all.reexported == exports
            &&& all.crate_roots == seq![root]
        }),
{
}

} // verus!
