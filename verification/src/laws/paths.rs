//! What paths are made of.

use vstd::prelude::*;

use crate::laws::texts::cut_at_the_last;
use crate::laws::texts::nothing_to_cut;
use crate::laws::texts::parts_are_found;
use crate::laws::texts::suffixes_go;
use crate::paths::bare;
use crate::paths::extension;
use crate::paths::file_name;
use crate::paths::parent;
use crate::paths::stem;
use crate::paths::under;
use crate::paths::within;
use crate::source::path_from;
use crate::text::begins;

verus! {

/// A segment of a path: not empty, and without a `/`.
pub open spec fn segment(s: Seq<char>) -> bool {
    s.len() > 0 && !s.contains('/')
}

proof fn slash()
    ensures
        "/"@ == seq!['/'],
        "."@ == seq!['.'],
        ""@ == Seq::<char>::empty(),
{
    reveal_strlit("/");
    reveal_strlit(".");
    reveal_strlit("");
    assert("/"@ =~= seq!['/']);
    assert("."@ =~= seq!['.']);
    assert(""@ =~= Seq::<char>::empty());
}

proof fn segments_end_in_no_slash(front: Seq<char>, s: Seq<char>)
    requires
        segment(s),
    ensures
        bare(front + s) == front + s,
        bare(s) == s,
{
    slash();
    let p = front + s;
    crate::laws::texts::one_character_stands(p, '/', p.len() - 1);
    crate::laws::texts::one_character_stands(s, '/', s.len() - 1);
    assert(p[p.len() - 1] == s[s.len() - 1]);
    assert(s.contains(s[s.len() - 1]));
    suffixes_go(p, "/"@);
    suffixes_go(s, "/"@);
}

/// A path under a directory has the directory above it, and its own name: it
/// comes apart as it was put together, with a `/` at the end or without.
pub proof fn paths_come_apart(dir: Seq<char>, name: Seq<char>)
    requires
        segment(name),
        dir.len() > 0,
        dir.last() != '/',
    ensures
        file_name(dir + "/"@ + name) == name,
        parent(dir + "/"@ + name) == Some(dir),
        file_name(dir + "/"@ + name + "/"@) == name,
        parent(dir + "/"@ + name + "/"@) == Some(dir),
        under(dir, name) == dir + "/"@ + name,
        file_name(name) == name,
        parent(name) == Some(""@),
        file_name("/"@ + name) == name,
        parent("/"@ + name) == Some("/"@),
{
    slash();
    let p = dir + "/"@ + name;
    let front = dir + "/"@;
    segments_end_in_no_slash(front, name);
    assert(front + name =~= p);
    suffixes_go(p, "/"@);
    assert(bare(p + "/"@) == p);
    cut_at_the_last(dir, '/', name);
    nothing_to_cut(name, '/');
    crate::laws::texts::one_character_stands(dir, '/', dir.len() - 1);
    suffixes_go(dir, "/"@);
    assert(dir[dir.len() - 1] == dir.last());
    assert(bare(dir) == dir);
    segments_end_in_no_slash("/"@, name);
    let e = Seq::<char>::empty();
    cut_at_the_last(e, '/', name);
    assert(e + seq!['/'] + name =~= "/"@ + name);
    assert(bare(e) == e);
}

/// The name of a file is its stem, a dot, and its extension: the text behind
/// the last dot, where something stands before it.
pub proof fn names_come_apart(s: Seq<char>, ext: Seq<char>)
    requires
        s.len() > 0,
        !s.contains('/'),
        ext.len() > 0,
        !ext.contains('/'),
        !ext.contains('.'),
    ensures
        stem(s + "."@ + ext) == s,
        extension(s + "."@ + ext) == Some(ext),
        extension("."@ + ext) is None,
        stem("."@ + ext) == "."@ + ext,
        extension(ext) is None,
        stem(ext) == ext,
{
    slash();
    let p = s + "."@ + ext;
    assert(!p.contains('/')) by {
        if p.contains('/') {
            let i = choose|i: int| 0 <= i < p.len() && p[i] == '/';
            if i < s.len() {
                assert(s[i] == '/');
            } else if i > s.len() {
                assert(ext[i - s.len() - 1] == '/');
            }
        }
    }
    let q = "."@ + ext;
    assert(!q.contains('/')) by {
        if q.contains('/') {
            let i = choose|i: int| 0 <= i < q.len() && q[i] == '/';
            if i > 0 {
                assert(ext[i - 1] == '/');
            }
        }
    }
    segments_end_in_no_slash(seq![], p);
    segments_end_in_no_slash(seq![], q);
    segments_end_in_no_slash(seq![], ext);
    nothing_to_cut(p, '/');
    nothing_to_cut(q, '/');
    nothing_to_cut(ext, '/');
    cut_at_the_last(s, '.', ext);
    cut_at_the_last(Seq::<char>::empty(), '.', ext);
    assert(Seq::<char>::empty() + seq!['.'] + ext =~= q);
    nothing_to_cut(ext, '.');
}

/// What lies under a directory is within it, and a directory is within
/// itself; one that only begins with the same letters is not.
pub proof fn what_lies_under_is_within(dir: Seq<char>, rel: Seq<char>, c: char, rest: Seq<char>)
    requires
        dir.len() > 0,
        dir.last() != '/',
        c != '/',
    ensures
        within(under(dir, rel), dir),
        within(dir, dir),
        !within(dir + seq![c] + rest, dir),
{
    slash();
    let p = dir + "/"@ + rel;
    assert(under(dir, ""@) =~= dir + "/"@);
    parts_are_found(dir + "/"@, rel, rel);
    let q = dir + seq![c] + rest;
    assert(q.len() > dir.len());
    if begins(q, dir + "/"@) {
        let n = dir.len() as int;
        assert(q.subrange(0, n + 1)[n] == q[n]);
        assert((dir + "/"@)[n] == '/');
    }
}

/// The path from a directory to what lies under it leads there.
pub proof fn a_file_below_is_told_from_its_root(root: Seq<char>, rel: Seq<char>)
    requires
        root.len() > 0,
        root.last() != '/',
    ensures
        path_from(root + "/"@ + rel, root) == Some(rel),
        path_from(root, root) == Some(""@),
{
    slash();
    let p = root + "/"@ + rel;
    assert(under(root, ""@) =~= root + "/"@);
    parts_are_found(root + "/"@, rel, rel);
    assert(p.len() > root.len());
    assert(p.skip(root.len() as int + 1) =~= rel);
}

/// Only what lies under a directory has a path from it, and put under the
/// directory again that path is the file.
pub proof fn a_path_from_leads_back(file: Seq<char>, root: Seq<char>)
    requires
        root.len() > 0,
        root.last() != '/',
    ensures
        path_from(file, root) is Some <==> within(file, root),
        path_from(file, root) matches Some(rel) ==> file == root || file == root + "/"@ + rel,
{
    slash();
    assert(under(root, ""@) =~= root + "/"@);
    if file != root && within(file, root) {
        let n = root.len() as int + 1;
        assert(file =~= root + "/"@ + file.skip(n));
    }
}

/// A `/` at the end of a path says nothing, however many there are.
pub proof fn slashes_at_the_end_say_nothing(p: Seq<char>)
    ensures
        bare(p + "/"@) == bare(p),
        file_name(p + "/"@) == file_name(p),
        parent(p + "/"@) == parent(p),
{
    reveal_strlit("/");
    suffixes_go(p, "/"@);
}

} // verus!
