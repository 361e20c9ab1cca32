//! Which language a project is in, and what its configuration says.

use vstd::prelude::*;

use crate::config::glob;
use crate::config::list_under;
use crate::config::stray_key;
use crate::lang::commonest;
use crate::lang::declared;
use crate::lang::detected;
use crate::lang::extensions_of;
use crate::lang::file_count;
use crate::lang::language_named;
use crate::lang::lower;
use crate::lang::lowered;
use crate::lang::manifests_of;
use crate::lang::name_of;
use crate::lang::owned;
use crate::lang::Language;
use crate::paths::extension;
use crate::text::begins;
use crate::text::ends;

verus! {

// ---------------------------------------------------------------------------
// Languages
// ---------------------------------------------------------------------------

/// Files of the language have this extension.
pub open spec fn has_extension(l: Language, e: Seq<char>) -> bool {
    match l {
        Language::Rust => e == "rs"@,
        Language::Python => e == "py"@,
        Language::TypeScript => {
            ||| e == "ts"@
            ||| e == "tsx"@
            ||| e == "mts"@
            ||| e == "cts"@
            ||| e == "js"@
            ||| e == "jsx"@
            ||| e == "mjs"@
            ||| e == "cjs"@
        },
        Language::Go => e == "go"@,
    }
}

/// A file of this name declares a project of the language.
pub open spec fn is_manifest(l: Language, name: Seq<char>) -> bool {
    match l {
        Language::Rust => name == "Cargo.toml"@,
        Language::Python => name == "pyproject.toml"@ || name == "setup.py"@ || name
            == "setup.cfg"@,
        Language::TypeScript => name == "tsconfig.json"@ || name == "package.json"@,
        Language::Go => name == "go.mod"@,
    }
}

/// A file belongs to a language by its extension.
pub proof fn files_belong_by_extension(l: Language, path: Seq<char>)
    ensures
        owned(l, path) <==> (extension(path) matches Some(e) && has_extension(l, e)),
        forall|e: Seq<char>| #[trigger] extensions_of(l).contains(e) == has_extension(l, e),
{
    let all = extensions_of(l);
    assert forall|e: Seq<char>| #[trigger] all.contains(e) == has_extension(l, e) by {
        assert(all[0] == all[0] && all[1] == all[1] && all[2] == all[2] && all[3] == all[3]
            && all[4] == all[4] && all[5] == all[5] && all[6] == all[6] && all[7] == all[7]);
    }
}

/// A project is declared by one of its manifests.
pub proof fn manifests_declare(l: Language, names: Seq<Seq<char>>)
    ensures
        declared(l, names) <==> exists|i: int|
            0 <= i < names.len() && is_manifest(l, #[trigger] names[i]),
{
    let all = manifests_of(l);
    assert(all[0] == all[0] && all[1] == all[1] && all[2] == all[2]);
    if declared(l, names) {
        let k = choose|k: int| 0 <= k < all.len() && names.contains(#[trigger] all[k]);
        let i = choose|i: int| 0 <= i < names.len() && names[i] == all[k];
        assert(is_manifest(l, names[i]));
    }
    if exists|i: int| 0 <= i < names.len() && is_manifest(l, #[trigger] names[i]) {
        let i = choose|i: int| 0 <= i < names.len() && is_manifest(l, #[trigger] names[i]);
        assert(names.contains(names[i]));
        assert(names.contains(all[0]) || names.contains(all[1]) || names.contains(all[2]));
    }
}

/// A manifest of some language is among the names.
pub open spec fn some_manifest(names: Seq<Seq<char>>) -> bool {
    declared(Language::Rust, names) || declared(Language::Python, names) || declared(
        Language::TypeScript,
        names,
    ) || declared(Language::Go, names)
}

/// A manifest in the directory decides, then one in the directory above, and
/// only then the files; of several manifests that of Rust comes first, then
/// that of Python, of a script, and of Go.
pub proof fn the_nearest_manifest_decides(
    here: Seq<Seq<char>>,
    above: Seq<Seq<char>>,
    files: Seq<Seq<char>>,
)
    ensures
        some_manifest(here) ==> detected(here, above, files) == detected(here, seq![], seq![]),
        !some_manifest(here) && some_manifest(above) ==> detected(here, above, files) == detected(
            above,
            seq![],
            seq![],
        ),
        !some_manifest(here) && !some_manifest(above) ==> detected(here, above, files) == commonest(
            files,
        ),
        declared(Language::Rust, here) ==> detected(here, above, files) == Some(Language::Rust),
        !declared(Language::Rust, here) && declared(Language::Python, here) ==> detected(
            here,
            above,
            files,
        ) == Some(Language::Python),
        !declared(Language::Rust, here) && !declared(Language::Python, here) && declared(
            Language::TypeScript,
            here,
        ) ==> detected(here, above, files) == Some(Language::TypeScript),
        !declared(Language::Rust, here) && !declared(Language::Python, here) && !declared(
            Language::TypeScript,
            here,
        ) && declared(Language::Go, here) ==> detected(here, above, files) == Some(Language::Go),
{
}

/// The place of a language where counts are equal.
pub open spec fn turn(l: Language) -> int {
    match l {
        Language::Rust => 0,
        Language::Python => 1,
        Language::TypeScript => 2,
        Language::Go => 3,
    }
}

/// The commonest language has the most files, and comes first among those that
/// have as many; there is none where no file is of any.
pub proof fn the_commonest_has_the_most_files(files: Seq<Seq<char>>, other: Language)
    ensures
        match commonest(files) {
            Some(l) => file_count(l, files) > 0 && file_count(l, files) >= file_count(other, files)
                && (file_count(other, files) == file_count(l, files) ==> turn(l) <= turn(other)),
            None => file_count(other, files) == 0,
        },
        file_count(other, files) == files.filter(|p: Seq<char>| owned(other, p)).len(),
{
}

/// Letters are read alike in either case, and nothing else changes.
pub proof fn cases_are_read_alike(s: Seq<char>)
    ensures
        lowered(s).len() == s.len(),
        forall|i: int|
            0 <= i < s.len() ==> #[trigger] lowered(s)[i] == (if 'A' <= s[i] <= 'Z' {
                ((s[i] as u32 + 32) as u32) as char
            } else {
                s[i]
            }),
        language_named(lowered(s)) == language_named(s),
{
    assert forall|c: char| #[trigger] lower(lower(c)) == lower(c) by {
        if 'A' <= c <= 'Z' {
            let n = (c as u32 + 32) as u32;
            assert(n as char as u32 == n);
        }
    }
    assert(lowered(lowered(s)) =~= lowered(s)) by {
        assert forall|i: int| 0 <= i < s.len() implies lowered(lowered(s))[i] == #[trigger] lowered(
            s,
        )[i] by {
            assert(lower(lower(s[i])) == lower(s[i]));
        }
    }
}

proof fn small_letters_stay(s: Seq<char>)
    requires
        forall|i: int| 0 <= i < s.len() ==> !('A' <= #[trigger] s[i] <= 'Z'),
    ensures
        lowered(s) == s,
{
    assert(lowered(s) =~= s);
}

/// Each language answers to its name and to its short forms, and to nothing
/// else.
pub proof fn languages_answer_to_their_names(s: Seq<char>)
    ensures
        lowered(s) == "rust"@ || lowered(s) == "rs"@ <==> language_named(s) == Some(Language::Rust),
        lowered(s) == "python"@ || lowered(s) == "py"@ <==> language_named(s) == Some(
            Language::Python,
        ),
        lowered(s) == "typescript"@ || lowered(s) == "ts"@ <==> language_named(s) == Some(
            Language::TypeScript,
        ),
        lowered(s) == "go"@ || lowered(s) == "golang"@ <==> language_named(s) == Some(Language::Go),
{
    reveal_strlit("rust");
    reveal_strlit("rs");
    reveal_strlit("python");
    reveal_strlit("py");
    reveal_strlit("typescript");
    reveal_strlit("ts");
    reveal_strlit("go");
    reveal_strlit("golang");
    let t = lowered(s);
    assert("rust"@[0] == 'r' && "rs"@[0] == 'r' && "python"@[0] == 'p' && "py"@[0] == 'p'
        && "typescript"@[0] == 't' && "ts"@[0] == 't' && "go"@[0] == 'g' && "golang"@[0] == 'g');
    assert(t == "rust"@ || t == "rs"@ ==> t[0] == 'r');
    assert(t == "python"@ || t == "py"@ ==> t[0] == 'p');
    assert(t == "typescript"@ || t == "ts"@ ==> t[0] == 't');
    assert(t == "go"@ || t == "golang"@ ==> t[0] == 'g');
}

/// The name that a language is printed by reads as that language.
pub proof fn names_read_back(l: Language)
    ensures
        language_named(name_of(l)) == Some(l),
{
    reveal_strlit("rust");
    reveal_strlit("python");
    reveal_strlit("typescript");
    reveal_strlit("go");
    small_letters_stay(name_of(l));
    languages_answer_to_their_names(name_of(l));
}

// ---------------------------------------------------------------------------
// Configuration
// ---------------------------------------------------------------------------

/// A text without a star.
pub open spec fn starless(s: Seq<char>) -> bool {
    forall|i: int| 0 <= i < s.len() ==> #[trigger] s[i] != '*'
}

proof fn star_alone_fits(name: Seq<char>)
    ensures
        glob(seq!['*'], name),
    decreases name.len(),
{
    let p = seq!['*'];
    let e = Seq::<char>::empty();
    assert(p.skip(1) =~= e);
    if name.len() > 0 {
        star_alone_fits(name.skip(1));
    } else {
        assert(glob(e, name));
    }
}

proof fn begins_step(name: Seq<char>, p: Seq<char>)
    requires
        p.len() > 0,
    ensures
        begins(name, p) <==> name.len() > 0 && name[0] == p[0] && begins(name.skip(1), p.skip(1)),
{
    let n = p.len() as int;
    if begins(name, p) {
        assert(name.subrange(0, n)[0] == name[0]);
        assert(name.skip(1).subrange(0, n - 1) =~= name.subrange(0, n).skip(1));
    }
    if name.len() > 0 && name[0] == p[0] && begins(name.skip(1), p.skip(1)) {
        let t = name.subrange(0, n);
        assert(t.skip(1) =~= name.skip(1).subrange(0, n - 1));
        assert(t =~= seq![t[0]] + t.skip(1));
        assert(p =~= seq![p[0]] + p.skip(1));
    }
}

proof fn ends_step(name: Seq<char>, p: Seq<char>)
    ensures
        name.len() > p.len() ==> ends(name, p) == ends(name.skip(1), p),
        name.len() == p.len() ==> ends(name, p) == (name == p),
        name.len() < p.len() ==> !ends(name, p),
{
    let n = name.len() as int;
    let m = p.len() as int;
    if n > m {
        assert(name.skip(1).subrange(n - 1 - m, n - 1) =~= name.subrange(n - m, n));
    }
    if n == m {
        assert(name.subrange(0, n) =~= name);
    }
}

/// A pattern that ends in a star fits just the names that begin with what
/// stands before it.
pub proof fn a_star_behind_fits_what_begins_so(p: Seq<char>, name: Seq<char>)
    requires
        starless(p),
    ensures
        glob(p.push('*'), name) <==> begins(name, p),
    decreases p.len(),
{
    let pattern = p.push('*');
    if p.len() == 0 {
        assert(pattern =~= seq!['*']);
        star_alone_fits(name);
        assert(name.subrange(0, 0) =~= p);
    } else {
        assert(pattern[0] == p[0]);
        assert(p[0] != '*');
        let less = p.skip(1);
        assert(pattern.skip(1) =~= less.push('*'));
        assert forall|i: int| 0 <= i < less.len() implies #[trigger] less[i] != '*' by {
            assert(less[i] == p[i + 1]);
        }
        begins_step(name, p);
        if name.len() > 0 {
            a_star_behind_fits_what_begins_so(less, name.skip(1));
        }
    }
}

proof fn a_plain_pattern_fits_itself(p: Seq<char>, name: Seq<char>)
    requires
        starless(p),
    ensures
        glob(p, name) <==> name == p,
    decreases p.len(),
{
    if p.len() > 0 {
        assert forall|i: int| 0 <= i < p.skip(1).len() implies #[trigger] p.skip(1)[i] != '*' by {
            assert(p.skip(1)[i] == p[i + 1]);
        }
        if name.len() > 0 {
            a_plain_pattern_fits_itself(p.skip(1), name.skip(1));
            assert(name =~= seq![name[0]] + name.skip(1));
            assert(p =~= seq![p[0]] + p.skip(1));
        }
    } else {
        assert(name.len() == 0 ==> name =~= p);
    }
}

/// A pattern that begins with a star fits just the names that end in what
/// stands behind it.
pub proof fn a_star_in_front_fits_what_ends_so(p: Seq<char>, name: Seq<char>)
    requires
        starless(p),
    ensures
        glob(seq!['*'] + p, name) <==> ends(name, p),
    decreases name.len(),
{
    let pattern = seq!['*'] + p;
    assert(pattern.skip(1) =~= p);
    a_plain_pattern_fits_itself(p, name);
    ends_step(name, p);
    if name.len() > 0 {
        a_star_in_front_fits_what_ends_so(p, name.skip(1));
        ends_step(name.skip(1), p);
    }
}

/// The list under a key is the one that is given for it, and empty where none
/// is.
pub proof fn lists_are_found_by_key(
    table: Seq<(Seq<char>, Seq<Seq<char>>)>,
    key: Seq<char>,
    i: int,
)
    ensures
        0 <= i < table.len() && table[i].0 == key && (forall|j: int|
            i < j < table.len() ==> (#[trigger] table[j]).0 != key) ==> list_under(table, key)
            == table[i].1,
        (forall|j: int| 0 <= j < table.len() ==> (#[trigger] table[j]).0 != key) ==> list_under(
            table,
            key,
        ) == Seq::<Seq<char>>::empty(),
    decreases table.len(),
{
    if table.len() > 0 {
        let n = table.len() - 1;
        let less = table.drop_last();
        lists_are_found_by_key(less, key, i);
        assert(table.last() == table[n]);
        if 0 <= i < n && table[i].0 == key && (forall|j: int|
            i < j < table.len() ==> (#[trigger] table[j]).0 != key) {
            assert(table[n].0 != key);
            assert(less[i] == table[i]);
            assert forall|j: int| i < j < less.len() implies (#[trigger] less[j]).0 != key by {
                assert(less[j] == table[j]);
            }
        }
        if forall|j: int| 0 <= j < table.len() ==> (#[trigger] table[j]).0 != key {
            assert forall|j: int| 0 <= j < less.len() implies (#[trigger] less[j]).0 != key by {
                assert(less[j] == table[j]);
            }
        }
    }
}

/// A configuration has no key but `roots` and `ignore`: the first other one is
/// refused.
pub proof fn other_keys_are_refused(table: Seq<(Seq<char>, Seq<Seq<char>>)>)
    ensures
        match stray_key(table) {
            Some(key) => exists|i: int|
                0 <= i < table.len() && (#[trigger] table[i]).0 == key && key != "roots"@ && key
                    != "ignore"@ && forall|j: int|
                    0 <= j < i ==> (#[trigger] table[j]).0 == "roots"@ || table[j].0 == "ignore"@,
            None => forall|j: int|
                0 <= j < table.len() ==> (#[trigger] table[j]).0 == "roots"@ || table[j].0
                    == "ignore"@,
        },
    decreases table.len(),
{
    if table.len() > 0 {
        let less = table.drop_last();
        let n = table.len() - 1;
        other_keys_are_refused(less);
        assert(table.last() == table[n]);
        match stray_key(less) {
            Some(key) => {
                let i = choose|i: int|
                    0 <= i < less.len() && (#[trigger] less[i]).0 == key && key != "roots"@ && key
                        != "ignore"@ && forall|j: int|
                        0 <= j < i ==> (#[trigger] less[j]).0 == "roots"@ || less[j].0
                            == "ignore"@;
                assert(table[i] == less[i]);
                assert forall|j: int| 0 <= j < i implies (#[trigger] table[j]).0 == "roots"@
                    || table[j].0 == "ignore"@ by {
                    assert(less[j] == table[j]);
                }
            },
            None => {
                assert forall|j: int| 0 <= j < n implies (#[trigger] table[j]).0 == "roots"@
                    || table[j].0 == "ignore"@ by {
                    assert(less[j] == table[j]);
                }
            },
        }
    }
}

/// Every language is listed, once.
pub proof fn every_language_is_listed(l: Language)
    ensures
        crate::lang::all_languages().contains(l),
        crate::lang::all_languages().len() == 4,
        crate::lang::all_languages().no_duplicates(),
{
    let all = crate::lang::all_languages();
    assert(all[0] == Language::Rust && all[1] == Language::Python && all[2] == Language::TypeScript
        && all[3] == Language::Go);
}

} // verus!
