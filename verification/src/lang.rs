//! The languages that can be read, and how to tell them apart.

use vstd::prelude::*;

use crate::paths::extension;
use crate::paths::extension_of;
use crate::text::chars_of;
use crate::text::lists;
use crate::text::lists_literal;
use crate::text::literals;
use crate::text::same;
use crate::text::texts;

verus! {

#[derive(Debug, Clone, Copy, PartialEq, Eq, Hash, PartialOrd, Ord, Structural)]
pub enum Language {
    Rust,
    Python,
    TypeScript,
    Go,
}

/// The extensions of a language, in the order in which they are tried.
pub open spec fn extensions_of(l: Language) -> Seq<Seq<char>> {
    match l {
        Language::Rust => seq!["rs"@],
        Language::Python => seq!["py"@],
        Language::TypeScript => seq![
            "ts"@,
            "tsx"@,
            "mts"@,
            "cts"@,
            "js"@,
            "jsx"@,
            "mjs"@,
            "cjs"@,
        ],
        Language::Go => seq!["go"@],
    }
}

/// The manifests of a language, most specific first.
pub open spec fn manifests_of(l: Language) -> Seq<Seq<char>> {
    match l {
        Language::Rust => seq!["Cargo.toml"@],
        Language::Python => seq!["pyproject.toml"@, "setup.py"@, "setup.cfg"@],
        Language::TypeScript => seq!["tsconfig.json"@, "package.json"@],
        Language::Go => seq!["go.mod"@],
    }
}

pub open spec fn name_of(l: Language) -> Seq<char> {
    match l {
        Language::Rust => "rust"@,
        Language::Python => "python"@,
        Language::TypeScript => "typescript"@,
        Language::Go => "go"@,
    }
}

/// The languages in the order in which they are declared.
pub open spec fn all_languages() -> Seq<Language> {
    seq![Language::Rust, Language::Python, Language::TypeScript, Language::Go]
}

/// The file has one of the extensions of the language.
pub open spec fn owned(l: Language, path: Seq<char>) -> bool {
    match extension(path) {
        Some(e) => extensions_of(l).contains(e),
        None => false,
    }
}

/// The character without the case of an ASCII letter.
pub open spec fn lower(c: char) -> char {
    if 'A' <= c <= 'Z' {
        ((c as u32 + 32) as u32) as char
    } else {
        c
    }
}

/// The text without the case of its ASCII letters.
pub open spec fn lowered(s: Seq<char>) -> Seq<char> {
    s.map_values(|c: char| lower(c))
}

/// The language that `s` names, whatever its case.
pub open spec fn language_named(s: Seq<char>) -> Option<Language> {
    let t = lowered(s);
    if t == "rust"@ || t == "rs"@ {
        Some(Language::Rust)
    } else if t == "python"@ || t == "py"@ {
        Some(Language::Python)
    } else if t == "typescript"@ || t == "ts"@ {
        Some(Language::TypeScript)
    } else if t == "go"@ || t == "golang"@ {
        Some(Language::Go)
    } else {
        None
    }
}

/// What `str`'s `Debug` writes: the text in quotes, with escapes.
pub uninterp spec fn debug_text(s: Seq<char>) -> Seq<char>;

/// Calls `Debug::fmt` of `str` through `format!`: what it writes is a function
/// of the text.
#[verifier::external_body]
fn quoted(s: &str) -> (r: String)
    ensures
        r@ == debug_text(s@),
{
    format!("{:?}", s)
}

fn lower_of(c: char) -> (r: char)
    ensures
        r == lower(c),
{
    if 'A' <= c && c <= 'Z' {
        (c as u8 + 32) as char
    } else {
        c
    }
}

/// The text without the case of its ASCII letters.
fn ascii_lowercase(s: &str) -> (r: String)
    ensures
        r@ == lowered(s@),
{
    let c = chars_of(s);
    let mut out = String::new();
    let mut i: usize = 0;
    assert(out@ =~= lowered(s@.take(0)));
    while i < c.len()
        invariant
            0 <= i <= c@.len(),
            c@ == s@,
            out@ == lowered(s@.take(i as int)),
        decreases c@.len() - i,
    {
        proof {
            assert(s@.take(i + 1) =~= s@.take(i as int).push(s@[i as int]));
            crate::seqs::map_push(s@.take(i as int), |x: char| lower(x), s@[i as int]);
        }
        out.push(lower_of(c[i]));
        i += 1;
    }
    assert(s@.take(s@.len() as int) =~= s@);
    out
}

impl Language {
    pub fn name(&self) -> (r: &'static str)
        ensures
            r@ == name_of(*self),
    {
        match self {
            Language::Rust => "rust",
            Language::Python => "python",
            Language::TypeScript => "typescript",
            Language::Go => "go",
        }
    }

    /// The file extensions that the language owns.
    pub fn extensions(&self) -> (r: &'static [&'static str])
        ensures
            literals(r@) == extensions_of(*self),
    {
        let r: &'static [&'static str] = match self {
            Language::Rust => &["rs"],
            Language::Python => &["py"],
            Language::TypeScript => &["ts", "tsx", "mts", "cts", "js", "jsx", "mjs", "cjs"],
            Language::Go => &["go"],
        };
        assert(literals(r@) =~= extensions_of(*self));
        r
    }

    pub fn owns(&self, path: &str) -> (r: bool)
        ensures
            r == owned(*self, path@),
    {
        match extension_of(path) {
            Some(e) => lists_literal(self.extensions(), e.as_str()),
            None => false,
        }
    }

    /// The manifests that identify a project of the language, most specific
    /// first. One of them is stronger evidence than a count of files.
    pub fn manifests(&self) -> (r: &'static [&'static str])
        ensures
            literals(r@) == manifests_of(*self),
    {
        let r: &'static [&'static str] = match self {
            Language::Rust => &["Cargo.toml"],
            Language::Python => &["pyproject.toml", "setup.py", "setup.cfg"],
            Language::TypeScript => &["tsconfig.json", "package.json"],
            Language::Go => &["go.mod"],
        };
        assert(literals(r@) =~= manifests_of(*self));
        r
    }

    pub fn all() -> (r: &'static [Language])
        ensures
            r@ == all_languages(),
    {
        let r: &'static [Language] = &[
            Language::Rust,
            Language::Python,
            Language::TypeScript,
            Language::Go,
        ];
        assert(r@ =~= all_languages());
        r
    }

    /// The language that `s` names, whatever its case.
    pub fn parse(s: &str) -> (r: Result<Self, String>)
        ensures
            match language_named(s@) {
                Some(l) => r == Ok::<Language, String>(l),
                None => r matches Err(m) && m@ == "unknown language "@ + debug_text(lowered(s@))
                    + "; known: rust, python, typescript, go"@,
            },
    {
        let low = ascii_lowercase(s);
        let t = low.as_str();
        if same(t, "rust") || same(t, "rs") {
            Ok(Language::Rust)
        } else if same(t, "python") || same(t, "py") {
            Ok(Language::Python)
        } else if same(t, "typescript") || same(t, "ts") {
            Ok(Language::TypeScript)
        } else if same(t, "go") || same(t, "golang") {
            Ok(Language::Go)
        } else {
            let mut out = "unknown language ".to_owned();
            out.append(quoted(t).as_str());
            out.append("; known: rust, python, typescript, go");
            Err(out)
        }
    }
}

impl std::str::FromStr for Language {
    type Err = String;

    fn from_str(s: &str) -> Result<Self, Self::Err> {
        Language::parse(s)
    }
}

// ---------------------------------------------------------------------------
// Detection
// ---------------------------------------------------------------------------

/// How many directories deep files are listed to judge a language by their
/// number: enough to see a project, without walking all of a dependency.
pub const LISTING_DEPTH: usize = 6;

/// A manifest of the language is among the names.
pub open spec fn declared(l: Language, names: Seq<Seq<char>>) -> bool {
    exists|i: int| 0 <= i < manifests_of(l).len() && names.contains(#[trigger] manifests_of(l)[i])
}

/// The first language of which a manifest is among the names.
pub open spec fn declared_language(names: Seq<Seq<char>>) -> Option<Language> {
    if declared(Language::Rust, names) {
        Some(Language::Rust)
    } else if declared(Language::Python, names) {
        Some(Language::Python)
    } else if declared(Language::TypeScript, names) {
        Some(Language::TypeScript)
    } else if declared(Language::Go, names) {
        Some(Language::Go)
    } else {
        None
    }
}

/// How many of the files the language owns.
pub open spec fn file_count(l: Language, files: Seq<Seq<char>>) -> nat {
    files.filter(|p: Seq<char>| owned(l, p)).len()
}

/// The language that owns the most files, on a tie the one declared first.
pub open spec fn commonest(files: Seq<Seq<char>>) -> Option<Language> {
    let r = file_count(Language::Rust, files);
    let p = file_count(Language::Python, files);
    let t = file_count(Language::TypeScript, files);
    let g = file_count(Language::Go, files);
    if r == 0 && p == 0 && t == 0 && g == 0 {
        None
    } else if r >= p && r >= t && r >= g {
        Some(Language::Rust)
    } else if p >= t && p >= g {
        Some(Language::Python)
    } else if t >= g {
        Some(Language::TypeScript)
    } else {
        Some(Language::Go)
    }
}

/// The language of a directory.
pub open spec fn detected(
    here: Seq<Seq<char>>,
    above: Seq<Seq<char>>,
    files: Seq<Seq<char>>,
) -> Option<Language> {
    match declared_language(here) {
        Some(l) => Some(l),
        None => match declared_language(above) {
            Some(l) => Some(l),
            None => commonest(files),
        },
    }
}

fn declares(l: Language, names: &Vec<String>) -> (r: bool)
    ensures
        r == declared(l, texts(names@)),
{
    let list = l.manifests();
    let len: usize = list.len();
    let mut i: usize = 0;
    while i < len
        invariant
            0 <= i <= len,
            len == list@.len(),
            literals(list@) == manifests_of(l),
            forall|k: int|
                0 <= k < i ==> !texts(names@).contains(#[trigger] manifests_of(l)[k]),
        decreases len - i,
    {
        assert(literals(list@)[i as int] == list@[i as int]@);
        if lists(names, list[i]) {
            assert(texts(names@).contains(manifests_of(l)[i as int]));
            return true;
        }
        i += 1;
    }
    false
}

fn language_declared(names: &Vec<String>) -> (r: Option<Language>)
    ensures
        r == declared_language(texts(names@)),
{
    if declares(Language::Rust, names) {
        Some(Language::Rust)
    } else if declares(Language::Python, names) {
        Some(Language::Python)
    } else if declares(Language::TypeScript, names) {
        Some(Language::TypeScript)
    } else if declares(Language::Go, names) {
        Some(Language::Go)
    } else {
        None
    }
}

fn count_files(l: Language, files: &Vec<String>) -> (r: usize)
    ensures
        r as nat == file_count(l, texts(files@)),
{
    let ghost all = texts(files@);
    let ghost keep = |p: Seq<char>| owned(l, p);
    let mut n: usize = 0;
    let mut i: usize = 0;
    proof {
        reveal(Seq::filter);
        assert(all.take(0).filter(keep).len() == 0);
    }
    while i < files.len()
        invariant
            0 <= i <= files@.len(),
            n <= i,
            all == texts(files@),
            keep == (|p: Seq<char>| owned(l, p)),
            n as nat == all.take(i as int).filter(keep).len(),
        decreases files@.len() - i,
    {
        proof {
            assert(all[i as int] == files@[i as int]@);
            crate::seqs::filter_step(all, keep, i as int);
        }
        if l.owns(files[i].as_str()) {
            n += 1;
        }
        i += 1;
    }
    assert(all.take(all.len() as int) =~= all);
    n
}

/// The language of a directory, given the names of the files in it, those of
/// the files in the directory above, and the files below it. A manifest
/// decides outright; without one, the language with the most files. Nothing is
/// a real answer: to guess would be to analyse nothing.
pub fn detect(here: &Vec<String>, above: &Vec<String>, files: &Vec<String>) -> (r: Option<
    Language,
>)
    ensures
        r == detected(texts(here@), texts(above@), texts(files@)),
{
    if let Some(l) = language_declared(here) {
        return Some(l);
    }
    if let Some(l) = language_declared(above) {
        return Some(l);
    }
    let r = count_files(Language::Rust, files);
    let p = count_files(Language::Python, files);
    let t = count_files(Language::TypeScript, files);
    let g = count_files(Language::Go, files);
    if r == 0 && p == 0 && t == 0 && g == 0 {
        None
    } else if r >= p && r >= t && r >= g {
        Some(Language::Rust)
    } else if p >= t && p >= g {
        Some(Language::Python)
    } else if t >= g {
        Some(Language::TypeScript)
    } else {
        Some(Language::Go)
    }
}

/// A manifest decides, whatever files lie around it.
pub proof fn a_manifest_decides(
    here: Seq<Seq<char>>,
    above: Seq<Seq<char>>,
    files: Seq<Seq<char>>,
    more: Seq<Seq<char>>,
)
    requires
        declared_language(here) is Some,
    ensures
        detected(here, above, files) == detected(here, above, more),
{
}

} // verus!
