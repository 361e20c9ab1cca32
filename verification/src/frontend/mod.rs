//! Frontends: the only place that knows how a fact about the code was
//! obtained. Each gives the same kind of extract, differing in precision and
//! in what it demands.

use vstd::prelude::*;

use crate::ir::Extract;
use crate::ir::ExtractView;
use crate::ir::Frontend;
use crate::ir::Input;
use crate::ir::Precision;
use crate::lang::name_of;
use crate::lang::Language;
use crate::project::language_of;
use crate::project::SourceTree;

pub mod mir_dump;
pub mod mir_frontend;
pub mod rust_syntax;
pub mod syn_frontend;
pub mod syntax;
pub mod tree_sitter_frontend;

pub use mir_frontend::MirFrontend;
pub use syn_frontend::SynFrontend;
pub use tree_sitter_frontend::TreeSitterFrontend;

verus! {

/// Which analysis to run.
#[derive(Debug, Clone, Copy, PartialEq, Eq, Structural)]
pub enum Tier {
    /// Syntax alone: no build, no toolchain, works on code that does not
    /// compile. Ambiguous names go unjudged.
    Default,
    /// Resolved by the compiler, at the cost of a successful build.
    Precise,
}

/// A frontend of any kind.
pub enum AnyFrontend {
    Syn(SynFrontend),
    Mir(MirFrontend),
    TreeSitter(TreeSitterFrontend),
}

impl Frontend for AnyFrontend {
    open spec fn called(&self) -> Seq<char> {
        match self {
            AnyFrontend::Syn(f) => f.called(),
            AnyFrontend::Mir(f) => f.called(),
            AnyFrontend::TreeSitter(f) => f.called(),
        }
    }

    open spec fn best(&self) -> Precision {
        match self {
            AnyFrontend::Syn(f) => f.best(),
            AnyFrontend::Mir(f) => f.best(),
            AnyFrontend::TreeSitter(f) => f.best(),
        }
    }

    open spec fn yields(&self, input: Input) -> Result<ExtractView, Seq<char>> {
        match self {
            AnyFrontend::Syn(f) => f.yields(input),
            AnyFrontend::Mir(f) => f.yields(input),
            AnyFrontend::TreeSitter(f) => f.yields(input),
        }
    }

    fn name(&self) -> (r: &'static str) {
        match self {
            AnyFrontend::Syn(f) => f.name(),
            AnyFrontend::Mir(f) => f.name(),
            AnyFrontend::TreeSitter(f) => f.name(),
        }
    }

    fn precision(&self) -> (r: Precision) {
        match self {
            AnyFrontend::Syn(f) => f.precision(),
            AnyFrontend::Mir(f) => f.precision(),
            AnyFrontend::TreeSitter(f) => f.precision(),
        }
    }

    fn extract(&self, input: &Input) -> (r: Result<Extract, String>) {
        match self {
            AnyFrontend::Syn(f) => f.extract(input),
            AnyFrontend::Mir(f) => f.extract(input),
            AnyFrontend::TreeSitter(f) => f.extract(input),
        }
    }
}

/// The frontend of a tier in a language. Only Rust has a precise one.
pub open spec fn frontend_for(tier: Tier, lang: Language) -> Option<AnyFrontend> {
    match (tier, lang) {
        (Tier::Default, Language::Rust) => Some(AnyFrontend::Syn(SynFrontend)),
        (Tier::Precise, Language::Rust) => Some(AnyFrontend::Mir(MirFrontend)),
        (Tier::Default, other) => Some(
            AnyFrontend::TreeSitter(TreeSitterFrontend { language: other }),
        ),
        (Tier::Precise, _) => None,
    }
}

/// What is said where precision is asked of a language that has none.
pub open spec fn refusal(lang: Language) -> Seq<char> {
    "--precise is only available for Rust; this looks like a "@ + name_of(lang)
        + " project.\n\nPrecision comes from reading the compiler's resolved output, and only the Rust frontend does that. Run without --precise for the syntactic analysis, which reports what it cannot resolve rather than guessing — see `landed check --stats`."@
}

/// The frontend of a tier for Rust.
pub fn for_tier(tier: Tier) -> (r: Result<AnyFrontend, String>)
    ensures
        r == Ok::<AnyFrontend, String>(frontend_for(tier, Language::Rust)->0),
{
    for_tier_in(tier, Language::Rust)
}

/// The frontend of a tier in a language. To ask for precision where there is
/// none is an error: a mode whose whole purpose is precision must never
/// quietly answer with something less.
pub fn for_tier_in(tier: Tier, lang: Language) -> (r: Result<AnyFrontend, String>)
    ensures
        match frontend_for(tier, lang) {
            Some(f) => r == Ok::<AnyFrontend, String>(f),
            None => r matches Err(m) && m@ == refusal(lang),
        },
{
    match (tier, lang) {
        (Tier::Default, Language::Rust) => Ok(AnyFrontend::Syn(SynFrontend)),
        (Tier::Precise, Language::Rust) => Ok(AnyFrontend::Mir(MirFrontend)),
        (Tier::Default, other) => Ok(
            AnyFrontend::TreeSitter(TreeSitterFrontend { language: other }),
        ),
        (Tier::Precise, other) => {
            let mut m = "--precise is only available for Rust; this looks like a ".to_owned();
            m.append(other.name());
            m.append(
                " project.\n\nPrecision comes from reading the compiler's resolved output, and only the Rust frontend does that. Run without --precise for the syntactic analysis, which reports what it cannot resolve rather than guessing — see `landed check --stats`.",
            );
            Err(m)
        },
    }
}

/// The language that a directory is read in.
pub open spec fn reading_language(tree: SourceTree, stated: Option<Language>) -> Language {
    match language_of(tree@, stated) {
        Some(l) => l,
        None => Language::Rust,
    }
}

/// The language that a directory is read in: that stated, or that found out,
/// or Rust where nothing shows another.
pub fn language_read(tree: &SourceTree, stated: Option<Language>) -> (r: Language)
    ensures
        r == reading_language(*tree, stated),
{
    let found = match stated {
        Some(l) => Some(l),
        None => crate::lang::detect(&tree.here, &tree.above, &tree.listing),
    };
    match found {
        Some(l) => l,
        None => Language::Rust,
    }
}

/// Whether a tier has to be given MIR in a language.
pub fn needs_mir(tier: Tier, lang: Language) -> (r: bool)
    ensures
        r == (tier == Tier::Precise && lang == Language::Rust),
        r == (frontend_for(tier, lang) == Some(AnyFrontend::Mir(MirFrontend))),
{
    tier == Tier::Precise && lang == Language::Rust
}

/// What a tier extracts.
pub open spec fn extraction(tier: Tier, lang: Language, input: Input) -> Result<
    ExtractView,
    Seq<char>,
> {
    match frontend_for(tier, lang) {
        Some(f) => f.yields(input),
        None => Err(refusal(lang)),
    }
}

/// Runs a tier, with the frontend that the directory calls for.
pub fn extract(tier: Tier, tree: &SourceTree, input: &Input) -> (r: Result<Extract, String>)
    ensures
        match r {
            Ok(x) => extraction(tier, reading_language(*tree, None), *input) == Ok::<
                ExtractView,
                Seq<char>,
            >(x@),
            Err(m) => extraction(tier, reading_language(*tree, None), *input) == Err::<
                ExtractView,
                Seq<char>,
            >(m@),
        },
{
    extract_as(tier, tree, input, None)
}

/// As `extract`, with the language stated rather than found out.
pub fn extract_as(tier: Tier, tree: &SourceTree, input: &Input, lang: Option<Language>) -> (r:
    Result<Extract, String>)
    ensures
        match r {
            Ok(x) => extraction(tier, reading_language(*tree, lang), *input) == Ok::<
                ExtractView,
                Seq<char>,
            >(x@),
            Err(m) => extraction(tier, reading_language(*tree, lang), *input) == Err::<
                ExtractView,
                Seq<char>,
            >(m@),
        },
{
    match for_tier_in(tier, language_read(tree, lang)) {
        Ok(f) => f.extract(input),
        Err(m) => Err(m),
    }
}

/// The best precision of a tier, without running it. Precise is typed, not
/// resolved: a dump names a free function by the shortest path that tells it
/// apart.
pub fn precision(tier: Tier) -> (r: Precision)
    ensures
        r == frontend_for(tier, Language::Rust)->0.best(),
        tier == Tier::Default ==> r == Precision::Nominal,
        tier == Tier::Precise ==> r == Precision::Typed,
{
    match tier {
        Tier::Default => Precision::Nominal,
        Tier::Precise => Precision::Typed,
    }
}

/// The precise tier never falls back on syntax: it answers for Rust alone, and
/// only from what the compiler gave.
pub proof fn precise_never_falls_back(lang: Language, input: Input)
    ensures
        extraction(Tier::Precise, lang, input) is Ok == (lang == Language::Rust && input.mir
            is Some),
        extraction(Tier::Precise, lang, input) matches Ok(x) ==> x == mir_frontend::merged(
            syn_frontend::rust_extract(input.rust@, crate::text::texts(input.rust_roots@)),
            mir_frontend::dump_of(crate::text::lines_of(input.mir->0@)),
        ),
{
}

} // verus!
