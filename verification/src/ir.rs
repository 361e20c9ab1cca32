//! What a frontend reads out of a project, whatever the language.
//!
//! A syntactic frontend fills what it can and declares the rest unknown; a
//! compiler-resolved one fills everything. The analysis asks how far an edge
//! can be trusted, never where it came from.

use vstd::prelude::*;

use crate::frontend::syn_frontend::RustFile;
use crate::names::NameSet;
use crate::source::SourceFile;

verus! {

/// How precisely a symbol or an edge was resolved, least first.
#[derive(Debug, Clone, Copy, PartialEq, Eq, PartialOrd, Ord, Hash, Structural)]
pub enum Precision {
    /// Name only: two definitions that share it cannot be told apart.
    Nominal,
    /// Name and the type or module that defines it.
    Typed,
    /// Resolved by the compiler: exactly one definition.
    Resolved,
}

/// Calls made outside any function of a test file are made by this name.
pub const TEST_MODULE_ROOT: &'static str = "<test module>";

/// The text behind an optional string.
pub open spec fn opt(s: Option<String>) -> Option<Seq<char>> {
    match s {
        Some(t) => Some(t@),
        None => None,
    }
}

/// The models of a list of values.
pub open spec fn views<T: View>(s: Seq<T>) -> Seq<T::V> {
    s.map_values(|x: T| x@)
}

pub fn copy_opt(s: &Option<String>) -> (r: Option<String>)
    ensures
        opt(r) == opt(*s),
{
    match s {
        Some(t) => Some(t.clone()),
        None => None,
    }
}

/// What a symbol is.
#[verifier::ext_equal]
pub struct SymbolView {
    pub name: Seq<char>,
    pub self_ty: Option<Seq<char>>,
    pub krate: Option<Seq<char>>,
    pub path: Option<Seq<char>>,
}

/// Identity of a function, as precise as the frontend allows. Source location
/// is no part of it: two calls of one function name one symbol.
#[derive(Debug, Clone, PartialEq, Eq, Hash, PartialOrd, Ord)]
pub struct SymbolId {
    pub name: String,
    /// Defining type of a method: `A` in `A::process`.
    pub self_ty: Option<String>,
    /// Owning crate.
    pub krate: Option<String>,
    /// Defining module of a free function: `alpha` in `alpha::helper`.
    pub path: Option<String>,
}

impl View for SymbolId {
    type V = SymbolView;

    open spec fn view(&self) -> SymbolView {
        SymbolView {
            name: self.name@,
            self_ty: opt(self.self_ty),
            krate: opt(self.krate),
            path: opt(self.path),
        }
    }
}

impl SymbolView {
    /// The symbol that is known by name alone.
    pub open spec fn bare(name: Seq<char>) -> SymbolView {
        SymbolView { name, self_ty: None, krate: None, path: None }
    }

    /// How far the symbol is resolved.
    pub open spec fn precision(self) -> Precision {
        match (self.self_ty, self.krate, self.path) {
            (Some(_), Some(_), _) => Precision::Resolved,
            (Some(_), None, _) => Precision::Typed,
            (None, _, Some(_)) => Precision::Typed,
            (None, _, None) => Precision::Nominal,
        }
    }

    /// The symbol as it is written, and its key in the call graph.
    pub open spec fn text(self) -> Seq<char> {
        match (self.krate, self.self_ty, self.path) {
            (Some(k), Some(t), _) => k + "::"@ + t + "::"@ + self.name,
            (None, Some(t), _) => t + "::"@ + self.name,
            (_, None, Some(p)) => p + "::"@ + self.name,
            (_, None, None) => self.name,
        }
    }

    /// More than a name is known.
    pub open spec fn qualified(self) -> bool {
        self.self_ty is Some || self.path is Some
    }
}

impl SymbolId {
    /// A name and nothing else.
    pub fn nominal(name: &str) -> (r: Self)
        ensures
            r@ == SymbolView::bare(name@),
    {
        SymbolId { name: name.to_owned(), self_ty: None, krate: None, path: None }
    }

    /// A method whose receiver type is known.
    pub fn typed(name: &str, self_ty: &str) -> (r: Self)
        ensures
            r@ == (SymbolView { self_ty: Some(self_ty@), ..SymbolView::bare(name@) }),
    {
        SymbolId {
            name: name.to_owned(),
            self_ty: Some(self_ty.to_owned()),
            krate: None,
            path: None,
        }
    }

    /// A free function whose module is known.
    pub fn in_module(name: &str, path: &str) -> (r: Self)
        ensures
            r@ == (SymbolView { path: Some(path@), ..SymbolView::bare(name@) }),
    {
        SymbolId {
            name: name.to_owned(),
            self_ty: None,
            krate: None,
            path: Some(path.to_owned()),
        }
    }

    /// The precision that the symbol carries on its own.
    pub fn precision(&self) -> (r: Precision)
        ensures
            r == self@.precision(),
    {
        match (&self.self_ty, &self.krate) {
            (Some(_), Some(_)) => Precision::Resolved,
            (Some(_), None) => Precision::Typed,
            (None, _) => if self.path.is_some() {
                Precision::Typed
            } else {
                Precision::Nominal
            },
        }
    }

    /// Whether more than the name is known.
    pub fn is_qualified(&self) -> (r: bool)
        ensures
            r == self@.qualified(),
    {
        self.self_ty.is_some() || self.path.is_some()
    }

    /// The symbol as it is written, and its key in the call graph.
    pub fn to_string(&self) -> (r: String)
        ensures
            r@ == self@.text(),
    {
        let mut out = String::new();
        match &self.self_ty {
            Some(t) => {
                if let Some(k) = &self.krate {
                    out.append(k.as_str());
                    out.append("::");
                }
                out.append(t.as_str());
                out.append("::");
            },
            None => {
                if let Some(p) = &self.path {
                    out.append(p.as_str());
                    out.append("::");
                }
            },
        }
        out.append(self.name.as_str());
        assert(out@ =~= self@.text());
        out
    }

    pub fn copy(&self) -> (r: Self)
        ensures
            r@ == self@,
    {
        SymbolId {
            name: self.name.clone(),
            self_ty: copy_opt(&self.self_ty),
            krate: copy_opt(&self.krate),
            path: copy_opt(&self.path),
        }
    }
}

/// How one symbol reaches another.
#[derive(Debug, Clone, Copy, PartialEq, Eq, Hash, Structural)]
pub enum EdgeKind {
    /// `foo()`.
    Call,
    /// `x.foo()`.
    MethodCall,
    /// An identifier in front of a parenthesis in a macro body, or one that is
    /// handed on as a value. It may only ever suppress a finding: tokens cannot
    /// tell a call from a tuple struct.
    MacroToken,
}

impl EdgeKind {
    /// The kind is no guess from tokens.
    pub open spec fn witnessed(self) -> bool {
        self != EdgeKind::MacroToken
    }

    /// Whether the edge counts as evidence that something is live: always,
    /// since that only removes findings.
    pub fn can_prove_live(&self) -> (r: bool)
        ensures
            r,
    {
        true
    }

    /// Whether the edge counts as evidence that tests reach something, which
    /// can push a function into the report. A token of a macro does not.
    pub fn can_create_finding(&self) -> (r: bool)
        ensures
            r == self.witnessed(),
    {
        match self {
            EdgeKind::MacroToken => false,
            _ => true,
        }
    }
}

/// What a definition is.
#[verifier::ext_equal]
pub struct DefinitionView {
    pub id: SymbolView,
    pub precision: Precision,
    pub file: Seq<char>,
    pub line: nat,
    pub in_test: bool,
    pub is_test_fn: bool,
    pub trait_impl: bool,
    pub allowed_dead: bool,
    pub is_pub: bool,
    pub is_ffi: bool,
    pub opaque: bool,
    pub crate_root: Seq<char>,
    pub self_ty: Option<Seq<char>>,
    pub module: Option<Seq<char>>,
}

/// A function definition, as one frontend saw it.
#[derive(Debug, Clone)]
pub struct Definition {
    pub id: SymbolId,
    /// How well the frontend resolved it.
    pub precision: Precision,
    pub file: String,
    pub line: usize,
    /// Defined in test code.
    pub in_test: bool,
    /// A harness function: a root of what tests reach, never of what the
    /// program reaches.
    pub is_test_fn: bool,
    /// Method of a trait impl, reachable by dynamic dispatch.
    pub trait_impl: bool,
    /// The author already declared it dead.
    pub allowed_dead: bool,
    /// Public at the definition site.
    pub is_pub: bool,
    /// Callable from outside the language.
    pub is_ffi: bool,
    /// Its body crosses a boundary that no call edge crosses, such as a
    /// process.
    pub opaque: bool,
    /// The source directory that it came from.
    pub crate_root: String,
    /// Defining type, when the frontend saw one.
    pub self_ty: Option<String>,
    /// Defining module, when the frontend saw one.
    pub module: Option<String>,
}

impl View for Definition {
    type V = DefinitionView;

    open spec fn view(&self) -> DefinitionView {
        DefinitionView {
            id: self.id@,
            precision: self.precision,
            file: self.file@,
            line: self.line as nat,
            in_test: self.in_test,
            is_test_fn: self.is_test_fn,
            trait_impl: self.trait_impl,
            allowed_dead: self.allowed_dead,
            is_pub: self.is_pub,
            is_ffi: self.is_ffi,
            opaque: self.opaque,
            crate_root: self.crate_root@,
            self_ty: opt(self.self_ty),
            module: opt(self.module),
        }
    }
}

impl DefinitionView {
    pub open spec fn key(self) -> Seq<char> {
        self.id.text()
    }
}

impl Definition {
    /// The bare name, whatever the precision.
    pub fn name(&self) -> (r: &str)
        ensures
            r@ == self@.id.name,
    {
        self.id.name.as_str()
    }

    /// The key in the call graph: the bare name of a nominal symbol.
    pub fn key(&self) -> (r: String)
        ensures
            r@ == self@.key(),
    {
        self.id.to_string()
    }

    pub fn copy(&self) -> (r: Self)
        ensures
            r@ == self@,
    {
        Definition {
            id: self.id.copy(),
            precision: self.precision,
            file: self.file.clone(),
            line: self.line,
            in_test: self.in_test,
            is_test_fn: self.is_test_fn,
            trait_impl: self.trait_impl,
            allowed_dead: self.allowed_dead,
            is_pub: self.is_pub,
            is_ffi: self.is_ffi,
            opaque: self.opaque,
            crate_root: self.crate_root.clone(),
            self_ty: copy_opt(&self.self_ty),
            module: copy_opt(&self.module),
        }
    }
}

/// What an edge is.
#[verifier::ext_equal]
pub struct EdgeView {
    pub from: SymbolView,
    pub to: SymbolView,
    pub kind: EdgeKind,
    pub precision: Precision,
    pub in_test: bool,
    pub file: Seq<char>,
    pub line: nat,
}

/// One symbol that invokes another.
#[derive(Debug, Clone)]
pub struct Edge {
    /// The caller. The empty name stands for module level, outside any
    /// function.
    pub from: SymbolId,
    pub to: SymbolId,
    pub kind: EdgeKind,
    pub precision: Precision,
    /// Recorded in test code.
    pub in_test: bool,
    pub file: String,
    pub line: usize,
}

impl View for Edge {
    type V = EdgeView;

    open spec fn view(&self) -> EdgeView {
        EdgeView {
            from: self.from@,
            to: self.to@,
            kind: self.kind,
            precision: self.precision,
            in_test: self.in_test,
            file: self.file@,
            line: self.line as nat,
        }
    }
}

/// What a frontend extracted.
#[verifier::ext_equal]
pub struct ExtractView {
    pub definitions: Seq<DefinitionView>,
    pub edges: Seq<EdgeView>,
    pub reexported: Set<Seq<char>>,
    pub crate_roots: Seq<Seq<char>>,
}

/// Everything that a frontend extracted from a project.
pub struct Extract {
    pub definitions: Vec<Definition>,
    pub edges: Vec<Edge>,
    /// Names that a crate root re-exports. Their consumers are outside the
    /// tree, so the absence of a caller in it proves nothing.
    pub reexported: NameSet,
    /// Source directories that were read.
    pub crate_roots: Vec<String>,
}

impl View for Extract {
    type V = ExtractView;

    open spec fn view(&self) -> ExtractView {
        ExtractView {
            definitions: views(self.definitions@),
            edges: views(self.edges@),
            reexported: self.reexported@,
            crate_roots: crate::text::texts(self.crate_roots@),
        }
    }
}

impl Default for Extract {
    fn default() -> (r: Self)
        ensures
            r@ == (ExtractView {
                definitions: seq![],
                edges: seq![],
                reexported: Set::empty(),
                crate_roots: seq![],
            }),
    {
        let r = Extract {
            definitions: Vec::new(),
            edges: Vec::new(),
            reexported: NameSet::new(),
            crate_roots: Vec::new(),
        };
        assert(views(r.definitions@) =~= seq![]);
        assert(views(r.edges@) =~= seq![]);
        assert(crate::text::texts(r.crate_roots@) =~= seq![]);
        r
    }
}

/// What the frontends read.
pub struct Input {
    /// The directory of the project.
    pub root: String,
    /// Its sources.
    pub sources: Vec<SourceFile>,
    /// What a parser tells of its Rust files.
    pub rust: Vec<RustFile>,
    /// The source directories of its Rust code.
    pub rust_roots: Vec<String>,
    /// The MIR that the compiler gives, where it was asked.
    pub mir: Option<String>,
}

/// A source of definitions and edges. Frontends differ in precision and in
/// what they need; nothing downstream depends on which one ran.
pub trait Frontend {
    spec fn called(&self) -> Seq<char>;

    spec fn best(&self) -> Precision;

    spec fn yields(&self, input: Input) -> Result<ExtractView, Seq<char>>;

    fn name(&self) -> (r: &'static str)
        ensures
            r@ == self.called(),
    ;

    /// The best precision that the frontend can give, without running it.
    fn precision(&self) -> (r: Precision)
        ensures
            r == self.best(),
    ;

    /// What the input defines and calls, or why it cannot be read.
    fn extract(&self, input: &Input) -> (r: Result<Extract, String>)
        ensures
            match r {
                Ok(x) => self.yields(*input) == Ok::<ExtractView, Seq<char>>(x@),
                Err(m) => self.yields(*input) == Err::<ExtractView, Seq<char>>(m@),
            },
    ;
}

/// A symbol known by name alone is written as that name.
pub proof fn nominal_text(name: Seq<char>)
    ensures
        SymbolView::bare(name).text() == name,
        SymbolView::bare(name).precision() == Precision::Nominal,
{
}

/// A symbol is nominal exactly where neither its type nor its module is known.
pub proof fn precision_is_qualification(s: SymbolView)
    ensures
        (s.precision() == Precision::Nominal) == !s.qualified(),
{
}

} // verus!
