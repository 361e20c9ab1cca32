//! The syntax of Rust files as plain lists of events.

use proc_macro2::Delimiter;
use proc_macro2::TokenStream;
use proc_macro2::TokenTree;
use quote::ToTokens;
use syn::visit::Visit;
use vstd::prelude::*;

use crate::ir::opt;
use crate::ir::views;
use crate::text::texts;

verus! {

// ---------------------------------------------------------------------------
// What is met in a file
// ---------------------------------------------------------------------------

/// What an attribute is.
#[verifier::ext_equal]
pub struct AttrView {
    pub path: Seq<Seq<char>>,
    pub tokens: Seq<char>,
}

/// An attribute: the segments of its path, and all of it as tokens.
#[derive(Debug)]
pub struct Attr {
    pub path: Vec<String>,
    pub tokens: String,
}

impl View for Attr {
    type V = AttrView;

    open spec fn view(&self) -> AttrView {
        AttrView { path: texts(self.path@), tokens: self.tokens@ }
    }
}

/// How widely an item can be seen.
#[derive(Debug, Clone, Copy, PartialEq, Eq, Structural)]
pub enum Vis {
    /// `pub`.
    Public,
    /// `pub(crate)` and the like.
    Restricted,
    /// Nothing is said.
    Inherited,
}

/// What a segment of a path is.
#[verifier::ext_equal]
pub struct SegmentView {
    pub name: Seq<char>,
    pub line: nat,
}

/// A segment of a path, and the line that it stands on.
#[derive(Debug)]
pub struct Segment {
    pub name: String,
    pub line: usize,
}

impl View for Segment {
    type V = SegmentView;

    open spec fn view(&self) -> SegmentView {
        SegmentView { name: self.name@, line: self.line as nat }
    }
}

/// A path, where there is one.
pub open spec fn path_view(path: Option<Vec<Segment>>) -> Option<Seq<SegmentView>> {
    match path {
        Some(segments) => Some(views(segments@)),
        None => None,
    }
}

/// What a function is.
#[verifier::ext_equal]
pub struct FunctionView {
    pub name: Seq<char>,
    pub line: nat,
    pub attrs: Seq<AttrView>,
    pub vis: Vis,
    pub abi: Option<Seq<char>>,
    pub tokens: Seq<char>,
}

/// A function, free or in an impl.
#[derive(Debug)]
pub struct Function {
    pub name: String,
    pub line: usize,
    pub attrs: Vec<Attr>,
    pub vis: Vis,
    /// The calling convention, where one is written.
    pub abi: Option<String>,
    /// All of it as tokens.
    pub tokens: String,
}

impl View for Function {
    type V = FunctionView;

    open spec fn view(&self) -> FunctionView {
        FunctionView {
            name: self.name@,
            line: self.line as nat,
            attrs: views(self.attrs@),
            vis: self.vis,
            abi: opt(self.abi),
            tokens: self.tokens@,
        }
    }
}

/// What encloses a group of tokens.
#[derive(Debug, Clone, Copy, PartialEq, Eq, Structural)]
pub enum Brackets {
    Round,
    Curly,
    Square,
    Invisible,
}

/// What a token is.
#[verifier::ext_equal]
pub enum TokenView {
    Ident(Seq<char>, nat),
    Open(Brackets),
    Close,
    Punct(char),
    Literal(Seq<char>),
}

/// A token of a macro, groups flattened.
#[derive(Debug)]
pub enum Token {
    /// An identifier and its line.
    Ident(String, usize),
    /// A group opens.
    Open(Brackets),
    /// A group closes.
    Close,
    Punct(char),
    Literal(String),
}

impl View for Token {
    type V = TokenView;

    open spec fn view(&self) -> TokenView {
        match self {
            Token::Ident(name, line) => TokenView::Ident(name@, *line as nat),
            Token::Open(brackets) => TokenView::Open(*brackets),
            Token::Close => TokenView::Close,
            Token::Punct(c) => TokenView::Punct(*c),
            Token::Literal(text) => TokenView::Literal(text@),
        }
    }
}

/// What an event is.
#[verifier::ext_equal]
pub enum EventView {
    Mod(Seq<char>, Seq<AttrView>),
    Impl(Option<Seq<SegmentView>>, Option<Seq<SegmentView>>),
    Fn(FunctionView),
    Method(FunctionView),
    Use(Vis),
    Leave,
    Import(Seq<char>),
    Rename(Seq<char>, Seq<char>),
    Macro(Seq<TokenView>),
    Call(Option<Seq<SegmentView>>),
    MethodCall(Seq<char>, nat),
}

/// Something that is met in a file. A file is the list of what is met in it,
/// in the order of the source.
#[derive(Debug)]
pub enum Event {
    Mod(String, Vec<Attr>),
    /// The path of the trait, where it is of one, and that of the type, where
    /// the type is a path.
    Impl(Option<Vec<Segment>>, Option<Vec<Segment>>),
    Fn(Function),
    Method(Function),
    Use(Vis),
    /// The innermost module, impl, function or `use` ends.
    Leave,
    /// `name`, in a `use`.
    Import(String),
    /// `name as other`, in a `use`.
    Rename(String, String),
    Macro(Vec<Token>),
    /// A call, with the path of what is called where that is a path.
    Call(Option<Vec<Segment>>),
    MethodCall(String, usize),
}

impl View for Event {
    type V = EventView;

    open spec fn view(&self) -> EventView {
        match self {
            Event::Mod(name, attrs) => EventView::Mod(name@, views(attrs@)),
            Event::Impl(of, ty) => EventView::Impl(path_view(*of), path_view(*ty)),
            Event::Fn(d) => EventView::Fn(d@),
            Event::Method(d) => EventView::Method(d@),
            Event::Use(vis) => EventView::Use(*vis),
            Event::Leave => EventView::Leave,
            Event::Import(name) => EventView::Import(name@),
            Event::Rename(name, other) => EventView::Rename(name@, other@),
            Event::Macro(tokens) => EventView::Macro(views(tokens@)),
            Event::Call(path) => EventView::Call(path_view(*path)),
            Event::MethodCall(name, line) => EventView::MethodCall(name@, *line as nat),
        }
    }
}

// ---------------------------------------------------------------------------
// What syn tells
// ---------------------------------------------------------------------------

/// `syn::Attribute`, handed from syn to its walk and read nowhere else.
#[verifier::external_type_specification]
#[verifier::external_body]
pub struct ExAttribute(syn::Attribute);

/// `syn::ItemMod`, handed from syn to its walk and read nowhere else.
#[verifier::external_type_specification]
#[verifier::external_body]
pub struct ExItemMod(syn::ItemMod);

/// `syn::ItemImpl`, handed from syn to its walk and read nowhere else.
#[verifier::external_type_specification]
#[verifier::external_body]
pub struct ExItemImpl(syn::ItemImpl);

/// `syn::ItemFn`, handed from syn to its walk and read nowhere else.
#[verifier::external_type_specification]
#[verifier::external_body]
pub struct ExItemFn(syn::ItemFn);

/// `syn::ImplItemFn`, handed from syn to its walk and read nowhere else.
#[verifier::external_type_specification]
#[verifier::external_body]
pub struct ExImplItemFn(syn::ImplItemFn);

/// `syn::ItemUse`, handed from syn to its walk and read nowhere else.
#[verifier::external_type_specification]
#[verifier::external_body]
pub struct ExItemUse(syn::ItemUse);

/// `syn::UseName`, handed from syn to its walk and read nowhere else.
#[verifier::external_type_specification]
#[verifier::external_body]
pub struct ExUseName(syn::UseName);

/// `syn::UseRename`, handed from syn to its walk and read nowhere else.
#[verifier::external_type_specification]
#[verifier::external_body]
pub struct ExUseRename(syn::UseRename);

/// `syn::Macro`, handed from syn to its walk and read nowhere else.
#[verifier::external_type_specification]
#[verifier::external_body]
pub struct ExMacro(syn::Macro);

/// `syn::ExprCall`, handed from syn to its walk and read nowhere else.
#[verifier::external_type_specification]
#[verifier::external_body]
pub struct ExExprCall(syn::ExprCall);

/// `syn::ExprMethodCall`, handed from syn to its walk and read nowhere else.
#[verifier::external_type_specification]
#[verifier::external_body]
pub struct ExExprMethodCall(syn::ExprMethodCall);

/// `proc_macro2::TokenStream`, the tokens of a macro.
#[verifier::external_type_specification]
#[verifier::external_body]
pub struct ExTokenStream(proc_macro2::TokenStream);

/// `proc_macro2::Delimiter`, what encloses a group of tokens.
#[verifier::external_type_specification]
#[verifier::external_body]
pub struct ExDelimiter(proc_macro2::Delimiter);

/// `syn::Visibility`, how widely an item can be seen.
#[verifier::external_type_specification]
#[verifier::external_body]
pub struct ExVisibility(syn::Visibility);

/// `syn::Path`, the path of a type or of what is called.
#[verifier::external_type_specification]
#[verifier::external_body]
pub struct ExPath(syn::Path);

/// What `syn::parse_file` reads out of a source, as the list of what its
/// visitor meets; nothing where the source does not parse.
pub uninterp spec fn rust_events(source: Seq<char>) -> Option<Seq<EventView>>;

/// Calls `syn::parse_file`, and `visit_file` with a `Reader` for what it
/// gives: the list of what is met is a function of the source.
#[verifier::external_body]
pub(crate) fn parse_events(source: &str) -> (r: Option<Vec<Event>>)
    ensures
        match r {
            Some(v) => rust_events(source@) == Some(views(v@)),
            None => rust_events(source@) is None,
        },
{
    let file = syn::parse_file(source).ok()?;
    let mut reader = Reader { events: Vec::new() };
    reader.visit_file(&file);
    Some(reader.events)
}

/// Lists what syn's visitor meets.
struct Reader {
    events: Vec<Event>,
}

/// Asks each `syn::Attribute` for its `path` and its `to_token_stream`. What
/// they give is part of what `rust_events` names; nothing more is claimed.
#[verifier::external_body]
fn attrs_of(attrs: &Vec<syn::Attribute>) -> Vec<Attr> {
    attrs.iter().map(|a| Attr {
        path: a.path().segments.iter().map(|s| s.ident.to_string()).collect(),
        tokens: a.to_token_stream().to_string(),
    }).collect()
}

/// Tells the variants of `syn::Visibility` apart. Which one an item has is
/// part of what `rust_events` names; nothing more is claimed.
#[verifier::external_body]
fn vis_of(vis: &syn::Visibility) -> Vis {
    match vis {
        syn::Visibility::Public(_) => Vis::Public,
        syn::Visibility::Restricted(_) => Vis::Restricted,
        syn::Visibility::Inherited => Vis::Inherited,
    }
}

/// Tells the variants of `proc_macro2::Delimiter` apart. Which one a group has
/// is part of what `rust_events` names; nothing more is claimed.
#[verifier::external_body]
fn brackets_of(delimiter: Delimiter) -> Brackets {
    match delimiter {
        Delimiter::Parenthesis => Brackets::Round,
        Delimiter::Brace => Brackets::Curly,
        Delimiter::Bracket => Brackets::Square,
        Delimiter::None => Brackets::Invisible,
    }
}

/// Lists the segments of a `syn::Path`. What they are is part of what
/// `rust_events` names; nothing more is claimed.
#[verifier::external_body]
fn segments_of(path: &syn::Path) -> Vec<Segment> {
    path.segments.iter().map(|s| Segment {
        name: s.ident.to_string(),
        line: s.ident.span().start().line,
    }).collect()
}

/// Walks over a `proc_macro2::TokenStream` and into its groups. What they hold
/// is part of what `rust_events` names; nothing more is claimed.
#[verifier::external_body]
fn flatten(tokens: TokenStream, out: &mut Vec<Token>) {
    for t in tokens {
        match t {
            TokenTree::Ident(id) => out.push(Token::Ident(id.to_string(), id.span().start().line)),
            TokenTree::Group(g) => {
                out.push(Token::Open(brackets_of(g.delimiter())));
                flatten(g.stream(), out);
                out.push(Token::Close);
            },
            TokenTree::Punct(p) => out.push(Token::Punct(p.as_char())),
            TokenTree::Literal(l) => out.push(Token::Literal(l.to_string())),
        }
    }
}

/// The walk that `parse_events` has syn make. What it lists is what
/// `rust_events` names; nothing more is claimed of a single step.
impl<'ast> Visit<'ast> for Reader {
    /// Lists a module, and all in it with `syn::visit::visit_item_mod`.
    #[verifier::external_body]
    fn visit_item_mod(&mut self, node: &'ast syn::ItemMod) {
        self.events.push(Event::Mod(node.ident.to_string(), attrs_of(&node.attrs)));
        syn::visit::visit_item_mod(self, node);
        self.events.push(Event::Leave);
    }

    /// Lists an impl, and all in it with `syn::visit::visit_item_impl`.
    #[verifier::external_body]
    fn visit_item_impl(&mut self, node: &'ast syn::ItemImpl) {
        let ty = match &*node.self_ty {
            syn::Type::Path(p) => Some(segments_of(&p.path)),
            _ => None,
        };
        let of = node.trait_.as_ref().map(|t| segments_of(&t.1));
        self.events.push(Event::Impl(of, ty));
        syn::visit::visit_item_impl(self, node);
        self.events.push(Event::Leave);
    }

    /// Lists a function, and all in it with `syn::visit::visit_item_fn`.
    #[verifier::external_body]
    fn visit_item_fn(&mut self, node: &'ast syn::ItemFn) {
        self.events.push(Event::Fn(Function {
            name: node.sig.ident.to_string(),
            line: node.sig.ident.span().start().line,
            attrs: attrs_of(&node.attrs),
            vis: vis_of(&node.vis),
            abi: node.sig.abi.as_ref().map(|a| a.to_token_stream().to_string()),
            tokens: node.to_token_stream().to_string(),
        }));
        syn::visit::visit_item_fn(self, node);
        self.events.push(Event::Leave);
    }

    /// Lists a method, and all in it with `syn::visit::visit_impl_item_fn`.
    #[verifier::external_body]
    fn visit_impl_item_fn(&mut self, node: &'ast syn::ImplItemFn) {
        self.events.push(Event::Method(Function {
            name: node.sig.ident.to_string(),
            line: node.sig.ident.span().start().line,
            attrs: attrs_of(&node.attrs),
            vis: vis_of(&node.vis),
            abi: node.sig.abi.as_ref().map(|a| a.to_token_stream().to_string()),
            tokens: node.to_token_stream().to_string(),
        }));
        syn::visit::visit_impl_item_fn(self, node);
        self.events.push(Event::Leave);
    }

    /// Lists a `use`, and all in it with `syn::visit::visit_item_use`.
    #[verifier::external_body]
    fn visit_item_use(&mut self, node: &'ast syn::ItemUse) {
        self.events.push(Event::Use(vis_of(&node.vis)));
        syn::visit::visit_item_use(self, node);
        self.events.push(Event::Leave);
    }

    /// Lists a name in a `use`, from the fields of `syn::UseName`.
    #[verifier::external_body]
    fn visit_use_name(&mut self, node: &'ast syn::UseName) {
        self.events.push(Event::Import(node.ident.to_string()));
    }

    /// Lists a renamed name in a `use`, from the fields of `syn::UseRename`.
    #[verifier::external_body]
    fn visit_use_rename(&mut self, node: &'ast syn::UseRename) {
        self.events.push(Event::Rename(node.ident.to_string(), node.rename.to_string()));
    }

    /// Lists the tokens of a macro, and goes on with `syn::visit::visit_macro`.
    #[verifier::external_body]
    fn visit_macro(&mut self, node: &'ast syn::Macro) {
        let mut tokens = Vec::new();
        flatten(node.tokens.clone(), &mut tokens);
        self.events.push(Event::Macro(tokens));
        syn::visit::visit_macro(self, node);
    }

    /// Lists a call, and all in it with `syn::visit::visit_expr_call`.
    #[verifier::external_body]
    fn visit_expr_call(&mut self, node: &'ast syn::ExprCall) {
        let path = match &*node.func {
            syn::Expr::Path(p) => Some(segments_of(&p.path)),
            _ => None,
        };
        self.events.push(Event::Call(path));
        syn::visit::visit_expr_call(self, node);
    }

    /// Lists a method call, and all in it with
    /// `syn::visit::visit_expr_method_call`.
    #[verifier::external_body]
    fn visit_expr_method_call(&mut self, node: &'ast syn::ExprMethodCall) {
        let line = node.method.span().start().line;
        self.events.push(Event::MethodCall(node.method.to_string(), line));
        syn::visit::visit_expr_method_call(self, node);
    }
}

} // verus!
