//! Syntactic frontend for Rust: no compiler, no build.
//!
//! A file is read as the list of what is met in it: a module, an impl or a
//! function is entered and left, and in between calls, imports and macros are
//! met. Types are not resolved, so symbols are nominal, and the analysis
//! declines to judge a name that is not unique.

use vstd::prelude::*;

use crate::frontend::rust_syntax::path_view;
use crate::frontend::rust_syntax::Attr;
use crate::frontend::rust_syntax::AttrView;
use crate::frontend::rust_syntax::Brackets;
use crate::frontend::rust_syntax::Event;
use crate::frontend::rust_syntax::EventView;
use crate::frontend::rust_syntax::Function;
use crate::frontend::rust_syntax::FunctionView;
use crate::frontend::rust_syntax::Segment;
use crate::frontend::rust_syntax::SegmentView;
use crate::frontend::rust_syntax::Token;
use crate::frontend::rust_syntax::TokenView;
use crate::frontend::rust_syntax::Vis;
use crate::frontend::tree_sitter_frontend::crosses;
use crate::frontend::tree_sitter_frontend::crosses_a_boundary;
use crate::ir::copy_opt;
use crate::ir::opt;
use crate::ir::views;
use crate::ir::Definition;
use crate::ir::DefinitionView;
use crate::ir::Edge;
use crate::ir::EdgeKind;
use crate::ir::EdgeView;
use crate::ir::Extract;
use crate::ir::ExtractView;
use crate::ir::Frontend;
use crate::ir::Input;
use crate::ir::Precision;
use crate::ir::SymbolId;
use crate::ir::SymbolView;
use crate::ir::TEST_MODULE_ROOT;
use crate::lang::Language;
use crate::names::NameSet;
use crate::text::chars_of;
use crate::text::is_word_char;
use crate::text::join;
use crate::text::join_strings;
use crate::text::mentions;
use crate::text::mentions_word;
use crate::text::present;
use crate::text::same;
use crate::text::string_of;
use crate::text::texts;
use crate::text::white;
use crate::text::word_char;

verus! {

// ---------------------------------------------------------------------------
// Attributes
// ---------------------------------------------------------------------------

/// Where reading stands in a token text: inside a string, and right behind a
/// backslash that escapes.
pub open spec fn quoting(s: Seq<char>) -> (bool, bool)
    decreases s.len(),
{
    if s.len() == 0 {
        (false, false)
    } else {
        let (inside, escaped) = quoting(s.drop_last());
        let c = s.last();
        (if c == '"' && !escaped {
            !inside
        } else {
            inside
        }, c == '\\' && !escaped)
    }
}

/// The tokens without the literals among them, so that no word in a doc
/// comment or a string passes for an identifier.
pub open spec fn unquoted(s: Seq<char>) -> Seq<char>
    decreases s.len(),
{
    if s.len() == 0 {
        seq![]
    } else {
        let before = unquoted(s.drop_last());
        let (inside, escaped) = quoting(s.drop_last());
        if inside || (s.last() == '"' && !escaped) {
            before
        } else {
            before.push(s.last())
        }
    }
}

fn tokens_without_strings(s: &str) -> (r: Vec<char>)
    ensures
        r@ == unquoted(s@),
{
    let c = chars_of(s);
    let mut out: Vec<char> = Vec::new();
    let mut inside: bool = false;
    let mut escaped: bool = false;
    let mut i: usize = 0;
    while i < c.len()
        invariant
            0 <= i <= c@.len(),
            c@ == s@,
            out@ == unquoted(s@.take(i as int)),
            (inside, escaped) == quoting(s@.take(i as int)),
        decreases c@.len() - i,
    {
        let x = c[i];
        proof {
            assert(s@.take(i + 1).drop_last() =~= s@.take(i as int));
            assert(s@.take(i + 1).last() == x);
        }
        let toggles = x == '"' && !escaped;
        if !inside && !toggles {
            out.push(x);
        }
        if toggles {
            inside = !inside;
        }
        escaped = x == '\\' && !escaped;
        i += 1;
    }
    assert(s@.take(s@.len() as int) =~= s@);
    out
}

/// Where reading stands in the tokens of a `cfg`: the identifier read last,
/// whether more of it may follow, and how many groups deep inside a `not` it is.
pub open spec fn negation(s: Seq<char>) -> (Seq<char>, bool, nat)
    decreases s.len(),
{
    if s.len() == 0 {
        (seq![], false, 0)
    } else {
        let (word, open, depth) = negation(s.drop_last());
        let c = s.last();
        if word_char(c) {
            (if open {
                word.push(c)
            } else {
                seq![c]
            }, true, depth)
        } else if white(c) {
            (word, false, depth)
        } else if c == '(' && (depth > 0 || word == "not"@) {
            (seq![], false, depth + 1)
        } else if c == ')' && depth > 0 {
            (seq![], false, (depth - 1) as nat)
        } else {
            (seq![], false, depth)
        }
    }
}

/// The tokens of a `cfg` without what stands under a `not`.
pub open spec fn demanded(s: Seq<char>) -> Seq<char>
    decreases s.len(),
{
    if s.len() == 0 {
        seq![]
    } else {
        let before = demanded(s.drop_last());
        if negation(s.drop_last()).2 > 0 || negation(s).2 > 0 {
            before
        } else {
            before.push(s.last())
        }
    }
}

fn tokens_demanded(c: &Vec<char>) -> (r: Vec<char>)
    ensures
        r@ == demanded(c@),
{
    let mut out: Vec<char> = Vec::new();
    let mut word = String::new();
    let mut open: bool = false;
    let mut depth: usize = 0;
    let mut i: usize = 0;
    assert(word@ =~= Seq::<char>::empty());
    while i < c.len()
        invariant
            0 <= i <= c@.len(),
            depth <= i,
            out@ == demanded(c@.take(i as int)),
            (word@, open, depth as nat) == negation(c@.take(i as int)),
        decreases c@.len() - i,
    {
        let x = c[i];
        let before: usize = depth;
        proof {
            assert(c@.take(i + 1).drop_last() =~= c@.take(i as int));
            assert(c@.take(i + 1).last() == x);
        }
        if is_word_char(x) {
            if !open {
                word = String::new();
            }
            proof {
                if !open {
                    assert(word@ =~= Seq::<char>::empty());
                    assert(Seq::<char>::empty().push(x) =~= seq![x]);
                }
            }
            word.push(x);
            open = true;
        } else if x.is_whitespace() {
            open = false;
        } else {
            if x == '(' && (depth > 0 || same(word.as_str(), "not")) {
                depth += 1;
            } else if x == ')' && depth > 0 {
                depth -= 1;
            }
            word = String::new();
            assert(word@ =~= Seq::<char>::empty());
            open = false;
        }
        if before == 0 && depth == 0 {
            out.push(x);
        }
        i += 1;
    }
    assert(c@.take(c@.len() as int) =~= c@);
    out
}

/// The attribute is `#[word...]`.
pub open spec fn attr_is(a: AttrView, word: Seq<char>) -> bool {
    a.path.len() == 1 && a.path[0] == word
}

fn is_attr(a: &Attr, word: &str) -> (r: bool)
    ensures
        r == attr_is(a@, word@),
{
    a.path.len() == 1 && same(a.path[0].as_str(), word)
}

/// The attribute is a `cfg` that mentions `test`, as a whole word, outside any
/// string and not under a `not`: `fastest` is no test, and what is left out of
/// tests is none either.
pub open spec fn configures_test(a: AttrView) -> bool {
    attr_is(a, "cfg"@) && mentions(demanded(unquoted(a.tokens)), "test"@)
}

pub open spec fn cfg_test(attrs: Seq<AttrView>) -> bool {
    exists|i: int| 0 <= i < attrs.len() && configures_test(#[trigger] attrs[i])
}

fn has_cfg_test(attrs: &Vec<Attr>) -> (r: bool)
    ensures
        r == cfg_test(views(attrs@)),
{
    let mut i: usize = 0;
    while i < attrs.len()
        invariant
            0 <= i <= attrs@.len(),
            forall|k: int| 0 <= k < i ==> !configures_test(#[trigger] views(attrs@)[k]),
        decreases attrs@.len() - i,
    {
        let words = tokens_demanded(&tokens_without_strings(attrs[i].tokens.as_str()));
        proof {
            reveal_strlit("test");
        }
        if is_attr(&attrs[i], "cfg") && mentions_word(&words, "test") {
            assert(configures_test(views(attrs@)[i as int]));
            return true;
        }
        i += 1;
    }
    false
}

/// The attribute hands a function to a test harness. Its path decides: a doc
/// comment is an attribute too, whatever words it holds.
pub open spec fn marks_test(a: AttrView) -> bool {
    a.path.len() > 0 && {
        let last = a.path.last();
        ||| last == "test"@
        ||| last == "bench"@
        ||| last == "rstest"@
        ||| last == "proptest"@
        ||| last == "quickcheck"@
        ||| last == "test_case"@
    }
}

pub open spec fn test_marked(attrs: Seq<AttrView>) -> bool {
    exists|i: int| 0 <= i < attrs.len() && marks_test(#[trigger] attrs[i])
}

fn is_test_attr(a: &Attr) -> (r: bool)
    ensures
        r == marks_test(a@),
{
    let n: usize = a.path.len();
    if n == 0 {
        return false;
    }
    let last = a.path[n - 1].as_str();
    same(last, "test") || same(last, "bench") || same(last, "rstest") || same(last, "proptest")
        || same(last, "quickcheck") || same(last, "test_case")
}

fn has_test_attr(attrs: &Vec<Attr>) -> (r: bool)
    ensures
        r == test_marked(views(attrs@)),
{
    let mut i: usize = 0;
    while i < attrs.len()
        invariant
            0 <= i <= attrs@.len(),
            forall|k: int| 0 <= k < i ==> !marks_test(#[trigger] views(attrs@)[k]),
        decreases attrs@.len() - i,
    {
        if is_test_attr(&attrs[i]) {
            assert(marks_test(views(attrs@)[i as int]));
            return true;
        }
        i += 1;
    }
    false
}

/// The attribute allows dead code.
pub open spec fn allows_dead(a: AttrView) -> bool {
    attr_is(a, "allow"@) && (present(a.tokens, "dead_code"@) || present(a.tokens, "unused"@))
}

pub open spec fn dead_allowed(attrs: Seq<AttrView>) -> bool {
    exists|i: int| 0 <= i < attrs.len() && allows_dead(#[trigger] attrs[i])
}

fn has_allow_dead(attrs: &Vec<Attr>) -> (r: bool)
    ensures
        r == dead_allowed(views(attrs@)),
{
    let mut i: usize = 0;
    while i < attrs.len()
        invariant
            0 <= i <= attrs@.len(),
            forall|k: int| 0 <= k < i ==> !allows_dead(#[trigger] views(attrs@)[k]),
        decreases attrs@.len() - i,
    {
        let c = chars_of(attrs[i].tokens.as_str());
        if is_attr(&attrs[i], "allow") && (crate::text::contains(&c, "dead_code")
            || crate::text::contains(&c, "unused")) {
            assert(allows_dead(views(attrs@)[i as int]));
            return true;
        }
        i += 1;
    }
    false
}

/// The attribute makes a function callable from outside Rust. Its path
/// decides, or what `unsafe(..)` holds.
pub open spec fn opens_to_outside(a: AttrView) -> bool {
    ||| attr_is(a, "no_mangle"@)
    ||| attr_is(a, "export_name"@)
    ||| attr_is(a, "used"@)
    ||| attr_is(a, "unsafe"@) && (mentions(unquoted(a.tokens), "no_mangle"@) || mentions(
        unquoted(a.tokens),
        "export_name"@,
    ))
}

fn is_outside_attr(a: &Attr) -> (r: bool)
    ensures
        r == opens_to_outside(a@),
{
    proof {
        reveal_strlit("no_mangle");
        reveal_strlit("export_name");
    }
    if is_attr(a, "no_mangle") || is_attr(a, "export_name") || is_attr(a, "used") {
        return true;
    }
    let words = tokens_without_strings(a.tokens.as_str());
    is_attr(a, "unsafe") && (mentions_word(&words, "no_mangle") || mentions_word(
        &words,
        "export_name",
    ))
}

pub open spec fn ffi(attrs: Seq<AttrView>) -> bool {
    exists|i: int| 0 <= i < attrs.len() && opens_to_outside(#[trigger] attrs[i])
}

fn is_ffi(attrs: &Vec<Attr>) -> (r: bool)
    ensures
        r == ffi(views(attrs@)),
{
    let mut i: usize = 0;
    while i < attrs.len()
        invariant
            0 <= i <= attrs@.len(),
            forall|k: int| 0 <= k < i ==> !opens_to_outside(#[trigger] views(attrs@)[k]),
        decreases attrs@.len() - i,
    {
        if is_outside_attr(&attrs[i]) {
            assert(opens_to_outside(views(attrs@)[i as int]));
            return true;
        }
        i += 1;
    }
    false
}

/// The text without white space: tokens are written with spaces between them.
pub open spec fn squeezed(s: Seq<char>) -> Seq<char> {
    s.filter(|c: char| !white(c))
}

fn squeeze(s: &str) -> (r: String)
    ensures
        r@ == squeezed(s@),
{
    let c = chars_of(s);
    let ghost keep = |x: char| !white(x);
    let mut out = String::new();
    let mut i: usize = 0;
    proof {
        reveal(Seq::filter);
        assert(out@ =~= s@.take(0).filter(keep));
    }
    while i < c.len()
        invariant
            0 <= i <= c@.len(),
            c@ == s@,
            keep == (|x: char| !white(x)),
            out@ == s@.take(i as int).filter(keep),
        decreases c@.len() - i,
    {
        proof {
            crate::seqs::filter_step(s@, keep, i as int);
        }
        if !c[i].is_whitespace() {
            out.push(c[i]);
        }
        i += 1;
    }
    assert(s@.take(s@.len() as int) =~= s@);
    out
}

// ---------------------------------------------------------------------------
// The walk
// ---------------------------------------------------------------------------

/// What is known of a file.
#[verifier::ext_equal]
pub struct RustFileView {
    pub file: Seq<char>,
    pub crate_root: Seq<char>,
    pub in_test: bool,
    pub modules: Seq<Seq<char>>,
}

/// Something that the walk is inside of.
#[verifier::ext_equal]
pub enum FrameView {
    /// A module, and whether it is test code.
    Mod(Seq<char>, bool),
    /// An impl: whether it is of a trait, and its type.
    Impl(bool, Option<Seq<char>>),
    /// A function, and whether it is test code.
    Fn(Seq<char>, bool),
    /// A `use`, and whether it is public.
    Use(bool),
}

/// What the walk has found, and what it is inside of.
#[verifier::ext_equal]
pub struct RustWalkView {
    pub definitions: Seq<DefinitionView>,
    pub edges: Seq<EdgeView>,
    pub reexported: Set<Seq<char>>,
    pub frames: Seq<FrameView>,
}

/// The walk is inside test code.
pub open spec fn inside_test(f: RustFileView, frames: Seq<FrameView>) -> bool
    decreases frames.len(),
{
    if frames.len() == 0 {
        f.in_test
    } else {
        inside_test(f, frames.drop_last()) || match frames.last() {
            FrameView::Mod(_, test) => test,
            FrameView::Fn(_, test) => test,
            _ => false,
        }
    }
}

/// The walk is inside an impl of a trait.
pub open spec fn inside_trait(frames: Seq<FrameView>) -> bool
    decreases frames.len(),
{
    frames.len() > 0 && (inside_trait(frames.drop_last()) || match frames.last() {
        FrameView::Impl(is_trait, _) => is_trait,
        _ => false,
    })
}

/// The type of the innermost impl.
pub open spec fn impl_type(frames: Seq<FrameView>) -> Option<Seq<char>>
    decreases frames.len(),
{
    if frames.len() == 0 {
        None
    } else {
        match frames.last() {
            FrameView::Impl(_, ty) => ty,
            _ => impl_type(frames.drop_last()),
        }
    }
}

/// The innermost function.
pub open spec fn innermost_fn(frames: Seq<FrameView>) -> Option<Seq<char>>
    decreases frames.len(),
{
    if frames.len() == 0 {
        None
    } else {
        match frames.last() {
            FrameView::Fn(name, _) => Some(name),
            _ => innermost_fn(frames.drop_last()),
        }
    }
}

/// The modules around, outermost first.
pub open spec fn modules_around(f: RustFileView, frames: Seq<FrameView>) -> Seq<Seq<char>>
    decreases frames.len(),
{
    if frames.len() == 0 {
        f.modules
    } else {
        let before = modules_around(f, frames.drop_last());
        match frames.last() {
            FrameView::Mod(name, _) => before.push(name),
            _ => before,
        }
    }
}

/// What is imported here is handed on to others.
pub open spec fn reexporting(frames: Seq<FrameView>) -> bool {
    frames.len() > 0 && frames.last() == FrameView::Use(true)
}

/// Who makes a call: the innermost function, or the module itself, which in
/// test code is no production code.
pub open spec fn rust_caller(f: RustFileView, frames: Seq<FrameView>) -> Seq<char> {
    match innermost_fn(frames) {
        Some(name) => name,
        None => if inside_test(f, frames) {
            TEST_MODULE_ROOT@
        } else {
            ""@
        },
    }
}

pub open spec fn rust_edge(
    f: RustFileView,
    frames: Seq<FrameView>,
    to: Seq<char>,
    line: nat,
    kind: EdgeKind,
) -> EdgeView {
    EdgeView {
        from: SymbolView::bare(rust_caller(f, frames)),
        to: SymbolView::bare(to),
        kind,
        precision: Precision::Nominal,
        in_test: inside_test(f, frames),
        file: f.file,
        line,
    }
}

pub open spec fn rust_definition(
    f: RustFileView,
    frames: Seq<FrameView>,
    d: FunctionView,
) -> DefinitionView {
    let modules = modules_around(f, frames);
    DefinitionView {
        id: SymbolView::bare(d.name),
        precision: Precision::Nominal,
        file: f.file,
        line: d.line,
        in_test: inside_test(f, frames) || cfg_test(d.attrs),
        is_test_fn: test_marked(d.attrs),
        trait_impl: inside_trait(frames),
        allowed_dead: dead_allowed(d.attrs),
        is_pub: d.vis == Vis::Public,
        is_ffi: d.abi is Some || ffi(d.attrs),
        opaque: crosses(squeezed(d.tokens), Language::Rust),
        crate_root: f.crate_root,
        self_ty: impl_type(frames),
        module: if modules.len() == 0 {
            None
        } else {
            Some(join(modules, "::"@))
        },
    }
}

/// The calls that the first tokens of a macro look like, and the identifier
/// that a parenthesis would follow. An over-approximation: a tuple struct
/// looks the same.
pub open spec fn macro_calls(
    f: RustFileView,
    frames: Seq<FrameView>,
    tokens: Seq<TokenView>,
) -> (Seq<EdgeView>, Option<(Seq<char>, nat)>)
    decreases tokens.len(),
{
    if tokens.len() == 0 {
        (seq![], None)
    } else {
        let (edges, before) = macro_calls(f, frames, tokens.drop_last());
        match tokens.last() {
            TokenView::Ident(name, line) => (edges, Some((name, line))),
            TokenView::Open(brackets) => match before {
                Some((name, line)) => if brackets == Brackets::Round {
                    (
                        edges.push(rust_edge(f, frames, name, line, EdgeKind::MacroToken)),
                        None,
                    )
                } else {
                    (edges, None)
                },
                None => (edges, None),
            },
            TokenView::Close => (edges, None),
            TokenView::Punct(_) => (edges, None),
            TokenView::Literal(_) => (edges, None),
        }
    }
}

/// What a path names: its last segment.
pub open spec fn last_segment(path: Option<Seq<SegmentView>>) -> Option<SegmentView> {
    match path {
        Some(segments) => if segments.len() > 0 {
            Some(segments.last())
        } else {
            None
        },
        None => None,
    }
}

fn last_of(path: &Option<Vec<Segment>>) -> (r: Option<&Segment>)
    ensures
        match r {
            Some(s) => last_segment(path_view(*path)) == Some(s@),
            None => last_segment(path_view(*path)) is None,
        },
{
    match path {
        Some(segments) => {
            let n: usize = segments.len();
            if n == 0 {
                return None;
            }
            assert(views(segments@).last() == segments@[n - 1]@);
            Some(&segments[n - 1])
        },
        None => None,
    }
}

/// The walk after one more event.
pub open spec fn after_event(f: RustFileView, w: RustWalkView, e: EventView) -> RustWalkView {
    match e {
        EventView::Mod(name, attrs) => RustWalkView {
            frames: w.frames.push(FrameView::Mod(name, cfg_test(attrs))),
            ..w
        },
        EventView::Impl(of, ty) => RustWalkView {
            frames: w.frames.push(
                FrameView::Impl(
                    of is Some,
                    match last_segment(ty) {
                        Some(s) => Some(s.name),
                        None => None,
                    },
                ),
            ),
            ..w
        },
        EventView::Fn(d) => RustWalkView {
            definitions: w.definitions.push(rust_definition(f, w.frames, d)),
            frames: w.frames.push(
                FrameView::Fn(d.name, test_marked(d.attrs) || cfg_test(d.attrs)),
            ),
            ..w
        },
        EventView::Method(d) => RustWalkView {
            definitions: w.definitions.push(rust_definition(f, w.frames, d)),
            frames: w.frames.push(FrameView::Fn(d.name, false)),
            ..w
        },
        EventView::Use(vis) => RustWalkView {
            frames: w.frames.push(FrameView::Use(vis == Vis::Public)),
            ..w
        },
        EventView::Leave => if w.frames.len() > 0 {
            RustWalkView { frames: w.frames.drop_last(), ..w }
        } else {
            w
        },
        EventView::Import(name) => if reexporting(w.frames) {
            RustWalkView { reexported: w.reexported.insert(name), ..w }
        } else {
            w
        },
        EventView::Rename(name, other) => if reexporting(w.frames) {
            RustWalkView { reexported: w.reexported.insert(other).insert(name), ..w }
        } else {
            w
        },
        EventView::Macro(tokens) => RustWalkView {
            edges: w.edges + macro_calls(f, w.frames, tokens).0,
            ..w
        },
        EventView::Call(path) => match last_segment(path) {
            Some(s) => RustWalkView {
                edges: w.edges.push(rust_edge(f, w.frames, s.name, s.line, EdgeKind::Call)),
                ..w
            },
            None => w,
        },
        EventView::MethodCall(name, line) => RustWalkView {
            edges: w.edges.push(rust_edge(f, w.frames, name, line, EdgeKind::MethodCall)),
            ..w
        },
    }
}

/// The walk over events, begun with what was found before.
pub open spec fn after_events(f: RustFileView, events: Seq<EventView>, start: RustWalkView) -> RustWalkView
    decreases events.len(),
{
    if events.len() == 0 {
        RustWalkView { frames: seq![], ..start }
    } else {
        after_event(f, after_events(f, events.drop_last(), start), events.last())
    }
}

enum Frame {
    Mod(String, bool),
    Impl(bool, Option<String>),
    Fn(String, bool),
    Use(bool),
}

impl Frame {
    spec fn view(&self) -> FrameView {
        match self {
            Frame::Mod(name, test) => FrameView::Mod(name@, *test),
            Frame::Impl(is_trait, ty) => FrameView::Impl(*is_trait, opt(*ty)),
            Frame::Fn(name, test) => FrameView::Fn(name@, *test),
            Frame::Use(public) => FrameView::Use(*public),
        }
    }
}

spec fn frames_view(s: Seq<Frame>) -> Seq<FrameView> {
    s.map_values(|x: Frame| x.view())
}

/// A file that was parsed, with its place in the project.
#[derive(Debug)]
pub struct RustFile {
    pub path: String,
    /// The source directory that it belongs to.
    pub crate_root: String,
    /// The whole file is test code.
    pub in_test: bool,
    pub events: Vec<Event>,
}

/// The modules that a file under its source directory makes.
pub open spec fn file_modules(file: Seq<char>, root: Seq<char>) -> Seq<Seq<char>> {
    match crate::source::path_from(file, root) {
        None => seq![],
        Some(rel) => {
            let parts = crate::text::non_empty(crate::text::split(rel, "/"@));
            let last = if parts.len() > 0 {
                parts.last()
            } else {
                ""@
            };
            let dirs = if parts.len() > 0 {
                parts.drop_last()
            } else {
                parts
            };
            let stem = crate::text::no_suffixes(last, ".rs"@);
            if stem == "lib"@ || stem == "main"@ || stem == "mod"@ {
                dirs
            } else {
                dirs.push(stem)
            }
        },
    }
}

/// The modules that a file under its source directory makes: none for the
/// roots of a crate.
pub fn file_module_path(file: &str, root: &str) -> (r: Vec<String>)
    ensures
        texts(r@) == file_modules(file@, root@),
{
    let rel = match crate::source::relative_path(file, root) {
        Some(rel) => rel,
        None => {
            let r: Vec<String> = Vec::new();
            assert(texts(r@) =~= seq![]);
            return r;
        },
    };
    let c = chars_of(rel.as_str());
    proof {
        reveal_strlit("/");
        reveal_strlit("");
    }
    let mut parts = crate::text::split_non_empty(&c, "/");
    let ghost all = crate::text::pieces(parts@);
    let none: Vec<char> = Vec::new();
    let last: &[char] = match parts.pop() {
        Some(last) => last,
        None => none.as_slice(),
    };
    proof {
        if all.len() > 0 {
            assert(crate::text::pieces(parts@) =~= all.drop_last());
            assert(last@ == all.last());
        } else {
            assert(crate::text::pieces(parts@) =~= all);
            assert(last@ =~= ""@);
        }
    }
    let stem = string_of(crate::text::drop_suffixes(last, ".rs"));
    let ghost dirs = crate::text::pieces(parts@);
    let mut r: Vec<String> = Vec::new();
    let mut i: usize = 0;
    while i < parts.len()
        invariant
            0 <= i <= parts@.len(),
            dirs == crate::text::pieces(parts@),
            texts(r@) == dirs.take(i as int),
        decreases parts@.len() - i,
    {
        let ghost before = texts(r@);
        r.push(string_of(parts[i]));
        proof {
            assert(texts(r@) =~= before.push(dirs[i as int]));
            assert(dirs.take(i + 1) =~= dirs.take(i as int).push(dirs[i as int]));
        }
        i += 1;
    }
    assert(dirs.take(dirs.len() as int) =~= dirs);
    if !(same(stem.as_str(), "lib") || same(stem.as_str(), "main") || same(stem.as_str(), "mod")) {
        let ghost before = texts(r@);
        r.push(stem);
        assert(texts(r@) =~= before.push(stem@));
    }
    r
}

impl RustFile {
    pub open spec fn facts(&self) -> RustFileView {
        RustFileView {
            file: self.path@,
            crate_root: self.crate_root@,
            in_test: self.in_test,
            modules: file_modules(self.path@, self.crate_root@),
        }
    }
}

struct FileVisitor<'a> {
    file: &'a RustFile,
    modules: Vec<String>,
    definitions: Vec<Definition>,
    edges: Vec<Edge>,
    reexported: NameSet,
    frames: Vec<Frame>,
}

impl<'a> FileVisitor<'a> {
    spec fn view(&self) -> RustWalkView {
        RustWalkView {
            definitions: views(self.definitions@),
            edges: views(self.edges@),
            reexported: self.reexported@,
            frames: frames_view(self.frames@),
        }
    }

    spec fn facts(&self) -> RustFileView {
        self.file.facts()
    }

    spec fn ready(&self) -> bool {
        texts(self.modules@) == self.facts().modules
    }

    fn in_test(&self) -> (r: bool)
        ensures
            r == inside_test(self.facts(), self@.frames),
    {
        let ghost all = self@.frames;
        let mut r: bool = self.file.in_test;
        let mut i: usize = 0;
        proof {
            assert(all.take(0) =~= Seq::<FrameView>::empty());
        }
        while i < self.frames.len()
            invariant
                0 <= i <= self.frames@.len(),
                all == self@.frames,
                r == inside_test(self.facts(), all.take(i as int)),
            decreases self.frames@.len() - i,
        {
            proof {
                assert(all[i as int] == self.frames@[i as int].view());
                assert(all.take(i + 1).drop_last() =~= all.take(i as int));
                assert(all.take(i + 1).last() == all[i as int]);
            }
            match &self.frames[i] {
                Frame::Mod(_, test) => {
                    r = r || *test;
                },
                Frame::Fn(_, test) => {
                    r = r || *test;
                },
                _ => {},
            }
            i += 1;
        }
        assert(all.take(all.len() as int) =~= all);
        r
    }

    fn in_trait(&self) -> (r: bool)
        ensures
            r == inside_trait(self@.frames),
    {
        let ghost all = self@.frames;
        let mut r: bool = false;
        let mut i: usize = 0;
        while i < self.frames.len()
            invariant
                0 <= i <= self.frames@.len(),
                all == self@.frames,
                r == inside_trait(all.take(i as int)),
            decreases self.frames@.len() - i,
        {
            proof {
                assert(all[i as int] == self.frames@[i as int].view());
                assert(all.take(i + 1).drop_last() =~= all.take(i as int));
                assert(all.take(i + 1).last() == all[i as int]);
            }
            if let Frame::Impl(is_trait, _) = &self.frames[i] {
                r = r || *is_trait;
            }
            i += 1;
        }
        assert(all.take(all.len() as int) =~= all);
        r
    }

    fn self_type(&self) -> (r: Option<String>)
        ensures
            opt(r) == impl_type(self@.frames),
    {
        let ghost all = self@.frames;
        let mut r: Option<String> = None;
        let mut i: usize = 0;
        while i < self.frames.len()
            invariant
                0 <= i <= self.frames@.len(),
                all == self@.frames,
                opt(r) == impl_type(all.take(i as int)),
            decreases self.frames@.len() - i,
        {
            proof {
                assert(all[i as int] == self.frames@[i as int].view());
                assert(all.take(i + 1).drop_last() =~= all.take(i as int));
                assert(all.take(i + 1).last() == all[i as int]);
            }
            if let Frame::Impl(_, ty) = &self.frames[i] {
                r = copy_opt(ty);
            }
            i += 1;
        }
        assert(all.take(all.len() as int) =~= all);
        r
    }

    fn reexports(&self) -> (r: bool)
        ensures
            r == reexporting(self@.frames),
    {
        let n: usize = self.frames.len();
        if n == 0 {
            return false;
        }
        assert(self@.frames.last() == self.frames@[n - 1].view());
        matches!(&self.frames[n - 1], Frame::Use(true))
    }

    fn caller(&self) -> (r: SymbolId)
        ensures
            r@ == SymbolView::bare(rust_caller(self.facts(), self@.frames)),
    {
        let ghost all = self@.frames;
        let mut r: Option<&str> = None;
        let mut i: usize = 0;
        while i < self.frames.len()
            invariant
                0 <= i <= self.frames@.len(),
                all == self@.frames,
                match r {
                    Some(n) => innermost_fn(all.take(i as int)) == Some(n@),
                    None => innermost_fn(all.take(i as int)) is None,
                },
            decreases self.frames@.len() - i,
        {
            proof {
                assert(all[i as int] == self.frames@[i as int].view());
                assert(all.take(i + 1).drop_last() =~= all.take(i as int));
                assert(all.take(i + 1).last() == all[i as int]);
            }
            if let Frame::Fn(name, _) = &self.frames[i] {
                r = Some(name.as_str());
            }
            i += 1;
        }
        assert(all.take(all.len() as int) =~= all);
        match r {
            Some(name) => SymbolId::nominal(name),
            None => if self.in_test() {
                SymbolId::nominal(TEST_MODULE_ROOT)
            } else {
                SymbolId::nominal("")
            },
        }
    }

    fn module(&self) -> (r: Option<String>)
        requires
            self.ready(),
        ensures
            opt(r) == (if modules_around(self.facts(), self@.frames).len() == 0 {
                None
            } else {
                Some(join(modules_around(self.facts(), self@.frames), "::"@))
            }),
    {
        let ghost all = self@.frames;
        let mut list = crate::text::copy_all(&self.modules);
        let mut i: usize = 0;
        proof {
            assert(all.take(0) =~= Seq::<FrameView>::empty());
        }
        while i < self.frames.len()
            invariant
                0 <= i <= self.frames@.len(),
                all == self@.frames,
                texts(list@) == modules_around(self.facts(), all.take(i as int)),
            decreases self.frames@.len() - i,
        {
            let ghost before = texts(list@);
            proof {
                assert(all[i as int] == self.frames@[i as int].view());
                assert(all.take(i + 1).drop_last() =~= all.take(i as int));
                assert(all.take(i + 1).last() == all[i as int]);
            }
            if let Frame::Mod(name, _) = &self.frames[i] {
                list.push(name.clone());
                assert(texts(list@) =~= before.push(name@));
            }
            i += 1;
        }
        assert(all.take(all.len() as int) =~= all);
        assert(texts(list@).len() == list@.len());
        if list.len() == 0 {
            None
        } else {
            Some(join_strings(&list, "::"))
        }
    }

    fn record_def(&mut self, d: &Function)
        requires
            old(self).ready(),
        ensures
            final(self).ready(),
            final(self).file == old(self).file,
            final(self)@ == (RustWalkView {
                definitions: old(self)@.definitions.push(
                    rust_definition(old(self).facts(), old(self)@.frames, d@),
                ),
                ..old(self)@
            }),
    {
        let ghost before = *self;
        let def = Definition {
            id: SymbolId::nominal(d.name.as_str()),
            precision: Precision::Nominal,
            file: self.file.path.clone(),
            line: d.line,
            in_test: self.in_test() || has_cfg_test(&d.attrs),
            is_test_fn: has_test_attr(&d.attrs),
            trait_impl: self.in_trait(),
            allowed_dead: has_allow_dead(&d.attrs),
            is_pub: d.vis == Vis::Public,
            is_ffi: d.abi.is_some() || is_ffi(&d.attrs),
            opaque: crosses_a_boundary(squeeze(d.tokens.as_str()).as_str(), Language::Rust),
            crate_root: self.file.crate_root.clone(),
            self_ty: self.self_type(),
            module: self.module(),
        };
        proof {
            assert(def@ =~= rust_definition(self.facts(), self@.frames, d@));
            crate::seqs::map_push(self.definitions@, |x: Definition| x@, def);
        }
        self.definitions.push(def);
        assert(self@ =~= (RustWalkView {
            definitions: before@.definitions.push(def@),
            ..before@
        }));
    }

    fn record_edge(&mut self, to: &str, line: usize, kind: EdgeKind)
        requires
            old(self).ready(),
        ensures
            final(self).ready(),
            final(self).file == old(self).file,
            final(self)@ == (RustWalkView {
                edges: old(self)@.edges.push(
                    rust_edge(old(self).facts(), old(self)@.frames, to@, line as nat, kind),
                ),
                ..old(self)@
            }),
    {
        let ghost before = *self;
        let e = Edge {
            from: self.caller(),
            to: SymbolId::nominal(to),
            kind,
            precision: Precision::Nominal,
            in_test: self.in_test(),
            file: self.file.path.clone(),
            line,
        };
        proof {
            crate::seqs::map_push(self.edges@, |x: Edge| x@, e);
        }
        self.edges.push(e);
        assert(self@ =~= (RustWalkView { edges: before@.edges.push(e@), ..before@ }));
    }

    /// Takes in a macro: an identifier in front of a parenthesis counts as a
    /// call, which may suppress a finding and never create one.
    fn record_tokens(&mut self, tokens: &Vec<Token>)
        requires
            old(self).ready(),
        ensures
            final(self).ready(),
            final(self).file == old(self).file,
            final(self)@ == (RustWalkView {
                edges: old(self)@.edges + macro_calls(
                    old(self).facts(),
                    old(self)@.frames,
                    views(tokens@),
                ).0,
                ..old(self)@
            }),
    {
        let ghost start = *self;
        let ghost f = self.facts();
        let ghost frames = self@.frames;
        let ghost all = views(tokens@);
        let mut before: Option<(&str, usize)> = None;
        let mut i: usize = 0;
        proof {
            assert(start@.edges + Seq::<EdgeView>::empty() =~= start@.edges);
            assert(all.take(0) =~= Seq::<TokenView>::empty());
        }
        while i < tokens.len()
            invariant
                0 <= i <= tokens@.len(),
                self.ready(),
                self.file == start.file,
                f == start.facts(),
                frames == start@.frames,
                all == views(tokens@),
                self@ == (RustWalkView {
                    edges: start@.edges + macro_calls(f, frames, all.take(i as int)).0,
                    ..start@
                }),
                match before {
                    Some((n, l)) => macro_calls(f, frames, all.take(i as int)).1 == Some(
                        (n@, l as nat),
                    ),
                    None => macro_calls(f, frames, all.take(i as int)).1 is None,
                },
            decreases tokens@.len() - i,
        {
            let ghost so_far = macro_calls(f, frames, all.take(i as int)).0;
            proof {
                assert(all.take(i + 1).drop_last() =~= all.take(i as int));
                assert(all.take(i + 1).last() == tokens@[i as int]@);
            }
            match &tokens[i] {
                Token::Ident(name, line) => {
                    before = Some((name.as_str(), *line));
                },
                Token::Open(brackets) => {
                    if *brackets == Brackets::Round {
                        if let Some((name, line)) = before {
                            self.record_edge(name, line, EdgeKind::MacroToken);
                            proof {
                                let e = rust_edge(f, frames, name@, line as nat, EdgeKind::MacroToken);
                                assert((start@.edges + so_far).push(e) =~= start@.edges
                                    + so_far.push(e));
                            }
                        }
                    }
                    before = None;
                },
                Token::Close => {
                    before = None;
                },
                Token::Punct(_) => {
                    before = None;
                },
                Token::Literal(_) => {
                    before = None;
                },
            }
            i += 1;
        }
        assert(all.take(all.len() as int) =~= all);
    }

    fn enter(&mut self, frame: Frame)
        requires
            old(self).ready(),
        ensures
            final(self).ready(),
            final(self).file == old(self).file,
            final(self)@ == (RustWalkView {
                frames: old(self)@.frames.push(frame.view()),
                ..old(self)@
            }),
    {
        let ghost before = *self;
        proof {
            crate::seqs::map_push(self.frames@, |x: Frame| x.view(), frame);
        }
        self.frames.push(frame);
        assert(self@ =~= (RustWalkView { frames: before@.frames.push(frame.view()), ..before@ }));
    }

    /// Takes in an event.
    fn visit(&mut self, e: &Event)
        requires
            old(self).ready(),
        ensures
            final(self).ready(),
            final(self).file == old(self).file,
            final(self)@ == after_event(old(self).facts(), old(self)@, e@),
    {
        let ghost before = *self;
        match e {
            Event::Mod(name, attrs) => {
                self.enter(Frame::Mod(name.clone(), has_cfg_test(attrs)));
            },
            Event::Impl(of, ty) => {
                let name = match last_of(ty) {
                    Some(s) => Some(s.name.clone()),
                    None => None,
                };
                self.enter(Frame::Impl(of.is_some(), name));
            },
            Event::Fn(d) => {
                self.record_def(d);
                let test = has_test_attr(&d.attrs) || has_cfg_test(&d.attrs);
                self.enter(Frame::Fn(d.name.clone(), test));
            },
            Event::Method(d) => {
                self.record_def(d);
                self.enter(Frame::Fn(d.name.clone(), false));
            },
            Event::Leave => {
                let n: usize = self.frames.len();
                if n > 0 {
                    self.frames.pop();
                    assert(frames_view(self.frames@) =~= frames_view(before.frames@).drop_last());
                    assert(self@ =~= after_event(before.facts(), before@, e@));
                }
            },
            Event::Use(vis) => {
                self.enter(Frame::Use(*vis == Vis::Public));
            },
            Event::Import(name) => {
                if self.reexports() {
                    self.reexported.insert(name.as_str());
                }
                assert(self@ =~= after_event(before.facts(), before@, e@));
            },
            Event::Rename(name, other) => {
                if self.reexports() {
                    self.reexported.insert(other.as_str());
                    self.reexported.insert(name.as_str());
                }
                assert(self@ =~= after_event(before.facts(), before@, e@));
            },
            Event::Macro(tokens) => {
                self.record_tokens(tokens);
            },
            Event::Call(path) => {
                if let Some(s) = last_of(path) {
                    self.record_edge(s.name.as_str(), s.line, EdgeKind::Call);
                }
            },
            Event::MethodCall(name, line) => {
                self.record_edge(name.as_str(), *line, EdgeKind::MethodCall);
            },
        }
    }
}

/// Nothing was found yet.
pub open spec fn nothing() -> RustWalkView {
    RustWalkView { definitions: seq![], edges: seq![], reexported: Set::empty(), frames: seq![] }
}

/// The walk over files.
pub open spec fn after_files(files: Seq<RustFile>) -> RustWalkView
    decreases files.len(),
{
    if files.len() == 0 {
        nothing()
    } else {
        after_events(
            files.last().facts(),
            views(files.last().events@),
            after_files(files.drop_last()),
        )
    }
}

/// The frontend that reads Rust syntax.
pub struct SynFrontend;

/// What the files define and call.
pub open spec fn rust_extract(files: Seq<RustFile>, roots: Seq<Seq<char>>) -> ExtractView {
    ExtractView {
        definitions: after_files(files).definitions,
        edges: after_files(files).edges,
        reexported: after_files(files).reexported,
        crate_roots: roots,
    }
}

impl Frontend for SynFrontend {
    open spec fn called(&self) -> Seq<char> {
        "syn"@
    }

    open spec fn best(&self) -> Precision {
        Precision::Nominal
    }

    open spec fn yields(&self, input: Input) -> Result<ExtractView, Seq<char>> {
        Ok(rust_extract(input.rust@, texts(input.rust_roots@)))
    }

    fn name(&self) -> (r: &'static str) {
        "syn"
    }

    fn precision(&self) -> (r: Precision) {
        Precision::Nominal
    }

    fn extract(&self, input: &Input) -> (r: Result<Extract, String>) {
        Ok(self.read(&input.rust, crate::text::copy_all(&input.rust_roots)))
    }
}

impl SynFrontend {
    /// What the files define and call.
    pub fn read(&self, files: &Vec<RustFile>, roots: Vec<String>) -> (r: Extract)
        ensures
            r@ == rust_extract(files@, texts(roots@)),
    {
        let mut definitions: Vec<Definition> = Vec::new();
        let mut edges: Vec<Edge> = Vec::new();
        let mut reexported = NameSet::new();
        let mut i: usize = 0;
        proof {
            assert(views(definitions@) =~= seq![]);
            assert(views(edges@) =~= seq![]);
            assert(files@.take(0) =~= Seq::<RustFile>::empty());
        }
        while i < files.len()
            invariant
                0 <= i <= files@.len(),
                views(definitions@) == after_files(files@.take(i as int)).definitions,
                views(edges@) == after_files(files@.take(i as int)).edges,
                reexported@ == after_files(files@.take(i as int)).reexported,
            decreases files@.len() - i,
        {
            let file = &files[i];
            let ghost start = after_files(files@.take(i as int));
            proof {
                assert(files@.take(i + 1).drop_last() =~= files@.take(i as int));
                assert(files@.take(i + 1).last() == *file);
            }
            let modules = file_module_path(file.path.as_str(), file.crate_root.as_str());
            let mut v = FileVisitor {
                file,
                modules,
                definitions,
                edges,
                reexported,
                frames: Vec::new(),
            };
            let ghost f = file.facts();
            let ghost all = views(file.events@);
            let mut k: usize = 0;
            proof {
                assert(frames_view(v.frames@) =~= seq![]);
                assert(v@ =~= after_events(f, all.take(0), start));
            }
            while k < file.events.len()
                invariant
                    0 <= k <= file.events@.len(),
                    f == file.facts(),
                    all == views(file.events@),
                    v.file == file,
                    v.ready(),
                    v@ == after_events(f, all.take(k as int), start),
                decreases file.events@.len() - k,
            {
                proof {
                    assert(all.take(k + 1).drop_last() =~= all.take(k as int));
                    assert(all.take(k + 1).last() == file.events@[k as int]@);
                }
                v.visit(&file.events[k]);
                k += 1;
            }
            assert(all.take(all.len() as int) =~= all);
            definitions = v.definitions;
            edges = v.edges;
            reexported = v.reexported;
            i += 1;
        }
        assert(files@.take(files@.len() as int) =~= files@);
        Extract { definitions, edges, reexported, crate_roots: roots }
    }
}

// ---------------------------------------------------------------------------
// What holds of every file
// ---------------------------------------------------------------------------

proof fn test_holds_inside(f: RustFileView, frames: Seq<FrameView>)
    requires
        f.in_test,
    ensures
        inside_test(f, frames),
    decreases frames.len(),
{
    if frames.len() > 0 {
        test_holds_inside(f, frames.drop_last());
    }
}

proof fn test_tokens_in_test(f: RustFileView, frames: Seq<FrameView>, tokens: Seq<TokenView>)
    requires
        f.in_test,
    ensures
        forall|i: int|
            0 <= i < macro_calls(f, frames, tokens).0.len() ==> (#[trigger] macro_calls(
                f,
                frames,
                tokens,
            ).0[i]).in_test,
    decreases tokens.len(),
{
    if tokens.len() > 0 {
        test_tokens_in_test(f, frames, tokens.drop_last());
        test_holds_inside(f, frames);
    }
}

/// All that stands in a test file is test code: its definitions and the calls
/// that it makes.
pub proof fn test_files_are_test_code(f: RustFileView, events: Seq<EventView>, start: RustWalkView)
    requires
        f.in_test,
    ensures
        forall|i: int|
            start.definitions.len() <= i < after_events(f, events, start).definitions.len()
                ==> (#[trigger] after_events(f, events, start).definitions[i]).in_test,
        forall|i: int|
            start.edges.len() <= i < after_events(f, events, start).edges.len() ==> (
            #[trigger] after_events(f, events, start).edges[i]).in_test,
        after_events(f, events, start).definitions.len() >= start.definitions.len(),
        after_events(f, events, start).edges.len() >= start.edges.len(),
    decreases events.len(),
{
    if events.len() > 0 {
        let before = after_events(f, events.drop_last(), start);
        let now = after_events(f, events, start);
        test_files_are_test_code(f, events.drop_last(), start);
        test_holds_inside(f, before.frames);
        if let EventView::Macro(tokens) = events.last() {
            test_tokens_in_test(f, before.frames, tokens);
        }
        assert forall|i: int| start.definitions.len() <= i < now.definitions.len() implies (
        #[trigger] now.definitions[i]).in_test by {
            if i < before.definitions.len() {
                assert(now.definitions[i] == before.definitions[i]);
            }
        }
        assert forall|i: int| start.edges.len() <= i < now.edges.len() implies (
        #[trigger] now.edges[i]).in_test by {
            if i < before.edges.len() {
                assert(now.edges[i] == before.edges[i]);
            }
        }
    }
}

proof fn tokens_are_nominal(f: RustFileView, frames: Seq<FrameView>, tokens: Seq<TokenView>)
    ensures
        forall|i: int|
            0 <= i < macro_calls(f, frames, tokens).0.len() ==> (#[trigger] macro_calls(
                f,
                frames,
                tokens,
            ).0[i]).precision == Precision::Nominal,
        forall|i: int|
            0 <= i < macro_calls(f, frames, tokens).0.len() ==> (#[trigger] macro_calls(
                f,
                frames,
                tokens,
            ).0[i]).kind == EdgeKind::MacroToken,
    decreases tokens.len(),
{
    if tokens.len() > 0 {
        tokens_are_nominal(f, frames, tokens.drop_last());
    }
}

/// Syntax gives names and nothing more: no definition and no call of a Rust
/// file is resolved beyond its name.
pub proof fn rust_syntax_is_nominal(f: RustFileView, events: Seq<EventView>, start: RustWalkView)
    ensures
        after_events(f, events, start).definitions.len() >= start.definitions.len(),
        after_events(f, events, start).edges.len() >= start.edges.len(),
        forall|i: int|
            start.definitions.len() <= i < after_events(f, events, start).definitions.len() ==> (
            #[trigger] after_events(f, events, start).definitions[i]).precision
                == Precision::Nominal,
        forall|i: int|
            start.edges.len() <= i < after_events(f, events, start).edges.len() ==> (
            #[trigger] after_events(f, events, start).edges[i]).precision == Precision::Nominal,
    decreases events.len(),
{
    if events.len() > 0 {
        let before = after_events(f, events.drop_last(), start);
        let now = after_events(f, events, start);
        rust_syntax_is_nominal(f, events.drop_last(), start);
        if let EventView::Macro(tokens) = events.last() {
            tokens_are_nominal(f, before.frames, tokens);
        }
        assert forall|i: int| start.definitions.len() <= i < now.definitions.len() implies (
        #[trigger] now.definitions[i]).precision == Precision::Nominal by {
            if i < before.definitions.len() {
                assert(now.definitions[i] == before.definitions[i]);
            }
        }
        assert forall|i: int| start.edges.len() <= i < now.edges.len() implies (
        #[trigger] now.edges[i]).precision == Precision::Nominal by {
            if i < before.edges.len() {
                assert(now.edges[i] == before.edges[i]);
            }
        }
    }
}

} // verus!
