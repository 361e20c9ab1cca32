//! What the models say of the values: the model of a value holds what its
//! fields hold, each under its own name.

use vstd::prelude::*;

use crate::baseline::Entry;
use crate::baseline::Fingerprint;
use crate::changes::TouchedFile;
use crate::config::Config;
use crate::findings::Finding;
use crate::frontend::mir_dump::Run;
use crate::frontend::rust_syntax::path_view;
use crate::frontend::rust_syntax::Attr;
use crate::frontend::rust_syntax::Event;
use crate::frontend::rust_syntax::EventView;
use crate::frontend::rust_syntax::Function;
use crate::frontend::rust_syntax::Segment;
use crate::frontend::rust_syntax::Token;
use crate::frontend::rust_syntax::TokenView;
use crate::frontend::syntax::SyntaxNode;
use crate::impact::TestFunction;
use crate::ir::opt;
use crate::ir::views;
use crate::ir::Definition;
use crate::ir::Edge;
use crate::ir::Extract;
use crate::ir::SymbolId;
use crate::project::SourceTree;
use crate::project::TreeFile;
use crate::regions::Region;
use crate::report::Rule;
use crate::report::SarifResult;
use crate::scan::CallSites;
use crate::scan::Scan;
use crate::source::SourceFile;
use crate::targets::CargoTarget;
use crate::targets::Metadata;
use crate::targets::Package;
use crate::targets::Target;
use crate::targets::Workspace;
use crate::text::literals;
use crate::text::texts;

verus! {

/// The model of a list has an element for each of the list, in its place.
pub proof fn lists_keep_their_elements<T: View>(
    v: Seq<T>,
    s: Seq<String>,
    l: Seq<&'static str>,
    i: int,
)
    ensures
        views(v).len() == v.len(),
        0 <= i < v.len() ==> views(v)[i] == v[i]@,
        texts(s).len() == s.len(),
        0 <= i < s.len() ==> texts(s)[i] == s[i]@,
        literals(l).len() == l.len(),
        0 <= i < l.len() ==> literals(l)[i] == l[i]@,
{
}

/// The model of what may be there is there when the value is.
pub proof fn options_keep_their_values(s: Option<String>, p: Option<Vec<Segment>>)
    ensures
        (s is None) == (opt(s) is None),
        s matches Some(t) ==> opt(s) == Some(t@),
        (p is None) == (path_view(p) is None),
        p matches Some(v) ==> path_view(p) == Some(views(v@)),
{
}

/// A definition, an edge and a symbol.
pub proof fn facts_keep_their_fields(d: Definition, e: Edge, s: SymbolId, x: Extract)
    ensures
        d@.id == d.id@,
        d@.precision == d.precision,
        d@.file == d.file@,
        d@.line == d.line,
        d@.in_test == d.in_test,
        d@.is_test_fn == d.is_test_fn,
        d@.trait_impl == d.trait_impl,
        d@.allowed_dead == d.allowed_dead,
        d@.is_pub == d.is_pub,
        d@.is_ffi == d.is_ffi,
        d@.opaque == d.opaque,
        d@.crate_root == d.crate_root@,
        d@.self_ty == opt(d.self_ty),
        d@.module == opt(d.module),
        e@.from == e.from@,
        e@.to == e.to@,
        e@.kind == e.kind,
        e@.precision == e.precision,
        e@.in_test == e.in_test,
        e@.file == e.file@,
        e@.line == e.line,
        s@.name == s.name@,
        s@.self_ty == opt(s.self_ty),
        s@.krate == opt(s.krate),
        s@.path == opt(s.path),
        x@.definitions == views(x.definitions@),
        x@.edges == views(x.edges@),
        x@.reexported == x.reexported@,
        x@.crate_roots == texts(x.crate_roots@),
{
}

/// What is found and what is told of it.
pub proof fn answers_keep_their_fields(
    f: Finding,
    r: Region,
    t: TestFunction,
    u: Rule,
    s: SarifResult,
)
    ensures
        f@.name == f.name@,
        f@.file == f.file@,
        f@.line == f.line,
        f@.test_calls == f.test_calls,
        f@.examples == texts(f.examples@),
        f@.confidence == f.confidence,
        f@.prod_calls == f.prod_calls,
        r@.entry == r.entry@,
        r@.members == views(r.members@),
        r@.size == r.size,
        r@.files == texts(r.files@),
        r@.confidence == r.confidence,
        t@.key == t.key@,
        t@.file == t.file@,
        t@.line == t.line,
        t@.opaque == t.opaque,
        u@.id == u.id@,
        u@.name == u.name@,
        u@.short == u.short@,
        u@.full == u.full@,
        u@.level == u.level@,
        u@.tags == literals(u.tags@),
        s@.rule == s.rule@,
        s@.level == s.level@,
        s@.text == s.text@,
        s@.file == s.file@,
        s@.line == s.line,
        s@.fingerprint == s.fingerprint@,
{
}

/// What a scan holds.
pub proof fn scans_keep_their_fields(c: CallSites, s: Scan, k: Seq<char>)
    ensures
        c@.prod == c.prod,
        c@.test == c.test,
        c@.examples == texts(c.examples@),
        s@.defs == views(s.defs@),
        s@.calls.contains_key(k) == s.calls@.contains_key(k),
        s.calls@.contains_key(k) ==> s@.calls[k] == s.calls@[k]@,
        s@.edges == s.edges@,
        s@.guessed == s.guessed@,
        s@.all_edges == s.all_edges@,
        s@.reexported == s.reexported@,
        s@.config == s.config@,
        s@.application == s.application,
        s@.entry_points == texts(s.entry_points@),
        s@.entry_files == texts(s.entry_files@),
{
}

/// What is read: sources, trees, settings, baselines and diffs.
pub proof fn inputs_keep_their_fields(
    s: SourceFile,
    f: TreeFile,
    t: SourceTree,
    c: Config,
    e: Entry,
    p: Fingerprint,
    d: TouchedFile,
)
    ensures
        s@.path == s.path@,
        s@.text == s.text@,
        s@.in_test == s.in_test,
        f@.path == f.path@,
        f@.text == opt(f.text),
        t@.root == t.root@,
        t@.here == texts(t.here@),
        t@.above == texts(t.above@),
        t@.listing == texts(t.listing@),
        t@.files == views(t.files@),
        c@.roots == texts(c.roots@),
        c@.ignore == texts(c.ignore@),
        e@.name == e.name@,
        e@.file == e.file@,
        p@.tool_version == p.tool_version@,
        p@.config_digest == p.config_digest@,
        d@.0 == d.file@,
        d@.1 == d.lines@,
{
}

/// What is known of the packages and of the runs of the compiler.
pub proof fn packages_keep_their_fields(
    t: Target,
    w: Workspace,
    c: CargoTarget,
    p: Package,
    m: Metadata,
    r: Run,
)
    ensures
        t@.name == t.name@,
        t@.kind == t.kind,
        t@.src_path == t.src_path@,
        t@.package == t.package@,
        w@.targets == views(w.targets@),
        w@.from_cargo == w.from_cargo,
        c@.name == c.name@,
        c@.kind == texts(c.kind@),
        c@.src_path == c.src_path@,
        c@.canonical == c.canonical@,
        p@.id == p.id@,
        p@.name == p.name@,
        p@.targets == views(p.targets@),
        m@.packages == views(m.packages@),
        m@.members == texts(m.workspace_members@),
        r@.selector == texts(r.selector@),
        r@.success == r.success,
        r@.stdout == r.stdout@,
        r@.stderr == r.stderr@,
{
}

/// The nodes of a script, and the parts of a Rust file.
pub proof fn syntax_keeps_its_fields(n: SyntaxNode, a: Attr, s: Segment, f: Function)
    ensures
        n@.kind == n.kind@,
        n@.field == opt(n.field),
        n@.text == n.text@,
        n@.row == n.row,
        n@.named == n.named,
        n@.depth == n.depth,
        a@.path == texts(a.path@),
        a@.tokens == a.tokens@,
        s@.name == s.name@,
        s@.line == s.line,
        f@.name == f.name@,
        f@.line == f.line,
        f@.attrs == views(f.attrs@),
        f@.vis == f.vis,
        f@.abi == opt(f.abi),
        f@.tokens == f.tokens@,
{
}

/// The tokens of a macro, each as it stands there.
pub proof fn tokens_keep_their_fields(t: Token)
    ensures
        t matches Token::Ident(name, line) ==> t@ == TokenView::Ident(name@, line as nat),
        t matches Token::Open(b) ==> t@ == TokenView::Open(b),
        t is Close ==> t@ is Close,
        t matches Token::Punct(c) ==> t@ == TokenView::Punct(c),
        t matches Token::Literal(text) ==> t@ == TokenView::Literal(text@),
{
}

/// The steps of a walk over a Rust file, each with what it carries.
pub proof fn steps_keep_their_fields(e: Event)
    ensures
        e matches Event::Mod(name, attrs) ==> e@ == EventView::Mod(name@, views(attrs@)),
        e matches Event::Impl(of, ty) ==> e@ == EventView::Impl(path_view(of), path_view(ty)),
        e matches Event::Fn(d) ==> e@ == EventView::Fn(d@),
        e matches Event::Method(d) ==> e@ == EventView::Method(d@),
        e matches Event::Use(vis) ==> e@ == EventView::Use(vis),
        e is Leave ==> e@ is Leave,
        e matches Event::Import(name) ==> e@ == EventView::Import(name@),
        e matches Event::Rename(name, other) ==> e@ == EventView::Rename(name@, other@),
        e matches Event::Macro(tokens) ==> e@ == EventView::Macro(views(tokens@)),
        e matches Event::Call(path) ==> e@ == EventView::Call(path_view(path)),
        e matches Event::MethodCall(name, line) ==> e@ == EventView::MethodCall(name@, line as nat),
{
}

} // verus!
