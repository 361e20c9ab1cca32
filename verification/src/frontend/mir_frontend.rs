//! Compiler-resolved frontend: reads the textual MIR of a crate.
//!
//! Syntax cannot tell `A::process` from `B::process`; MIR has been through
//! name resolution and type checking, so a call site names its target:
//!
//! ```text
//! fn main() -> () {
//!     _2 = A::process(move _3) -> [return: bb1, unwind continue];
//! }
//! ```
//!
//! The dump names a free function by the shortest path that tells it apart,
//! so what is read is typed at best, never resolved.

use vstd::prelude::*;

use crate::frontend::syn_frontend::rust_extract;
use crate::frontend::syn_frontend::SynFrontend;
use crate::ir::opt;
use crate::ir::views;
use crate::ir::Definition;
use crate::ir::DefinitionView;
use crate::ir::Edge;
use crate::ir::EdgeKind;
use crate::ir::EdgeView;
use crate::ir::Extract;
use crate::ir::ExtractView;
use crate::ir::Frontend;
use crate::ir::Input;
use crate::ir::Precision;
use crate::ir::SymbolId;
use crate::ir::SymbolView;
use crate::text::after_last;
use crate::text::alphanumeric;
use crate::text::before;
use crate::text::begins;
use crate::text::chars_of;
use crate::text::cut;
use crate::text::cut_once;
use crate::text::head_before;
use crate::text::join;
use crate::text::join_pieces;
use crate::text::lines;
use crate::text::lines_of;
use crate::text::no_prefixes;
use crate::text::non_empty;
use crate::text::pieces;
use crate::text::present;
use crate::text::same;
use crate::text::split;
use crate::text::split_non_empty;
use crate::text::starts_with;
use crate::text::string_of;
use crate::text::tail_after_last;
use crate::text::trim;
use crate::text::trim_start;
use crate::text::trimmed;
use crate::text::trimmed_start;
use crate::text::uppercase;

verus! {

// ---------------------------------------------------------------------------
// Names
// ---------------------------------------------------------------------------

/// Letters, digits and underscores, no digit in front.
pub open spec fn ident(s: Seq<char>) -> bool {
    &&& s.len() > 0
    &&& forall|i: int| 0 <= i < s.len() ==> alphanumeric(#[trigger] s[i]) || s[i] == '_'
    &&& !('0' <= s[0] <= '9')
}

pub open spec fn all_idents(parts: Seq<Seq<char>>) -> bool {
    forall|i: int| 0 <= i < parts.len() ==> ident(#[trigger] parts[i])
}

pub open spec fn capitalised(s: Seq<char>) -> bool {
    s.len() > 0 && uppercase(s[0])
}

/// The symbol that a path names: a capitalised last qualifier is a type, any
/// other qualifiers are modules. Nothing where a segment is no identifier.
pub open spec fn path_symbol(parts: Seq<Seq<char>>) -> Option<SymbolView> {
    if parts.len() == 0 || !all_idents(parts) {
        None
    } else {
        let name = parts.last();
        let over = parts.drop_last();
        if over.len() == 0 {
            Some(SymbolView::bare(name))
        } else if capitalised(over.last()) {
            Some(SymbolView { self_ty: Some(over.last()), ..SymbolView::bare(name) })
        } else {
            Some(SymbolView { path: Some(join(over, "::"@)), ..SymbolView::bare(name) })
        }
    }
}

/// The symbol that the last segment alone names: what stands before it is a
/// generic receiver, which is no type to claim.
pub open spec fn last_segment_symbol(t: Seq<char>) -> Option<SymbolView> {
    let name = trimmed(after_last(t, "::"@));
    if ident(name) {
        Some(SymbolView::bare(name))
    } else {
        None
    }
}

/// The symbol that a call target names. A turbofish is no part of it.
pub open spec fn target(raw: Seq<char>) -> Option<SymbolView> {
    let t = before(trimmed(raw), "::<"@);
    if trimmed(raw).len() == 0 {
        None
    } else if begins(t, "<"@) {
        last_segment_symbol(t)
    } else {
        path_symbol(non_empty(split(t, "::"@)))
    }
}

/// The model of an optional symbol.
pub open spec fn symbol(s: Option<SymbolId>) -> Option<SymbolView> {
    match s {
        Some(t) => Some(t@),
        None => None,
    }
}

fn starts_upper(s: &[char]) -> (r: bool)
    ensures
        r == capitalised(s@),
{
    s.len() > 0 && s[0].is_uppercase()
}

fn valid_ident(s: &[char]) -> (r: bool)
    ensures
        r == ident(s@),
{
    let len: usize = s.len();
    if len == 0 {
        return false;
    }
    let mut i: usize = 0;
    while i < len
        invariant
            0 <= i <= len,
            len == s@.len(),
            forall|k: int| 0 <= k < i ==> alphanumeric(#[trigger] s@[k]) || s@[k] == '_',
        decreases len - i,
    {
        let c = s[i];
        if !(c.is_alphanumeric() || c == '_') {
            return false;
        }
        i += 1;
    }
    !('0' <= s[0] && s[0] <= '9')
}

fn read_path(parts: Vec<&[char]>) -> (r: Option<SymbolId>)
    ensures
        symbol(r) == path_symbol(pieces(parts@)),
{
    let ghost all = pieces(parts@);
    let mut i: usize = 0;
    while i < parts.len()
        invariant
            0 <= i <= parts@.len(),
            all == pieces(parts@),
            forall|k: int| 0 <= k < i ==> ident(#[trigger] all[k]),
        decreases parts@.len() - i,
    {
        assert(all[i as int] == parts@[i as int]@);
        if !valid_ident(parts[i]) {
            return None;
        }
        i += 1;
    }
    let mut over = parts;
    match over.pop() {
        None => None,
        Some(last) => {
            let ghost rest = pieces(over@);
            proof {
                assert(rest =~= all.drop_last());
                assert(last@ == all.last());
            }
            let name = string_of(last);
            let n: usize = over.len();
            if n == 0 {
                return Some(SymbolId::nominal(name.as_str()));
            }
            proof {
                assert(rest.last() == over@[n - 1]@);
            }
            if starts_upper(over[n - 1]) {
                Some(SymbolId::typed(name.as_str(), string_of(over[n - 1]).as_str()))
            } else {
                Some(SymbolId::in_module(name.as_str(), join_pieces(&over, "::").as_str()))
            }
        },
    }
}

fn read_last_segment(t: &[char]) -> (r: Option<SymbolId>)
    ensures
        symbol(r) == last_segment_symbol(t@),
{
    let name = trim(tail_after_last(t, "::"));
    if valid_ident(name) {
        Some(SymbolId::nominal(string_of(name).as_str()))
    } else {
        None
    }
}

fn read_target(raw: &[char]) -> (r: Option<SymbolId>)
    ensures
        symbol(r) == target(raw@),
{
    let t = trim(raw);
    if t.len() == 0 {
        return None;
    }
    let t = head_before(t, "::<");
    if starts_with(t, "<") {
        return read_last_segment(t);
    }
    proof {
        reveal_strlit("::");
    }
    read_path(split_non_empty(t, "::"))
}

/// The symbol that a call target names, with every qualifier that the dump
/// gives it.
pub fn parse_target(raw: &str) -> (r: Option<SymbolId>)
    ensures
        symbol(r) == target(raw@),
{
    let c = chars_of(raw);
    read_target(&c)
}

// ---------------------------------------------------------------------------
// Headers
// ---------------------------------------------------------------------------

/// The type of the first parameter: the receiver of a method.
pub open spec fn receiver(sig: Seq<char>) -> Option<Seq<char>> {
    match cut(sig, "("@) {
        None => None,
        Some((_, inner)) => match cut(before(before(inner, ")"@), ","@), ":"@) {
            None => None,
            Some((_, ty)) => {
                let bare = trimmed(no_prefixes(no_prefixes(trimmed(ty), "&"@), "mut "@));
                let name = trimmed(before(before(bare, "<"@), " "@));
                if ident(name) {
                    Some(name)
                } else {
                    None
                }
            },
        },
    }
}

fn receiver_type(sig: &[char]) -> (r: Option<String>)
    ensures
        opt(r) == receiver(sig@),
{
    match cut_once(sig, "(") {
        None => None,
        Some((_, inner)) => {
            let first = head_before(head_before(inner, ")"), ",");
            match cut_once(first, ":") {
                None => None,
                Some((_, ty)) => {
                    let bare = trim(
                        crate::text::drop_prefixes(
                            crate::text::drop_prefixes(trim(ty), "&"),
                            "mut ",
                        ),
                    );
                    let name = trim(head_before(head_before(bare, "<"), " "));
                    if valid_ident(name) {
                        Some(string_of(name))
                    } else {
                        None
                    }
                },
            }
        },
    }
}

/// The symbol and the receiver type that a header after `fn ` defines.
/// Nothing for what no call site can name: a symbol that was made up would
/// orphan all that it calls.
pub open spec fn header(h: Seq<char>) -> Option<(SymbolView, Option<Seq<char>>)> {
    let self_ty = receiver(h);
    let head = trimmed(before(h, "("@));
    if present(head, "{"@) || present(head, "}"@) {
        None
    } else if begins(head, "<impl at "@) {
        match (last_segment_symbol(head.skip("<impl at "@.len() as int)), self_ty) {
            (Some(s), Some(ty)) => Some(
                (SymbolView { self_ty: Some(ty), ..SymbolView::bare(s.name) }, Some(ty)),
            ),
            _ => None,
        }
    } else if begins(head, "<"@) {
        match last_segment_symbol(head) {
            Some(s) => Some((s, self_ty)),
            None => None,
        }
    } else {
        match path_symbol(non_empty(split(head, "::"@))) {
            Some(s) => Some((s, None)),
            None => None,
        }
    }
}

/// The model of what a header defines.
pub open spec fn header_view(r: Option<(SymbolId, Option<String>)>) -> Option<
    (SymbolView, Option<Seq<char>>),
> {
    match r {
        Some((id, ty)) => Some((id@, opt(ty))),
        None => None,
    }
}

fn read_definition(h: &[char]) -> (r: Option<(SymbolId, Option<String>)>)
    ensures
        header_view(r) == header(h@),
{
    let self_ty = receiver_type(h);
    let head = trim(head_before(h, "("));
    if crate::text::contains(head, "{") || crate::text::contains(head, "}") {
        return None;
    }
    if let Some(rest) = crate::text::strip_prefix(head, "<impl at ") {
        return match (read_last_segment(rest), self_ty) {
            (Some(s), Some(ty)) => Some(
                (SymbolId::typed(s.name.as_str(), ty.as_str()), Some(ty)),
            ),
            _ => None,
        };
    }
    if starts_with(head, "<") {
        return match read_last_segment(head) {
            Some(s) => Some((s, self_ty)),
            None => None,
        };
    }
    proof {
        reveal_strlit("::");
    }
    match read_path(split_non_empty(head, "::")) {
        Some(s) => Some((s, None)),
        None => None,
    }
}

/// The symbol and the receiver type that a header after `fn ` defines.
pub fn parse_definition(h: &str) -> (r: Option<(SymbolId, Option<String>)>)
    ensures
        header_view(r) == header(h@),
{
    let c = chars_of(h);
    read_definition(&c)
}

// ---------------------------------------------------------------------------
// Calls
// ---------------------------------------------------------------------------

/// What a line calls: it is a terminator that assigns to a local and names
/// the blocks that follow. An annotation of an inlined scope is no call.
pub open spec fn call_on(line: Seq<char>) -> Option<SymbolView> {
    let t = trimmed_start(line);
    if begins(t, "scope "@) || begins(t, "/"@) || !begins(t, "_"@) || !present(t, ") -> ["@) {
        None
    } else {
        match cut(t, " = "@) {
            None => None,
            Some((_, rhs)) => target(before(rhs, "("@)),
        }
    }
}

fn read_call(line: &[char]) -> (r: Option<SymbolId>)
    ensures
        symbol(r) == call_on(line@),
{
    let t = trim_start(line);
    if starts_with(t, "scope ") || starts_with(t, "/") {
        return None;
    }
    if !starts_with(t, "_") || !crate::text::contains(t, ") -> [") {
        return None;
    }
    match cut_once(t, " = ") {
        None => None,
        Some((_, rhs)) => read_target(head_before(rhs, "(")),
    }
}

/// What a line of a dump calls, where it is a call.
pub fn parse_call(line: &str) -> (r: Option<SymbolId>)
    ensures
        symbol(r) == call_on(line@),
{
    let c = chars_of(line);
    read_call(&c)
}

// ---------------------------------------------------------------------------
// Dumps
// ---------------------------------------------------------------------------

/// A definition in a dump.
#[verifier::ext_equal]
pub struct MirDefView {
    pub id: SymbolView,
    pub self_ty: Option<Seq<char>>,
}

#[derive(Debug)]
pub struct MirDef {
    pub id: SymbolId,
    /// Receiver type as the header spells it.
    pub self_ty: Option<String>,
}

impl View for MirDef {
    type V = MirDefView;

    open spec fn view(&self) -> MirDefView {
        MirDefView { id: self.id@, self_ty: opt(self.self_ty) }
    }
}

/// What a dump holds, and whose body its last line stands in.
#[verifier::ext_equal]
pub struct DumpView {
    pub definitions: Seq<MirDefView>,
    pub edges: Seq<EdgeView>,
    pub current: Option<SymbolView>,
}

pub struct Parsed {
    pub definitions: Vec<MirDef>,
    pub edges: Vec<Edge>,
}

/// The function that wrote a closure. The closure itself can be called by
/// nobody; what its body calls is called by that function.
pub open spec fn closure_owner(head: Seq<char>) -> Option<Seq<char>> {
    match cut(head, "::{closure"@) {
        Some((owner, _)) => if trimmed(owner).len() > 0 {
            Some(trimmed(owner))
        } else {
            None
        },
        None => None,
    }
}

fn closure_parent<'a>(head: &'a [char]) -> (r: Option<&'a [char]>)
    ensures
        match r {
            Some(p) => closure_owner(head@) == Some(p@),
            None => closure_owner(head@) is None,
        },
{
    match cut_once(head, "::{closure") {
        Some((owner, _)) => {
            let owner = trim(owner);
            if owner.len() > 0 {
                Some(owner)
            } else {
                None
            }
        },
        None => None,
    }
}

/// A call that a dump shows.
pub open spec fn mir_edge(from: SymbolView, to: SymbolView) -> EdgeView {
    EdgeView {
        from,
        to,
        kind: EdgeKind::Call,
        precision: Precision::Typed,
        in_test: false,
        file: ""@,
        line: 0,
    }
}

/// The dump after one more line. A header that is not understood owns the
/// lines up to the next one: to credit them to the function before would make
/// calls up.
pub open spec fn after_line(d: DumpView, line: Seq<char>) -> DumpView {
    if begins(line, "fn "@) {
        let rest = line.skip("fn "@.len() as int);
        match closure_owner(trimmed(before(rest, "("@))) {
            Some(owner) => DumpView {
                current: match header(owner + "()"@) {
                    Some((id, _)) => Some(id),
                    None => None,
                },
                ..d
            },
            None => match header(rest) {
                Some((id, self_ty)) => DumpView {
                    definitions: d.definitions.push(MirDefView { id, self_ty }),
                    current: Some(id),
                    ..d
                },
                None => DumpView { current: None, ..d },
            },
        }
    } else {
        match (d.current, call_on(line)) {
            (Some(from), Some(to)) => DumpView { edges: d.edges.push(mir_edge(from, to)), ..d },
            _ => d,
        }
    }
}

/// What the lines of a dump hold.
pub open spec fn dump_of(lines: Seq<Seq<char>>) -> DumpView
    decreases lines.len(),
{
    if lines.len() == 0 {
        DumpView { definitions: seq![], edges: seq![], current: None }
    } else {
        after_line(dump_of(lines.drop_last()), lines.last())
    }
}

/// What a dump defines and calls.
pub fn parse(mir: &str) -> (r: Parsed)
    ensures
        views(r.definitions@) == dump_of(lines_of(mir@)).definitions,
        views(r.edges@) == dump_of(lines_of(mir@)).edges,
{
    let text = chars_of(mir);
    let list = lines(&text);
    let ghost all = pieces(list@);
    let mut definitions: Vec<MirDef> = Vec::new();
    let mut edges: Vec<Edge> = Vec::new();
    let mut current: Option<SymbolId> = None;
    let mut i: usize = 0;
    proof {
        assert(views(definitions@) =~= seq![]);
        assert(views(edges@) =~= seq![]);
        assert(all.take(0) =~= Seq::<Seq<char>>::empty());
    }
    while i < list.len()
        invariant
            0 <= i <= list@.len(),
            all == pieces(list@),
            views(definitions@) == dump_of(all.take(i as int)).definitions,
            views(edges@) == dump_of(all.take(i as int)).edges,
            symbol(current) == dump_of(all.take(i as int)).current,
        decreases list@.len() - i,
    {
        let line = list[i];
        let ghost d = dump_of(all.take(i as int));
        proof {
            assert(all[i as int] == line@);
            assert(all.take(i + 1).drop_last() =~= all.take(i as int));
            assert(all.take(i + 1).last() == line@);
        }
        if let Some(rest) = crate::text::strip_prefix(line, "fn ") {
            let head = trim(head_before(rest, "("));
            if let Some(owner) = closure_parent(head) {
                let mut shape = string_of(owner);
                shape.append("()");
                current = match parse_definition(shape.as_str()) {
                    Some((id, _)) => Some(id),
                    None => None,
                };
            } else {
                match read_definition(rest) {
                    Some((id, self_ty)) => {
                        current = Some(id.copy());
                        let def = MirDef { id, self_ty };
                        proof {
                            crate::seqs::map_push(definitions@, |x: MirDef| x@, def);
                        }
                        definitions.push(def);
                    },
                    None => {
                        current = None;
                    },
                }
            }
        } else if let Some(from) = &current {
            if let Some(to) = read_call(line) {
                let e = Edge {
                    from: from.copy(),
                    to,
                    kind: EdgeKind::Call,
                    precision: Precision::Typed,
                    in_test: false,
                    file: "".to_owned(),
                    line: 0,
                };
                proof {
                    crate::seqs::map_push(edges@, |x: Edge| x@, e);
                }
                edges.push(e);
            }
        }
        i += 1;
    }
    assert(all.take(all.len() as int) =~= all);
    Parsed { definitions, edges }
}

// ---------------------------------------------------------------------------
// With what the source says
// ---------------------------------------------------------------------------

/// The definition may be the caller, as far as the symbol tells.
pub open spec fn may_be(d: DefinitionView, from: SymbolView) -> bool {
    d.id.name == from.name && (from.self_ty is Some ==> d.self_ty == from.self_ty)
}

/// All definitions that may be the caller are test code, and there is one.
/// What the symbol leaves open counts as production: to take a production
/// call for one of a test removes a real caller and can invent a finding.
pub open spec fn test_caller(from: SymbolView, defs: Seq<DefinitionView>) -> bool {
    &&& exists|i: int| 0 <= i < defs.len() && may_be(#[trigger] defs[i], from)
    &&& forall|i: int|
        0 <= i < defs.len() && may_be(#[trigger] defs[i], from) ==> defs[i].in_test
            || defs[i].is_test_fn
}

fn same_opt(a: &Option<String>, b: &Option<String>) -> (r: bool)
    ensures
        r == (opt(*a) == opt(*b)),
{
    match (a, b) {
        (Some(x), Some(y)) => same(x.as_str(), y.as_str()),
        (None, None) => true,
        _ => false,
    }
}

/// Whether a caller is test code. MIR does not know; the source does.
pub fn caller_is_test(from: &SymbolId, defs: &[Definition]) -> (r: bool)
    ensures
        r == test_caller(from@, views(defs@)),
{
    let ghost all = views(defs@);
    let len: usize = defs.len();
    let mut found: bool = false;
    let mut i: usize = 0;
    while i < len
        invariant
            0 <= i <= len,
            len == defs@.len(),
            all == views(defs@),
            found == exists|k: int| 0 <= k < i && may_be(#[trigger] all[k], from@),
            forall|k: int|
                0 <= k < i && may_be(#[trigger] all[k], from@) ==> all[k].in_test
                    || all[k].is_test_fn,
        decreases len - i,
    {
        let d = &defs[i];
        assert(all[i as int] == d@);
        if same(d.name(), from.name.as_str()) && (from.self_ty.is_none() || same_opt(
            &d.self_ty,
            &from.self_ty,
        )) {
            assert(may_be(all[i as int], from@));
            if !d.in_test && !d.is_test_fn {
                return false;
            }
            found = true;
        } else {
            assert(!may_be(all[i as int], from@));
        }
        i += 1;
    }
    found
}

/// A definition of the dump is the one in the source. The dump spells the
/// shortest path that tells a function apart, so its modules are the last of
/// those that the source has. A bare name in the dump may be claimed by none.
pub open spec fn same_function(m: MirDefView, d: DefinitionView) -> bool {
    m.id.name == d.id.name && match (m.id.self_ty, m.id.path) {
        (Some(_), _) => d.self_ty == m.id.self_ty,
        (None, Some(p)) => match d.module {
            Some(full) => full == p || crate::text::ends(full, "::"@ + p),
            None => false,
        },
        (None, None) => false,
    }
}

/// The symbol that the dump gives a definition of the source.
pub open spec fn promotion(ms: Seq<MirDefView>, d: DefinitionView) -> Option<SymbolView>
    decreases ms.len(),
{
    if ms.len() == 0 {
        None
    } else if same_function(ms[0], d) {
        Some(ms[0].id)
    } else {
        promotion(ms.skip(1), d)
    }
}

pub open spec fn promoted(ms: Seq<MirDefView>, d: DefinitionView) -> DefinitionView {
    match promotion(ms, d) {
        Some(id) => DefinitionView { id, precision: Precision::Typed, ..d },
        None => d,
    }
}

/// A call of the dump with what the source says of its caller.
pub open spec fn placed_edge(e: EdgeView, defs: Seq<DefinitionView>) -> EdgeView {
    EdgeView { in_test: test_caller(e.from, defs), precision: e.to.precision(), ..e }
}

/// What the source says, keyed as the dump keys it, with the calls of the
/// dump and no others: a call of the source is keyed by a name alone, and would
/// bring back what the dump tells apart.
pub open spec fn merged(base: ExtractView, dump: DumpView) -> ExtractView {
    let defs = base.definitions.map_values(
        |d: DefinitionView| promoted(dump.definitions, d),
    );
    ExtractView {
        definitions: defs,
        edges: dump.edges.map_values(|e: EdgeView| placed_edge(e, defs)),
        ..base
    }
}

fn is_same_function(m: &MirDef, d: &Definition) -> (r: bool)
    ensures
        r == same_function(m@, d@),
{
    if !same(m.id.name.as_str(), d.name()) {
        return false;
    }
    match (&m.id.self_ty, &m.id.path) {
        (Some(_), _) => same_opt(&d.self_ty, &m.id.self_ty),
        (None, Some(p)) => match &d.module {
            Some(full) => {
                let mut suffix = "::".to_owned();
                suffix.append(p.as_str());
                let c = chars_of(full.as_str());
                same(full.as_str(), p.as_str()) || crate::text::ends_with(&c, suffix.as_str())
            },
            None => false,
        },
        (None, None) => false,
    }
}

fn promote(ms: &Vec<MirDef>, d: Definition) -> (r: Definition)
    ensures
        r@ == promoted(views(ms@), d@),
{
    let ghost all = views(ms@);
    let mut i: usize = 0;
    proof {
        assert(all.skip(0) =~= all);
    }
    while i < ms.len()
        invariant
            0 <= i <= ms@.len(),
            all == views(ms@),
            promotion(all, d@) == promotion(all.skip(i as int), d@),
        decreases ms@.len() - i,
    {
        proof {
            assert(all.skip(i as int)[0] == ms@[i as int]@);
            assert(all.skip(i as int).skip(1) =~= all.skip(i + 1));
        }
        if is_same_function(&ms[i], &d) {
            let mut r = d;
            r.id = ms[i].id.copy();
            r.precision = Precision::Typed;
            return r;
        }
        i += 1;
    }
    d
}

fn promote_all(ms: &Vec<MirDef>, defs: Vec<Definition>) -> (r: Vec<Definition>)
    ensures
        views(r@) == views(defs@).map_values(|d: DefinitionView| promoted(views(ms@), d)),
{
    let ghost all = views(defs@);
    let ghost f = |d: DefinitionView| promoted(views(ms@), d);
    let mut r: Vec<Definition> = Vec::new();
    for d in it: defs
        invariant
            all == views(it.seq()),
            f == (|d: DefinitionView| promoted(views(ms@), d)),
            views(r@) == all.take(it.index() as int).map_values(f),
    {
        let ghost n = it.index() as int;
        let ghost so_far = r@;
        proof {
            assert(all[n] == d@);
            assert(all.take(n + 1) =~= all.take(n).push(d@));
            crate::seqs::map_push(all.take(n), f, d@);
        }
        let p = promote(ms, d);
        proof {
            crate::seqs::map_push(so_far, |x: Definition| x@, p);
        }
        r.push(p);
    }
    assert(all.take(all.len() as int) =~= all);
    r
}

/// The frontend that reads MIR beside the source.
pub struct MirFrontend;

impl Frontend for MirFrontend {
    open spec fn called(&self) -> Seq<char> {
        "mir"@
    }

    open spec fn best(&self) -> Precision {
        Precision::Typed
    }

    open spec fn yields(&self, input: Input) -> Result<ExtractView, Seq<char>> {
        match input.mir {
            Some(mir) => Ok(
                merged(
                    rust_extract(input.rust@, crate::text::texts(input.rust_roots@)),
                    dump_of(lines_of(mir@)),
                ),
            ),
            None => Err("--precise was given no MIR to read"@),
        }
    }

    fn name(&self) -> (r: &'static str) {
        "mir"
    }

    fn precision(&self) -> (r: Precision) {
        Precision::Typed
    }

    fn extract(&self, input: &Input) -> (r: Result<Extract, String>) {
        match &input.mir {
            Some(mir) => {
                let base = SynFrontend.read(
                    &input.rust,
                    crate::text::copy_all(&input.rust_roots),
                );
                Ok(self.combine(base, mir.as_str()))
            },
            None => Err("--precise was given no MIR to read".to_owned()),
        }
    }
}

impl MirFrontend {
    /// What the source says, keyed and resolved as its MIR has it. MIR knows
    /// what calls what, but neither visibility nor attributes nor lines.
    pub fn combine(&self, base: Extract, mir: &str) -> (r: Extract)
        ensures
            r@ == merged(base@, dump_of(lines_of(mir@))),
    {
        merge(base, parse(mir), Ghost(dump_of(lines_of(mir@))))
    }
}

fn merge(base: Extract, parsed: Parsed, Ghost(dump): Ghost<DumpView>) -> (r: Extract)
    requires
        views(parsed.definitions@) == dump.definitions,
        views(parsed.edges@) == dump.edges,
    ensures
        r@ == merged(base@, dump),
{
    let definitions = promote_all(&parsed.definitions, base.definitions);
    let ghost defs = views(definitions@);
    let mut edges: Vec<Edge> = Vec::new();
    let ghost own = |e: EdgeView| placed_edge(e, defs);
    let ghost found = views(parsed.edges@);
    let mut i: usize = 0;
    proof {
        assert(views(edges@) =~= found.take(0).map_values(own));
    }
    while i < parsed.edges.len()
        invariant
            0 <= i <= parsed.edges@.len(),
            found == views(parsed.edges@),
            defs == views(definitions@),
            own == (|e: EdgeView| placed_edge(e, defs)),
            views(edges@) == found.take(i as int).map_values(own),
        decreases parsed.edges@.len() - i,
    {
        let e = &parsed.edges[i];
        let ghost so_far = edges@;
        let mut copy = copy_edge(e);
        copy.in_test = caller_is_test(&e.from, definitions.as_slice());
        copy.precision = e.to.precision();
        proof {
            assert(found[i as int] == e@);
            assert(found.take(i + 1) =~= found.take(i as int).push(e@));
            crate::seqs::map_push(found.take(i as int), own, e@);
            crate::seqs::map_push(so_far, |x: Edge| x@, copy);
        }
        edges.push(copy);
        i += 1;
    }
    assert(found.take(found.len() as int) =~= found);
    Extract {
        definitions,
        edges,
        reexported: base.reexported,
        crate_roots: base.crate_roots,
    }
}

fn copy_edge(e: &Edge) -> (r: Edge)
    ensures
        r@ == e@,
{
    Edge {
        from: e.from.copy(),
        to: e.to.copy(),
        kind: e.kind,
        precision: e.precision,
        in_test: e.in_test,
        file: e.file.clone(),
        line: e.line,
    }
}

// ---------------------------------------------------------------------------
// What holds of every dump
// ---------------------------------------------------------------------------

/// A path never claims to be resolved by the compiler.
pub proof fn targets_are_never_resolved(raw: Seq<char>)
    ensures
        target(raw) matches Some(s) ==> s.precision() != Precision::Resolved,
        header(raw) matches Some(h) ==> h.0.precision() != Precision::Resolved,
{
}

/// Nothing that a dump yields claims to be resolved.
pub proof fn dumps_are_never_resolved(lines: Seq<Seq<char>>)
    ensures
        forall|i: int|
            0 <= i < dump_of(lines).definitions.len() ==> (#[trigger] dump_of(
                lines,
            ).definitions[i]).id.precision() != Precision::Resolved,
        forall|i: int|
            0 <= i < dump_of(lines).edges.len() ==> (#[trigger] dump_of(
                lines,
            ).edges[i]).to.precision() != Precision::Resolved,
    decreases lines.len(),
{
    if lines.len() > 0 {
        dumps_are_never_resolved(lines.drop_last());
        let before_it = dump_of(lines.drop_last());
        let line = lines.last();
        targets_are_never_resolved(line.skip("fn "@.len() as int));
        if let Some((_, rhs)) = cut(trimmed_start(line), " = "@) {
            targets_are_never_resolved(before(rhs, "("@));
        }
        let now = dump_of(lines);
        assert forall|i: int| 0 <= i < now.definitions.len() implies (
        #[trigger] now.definitions[i]).id.precision() != Precision::Resolved by {
            if i < before_it.definitions.len() {
                assert(now.definitions[i] == before_it.definitions[i]);
            }
        }
        assert forall|i: int| 0 <= i < now.edges.len() implies (
        #[trigger] now.edges[i]).to.precision() != Precision::Resolved by {
            if i < before_it.edges.len() {
                assert(now.edges[i] == before_it.edges[i]);
            }
        }
    }
}

proof fn promotion_from_dump(ms: Seq<MirDefView>, d: DefinitionView)
    requires
        forall|i: int|
            0 <= i < ms.len() ==> (#[trigger] ms[i]).id.precision() != Precision::Resolved,
    ensures
        promotion(ms, d) matches Some(id) ==> id.precision() != Precision::Resolved,
    decreases ms.len(),
{
    if ms.len() > 0 {
        let rest = ms.skip(1);
        assert forall|i: int| 0 <= i < rest.len() implies (#[trigger] rest[i]).id.precision()
            != Precision::Resolved by {
            assert(rest[i] == ms[i + 1]);
        }
        promotion_from_dump(rest, d);
    }
}

/// A precise scan labels no definition as resolved that the source did not.
pub proof fn precise_is_never_resolved(base: ExtractView, lines: Seq<Seq<char>>, i: int)
    requires
        0 <= i < base.definitions.len(),
        base.definitions[i].id.precision() != Precision::Resolved,
        base.definitions[i].precision != Precision::Resolved,
    ensures
        merged(base, dump_of(lines)).definitions[i].id.precision() != Precision::Resolved,
        merged(base, dump_of(lines)).definitions[i].precision != Precision::Resolved,
{
    dumps_are_never_resolved(lines);
    promotion_from_dump(dump_of(lines).definitions, base.definitions[i]);
}

/// Identity is never guessed: a definition that no definition of the dump
/// corresponds to stays as the source has it.
pub proof fn unmatched_definitions_stay(ms: Seq<MirDefView>, d: DefinitionView)
    requires
        forall|i: int| 0 <= i < ms.len() ==> !same_function(#[trigger] ms[i], d),
    ensures
        promoted(ms, d) == d,
    decreases ms.len(),
{
    if ms.len() > 0 {
        let rest = ms.skip(1);
        assert(!same_function(ms[0], d));
        assert forall|i: int| 0 <= i < rest.len() implies !same_function(#[trigger] rest[i], d) by {
            assert(rest[i] == ms[i + 1]);
        }
        unmatched_definitions_stay(rest, d);
    }
}

/// The calls are those of the dump, each with the caller and the target that
/// the dump gives it; whether one is made in test code the source says.
pub proof fn calls_come_from_the_dump(base: ExtractView, dump: DumpView)
    ensures
        merged(base, dump).edges.len() == dump.edges.len(),
        forall|i: int|
            0 <= i < dump.edges.len() ==> {
                let e = #[trigger] merged(base, dump).edges[i];
                e.from == dump.edges[i].from && e.to == dump.edges[i].to && e.in_test
                    == test_caller(dump.edges[i].from, merged(base, dump).definitions)
            },
{
}

/// What the symbol of a caller leaves open counts as production: one
/// definition outside test code that it may mean is enough.
pub proof fn doubt_is_production(from: SymbolView, defs: Seq<DefinitionView>, i: int)
    requires
        0 <= i < defs.len(),
        may_be(defs[i], from),
        !defs[i].in_test,
        !defs[i].is_test_fn,
    ensures
        !test_caller(from, defs),
{
}

} // verus!
