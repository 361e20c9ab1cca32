//! Whose calls a compiler's dump shows, and which definitions they meet.

use vstd::prelude::*;

use crate::frontend::mir_dump::arguments_of;
use crate::frontend::mir_dump::failure_text;
use crate::frontend::mir_dump::failures_of;
use crate::frontend::mir_dump::first_errors;
use crate::frontend::mir_dump::gathered;
use crate::frontend::mir_dump::selector;
use crate::frontend::mir_dump::selectors_of;
use crate::frontend::mir_dump::tells_error;
use crate::frontend::mir_dump::RunView;
use crate::frontend::mir_frontend::after_line;
use crate::frontend::mir_frontend::call_on;
use crate::frontend::mir_frontend::closure_owner;
use crate::frontend::mir_frontend::dump_of;
use crate::frontend::mir_frontend::header;
use crate::frontend::mir_frontend::merged;
use crate::frontend::mir_frontend::promoted;
use crate::frontend::mir_frontend::same_function;
use crate::frontend::mir_frontend::test_caller;
use crate::frontend::mir_frontend::DumpView;
use crate::frontend::mir_frontend::MirDefView;
use crate::ir::DefinitionView;
use crate::ir::EdgeKind;
use crate::ir::ExtractView;
use crate::ir::Precision;
use crate::ir::SymbolView;
use crate::laws::dumps::name_of;
use crate::laws::dumps::names_are_trimmed;
use crate::laws::dumps::no_mark_in_a_path;
use crate::laws::dumps::spelled;
use crate::laws::texts::cut_at_the_first;
use crate::laws::texts::nothing_to_cut;
use crate::laws::texts::one_character_stands;
use crate::laws::texts::parts_are_found;
use crate::laws::texts::trimming_keeps_the_rest;
use crate::targets::Kind;
use crate::targets::TargetView;
use crate::targets::WorkspaceView;
use crate::text::begins;
use crate::text::ends;
use crate::text::join;
use crate::text::present;

verus! {

/// A header with a plain path defines what the path spells, and claims no
/// receiver.
#[verifier::rlimit(40)]
pub proof fn plain_headers_are_paths(parts: Seq<Seq<char>>, rest: Seq<char>)
    requires
        parts.len() > 0,
        forall|i: int| 0 <= i < parts.len() ==> name_of(#[trigger] parts[i]),
    ensures
        header(join(parts, "::"@) + seq!['('] + rest) == Some((spelled(parts), None::<Seq<char>>)),
{
    reveal_strlit("::");
    reveal_strlit("(");
    reveal_strlit("{");
    reveal_strlit("}");
    reveal_strlit("<");
    reveal_strlit("<impl at ");
    assert("("@ =~= seq!['(']);
    assert("{"@ =~= seq!['{']);
    assert("}"@ =~= seq!['}']);
    assert("<"@ =~= seq!['<']);
    let t = join(parts, "::"@);
    no_mark_in_a_path(parts, '(');
    no_mark_in_a_path(parts, '{');
    no_mark_in_a_path(parts, '}');
    no_mark_in_a_path(parts, '<');
    cut_at_the_first(t, '(', rest);
    assert(name_of(parts[0]) && name_of(parts.last()));
    names_are_trimmed(parts[0]);
    names_are_trimmed(parts.last());
    trimming_keeps_the_rest(t);
    nothing_to_cut(t, '{');
    nothing_to_cut(t, '}');
    crate::laws::texts::a_missing_character_rules_out(t, "<"@, 0);
    crate::laws::texts::a_missing_character_rules_out(t, "<impl at "@, 0);
    assert forall|i: int| 0 <= i < parts.len() implies !(#[trigger] parts[i]).contains("::"@[0]) by {
        crate::laws::dumps::names_hold_no_mark(parts[i], ':');
    }
    crate::laws::texts::splitting_undoes_joining_with(parts, "::"@);
    crate::laws::texts::full_pieces_stay(parts);
    if parts.len() > 1 {
        let over = parts.drop_last();
        assert(over.last() == parts[parts.len() - 2]);
        assert(name_of(over.last()));
    }
}

/// A function that is defined is the one that a call of the same path names.
pub proof fn functions_are_defined_as_they_are_called(parts: Seq<Seq<char>>, rest: Seq<char>)
    requires
        parts.len() > 0,
        forall|i: int| 0 <= i < parts.len() ==> name_of(#[trigger] parts[i]),
    ensures
        header(join(parts, "::"@) + seq!['('] + rest) matches Some((s, _))
            && crate::frontend::mir_frontend::target(join(parts, "::"@)) == Some(s),
{
    plain_headers_are_paths(parts, rest);
    crate::laws::dumps::paths_are_read(parts);
}

/// A function whose path holds a brace is none that a call site can name.
pub proof fn braced_functions_define_nothing(a: Seq<char>, c: char, b: Seq<char>, rest: Seq<char>)
    requires
        c == '{' || c == '}',
        !a.contains('('),
        !b.contains('('),
        a.len() > 0,
        b.len() > 0,
        !crate::text::white(a[0]),
        !crate::text::white(b.last()),
    ensures
        header(a + seq![c] + b + seq!['('] + rest) is None,
{
    reveal_strlit("(");
    reveal_strlit("{");
    reveal_strlit("}");
    assert("("@ =~= seq!['(']);
    assert("{"@ =~= seq!['{']);
    assert("}"@ =~= seq!['}']);
    let t = a + seq![c] + b;
    assert(!t.contains('(')) by {
        if t.contains('(') {
            let i = choose|i: int| 0 <= i < t.len() && t[i] == '(';
            if i < a.len() {
                assert(a[i] == '(');
            } else if i > a.len() {
                assert(b[i - a.len() - 1] == '(');
            }
        }
    }
    cut_at_the_first(t, '(', rest);
    assert(t[0] == a[0] && t.last() == b.last());
    trimming_keeps_the_rest(t);
    one_character_stands(t, c, a.len() as int);
    assert(t[a.len() as int] == c);
}

// ---------------------------------------------------------------------------
// Line by line
// ---------------------------------------------------------------------------

/// A header that is understood adds its definition, and the lines below it are
/// its body. One that is not owns its lines all the same: they are nobody's.
pub proof fn a_header_owns_what_follows(d: DumpView, rest: Seq<char>)
    requires
        !present(rest, "::{closure"@),
    ensures
        ({
            let after = after_line(d, "fn "@ + rest);
            &&& after.edges == d.edges
            &&& (header(rest) matches Some((id, ty)) ==> after.definitions == d.definitions.push(
                MirDefView { id, self_ty: ty },
            ) && after.current == Some(id))
            &&& header(rest) is None ==> after.definitions == d.definitions && after.current is None
        }),
{
    let line = "fn "@ + rest;
    parts_are_found("fn "@, rest, rest);
    assert(line.skip("fn "@.len() as int) =~= rest);
    no_closure_in_a_part(rest);
}

proof fn no_closure_in_a_part(rest: Seq<char>)
    requires
        !present(rest, "::{closure"@),
    ensures
        closure_owner(crate::text::trimmed(crate::text::before(rest, "("@))) is None,
{
    let n = "::{closure"@;
    let head = crate::text::before(rest, "("@);
    let t = crate::text::trimmed(head);
    crate::text::first_from_is_first(t, n, 0);
    if let Some(i) = crate::text::first(t, n) {
        crate::laws::texts::trimmed_stands_within(head);
        let k = crate::laws::texts::place_of_trimmed(head);
        crate::text::first_from_is_first(rest, "("@, 0);
        assert(rest.subrange(k + i, k + i + n.len()) =~= t.subrange(i, i + n.len()));
        assert(crate::text::occurs_at(rest, n, k + i));
    }
}

/// A line of a body that is a call adds one call, of the function whose body it
/// is; in nobody's body it adds none. It says nothing of tests or places.
pub proof fn calls_belong_to_the_header_above(d: DumpView, line: Seq<char>)
    requires
        !begins(line, "fn "@),
    ensures
        ({
            let after = after_line(d, line);
            &&& after.definitions == d.definitions
            &&& after.current == d.current
            &&& (d.current matches Some(from) ==> (call_on(line) matches Some(to) ==> ({
                let e = after.edges.last();
                &&& after.edges.len() == d.edges.len() + 1
                &&& after.edges.drop_last() == d.edges
                &&& e.from == from
                &&& e.to == to
                &&& e.kind == EdgeKind::Call
            })))
            &&& d.current is None ==> after.edges == d.edges
            &&& call_on(line) is None ==> after.edges == d.edges
        }),
{
    let after = after_line(d, line);
    if d.current is Some && call_on(line) is Some {
        assert(after.edges.drop_last() =~= d.edges);
    }
}

proof fn a_closure_holds_no_parenthesis(t: Seq<char>, rest: Seq<char>)
    requires
        !t.contains('('),
        !rest.contains('('),
    ensures
        !(t + "::{closure"@ + rest).contains('('),
{
    reveal_strlit("::{closure");
    let n = "::{closure"@;
    let head = t + n + rest;
    if head.contains('(') {
        let i = choose|i: int| 0 <= i < head.len() && head[i] == '(';
        if i < t.len() {
            assert(t[i] == '(');
        } else if i < t.len() + n.len() {
            let k = i - t.len();
            assert(head[i] == n[k]);
            assert(k == 0 || k == 1 || k == 2 || k == 3 || k == 4 || k == 5 || k == 6 || k == 7
                || k == 8 || k == 9);
        } else {
            assert(rest[i - t.len() - n.len()] == '(');
        }
    }
}

proof fn a_closure_is_cut_off(t: Seq<char>, rest: Seq<char>)
    requires
        !t.contains('{'),
    ensures
        crate::text::first(t + "::{closure"@ + rest, "::{closure"@) == Some(t.len() as int),
{
    reveal_strlit("::{closure");
    let n = "::{closure"@;
    let head = t + n + rest;
    assert(n[0] == ':' && n[1] == ':' && n[2] == '{');
    assert forall|j: int| 0 <= j < t.len() implies !#[trigger] crate::text::occurs_at(head, n, j) by {
        if crate::text::occurs_at(head, n, j) {
            assert(head.subrange(j, j + n.len())[2] == head[j + 2]);
            if j + 2 < t.len() {
                assert(t[j + 2] == '{');
            } else {
                assert(head[j + 2] == n[j + 2 - t.len()]);
            }
        }
    }
    parts_are_found(t, n, rest);
    crate::laws::texts::first_one_stands(head, n, t.len() as int);
}

proof fn closures_name_their_owner(parts: Seq<Seq<char>>, rest: Seq<char>)
    requires
        parts.len() > 0,
        forall|i: int| 0 <= i < parts.len() ==> name_of(#[trigger] parts[i]),
        !rest.contains('('),
        rest.len() > 0,
        !crate::text::white(rest.last()),
    ensures
        ({
            let head = join(parts, "::"@) + "::{closure"@ + rest;
            &&& !head.contains('(')
            &&& crate::text::trimmed(head) == head
            &&& closure_owner(head) == Some(join(parts, "::"@))
        }),
{
    let t = join(parts, "::"@);
    let head = t + "::{closure"@ + rest;
    no_mark_in_a_path(parts, '(');
    no_mark_in_a_path(parts, '{');
    a_closure_holds_no_parenthesis(t, rest);
    a_closure_is_cut_off(t, rest);
    assert(name_of(parts[0]) && name_of(parts.last()));
    names_are_trimmed(parts[0]);
    names_are_trimmed(parts.last());
    assert(head[0] == t[0] && head.last() == rest.last());
    trimming_keeps_the_rest(head);
    trimming_keeps_the_rest(t);
    assert(head.take(t.len() as int) =~= t);
}

/// What the body of a closure calls is called by the function that wrote it;
/// the closure itself is no definition.
#[verifier::rlimit(40)]
pub proof fn closures_belong_to_their_function(
    d: DumpView,
    parts: Seq<Seq<char>>,
    rest: Seq<char>,
    more: Seq<char>,
)
    requires
        parts.len() > 0,
        forall|i: int| 0 <= i < parts.len() ==> name_of(#[trigger] parts[i]),
        !rest.contains('('),
        rest.len() > 0,
        !crate::text::white(rest.last()),
    ensures
        ({
            let line = "fn "@ + (join(parts, "::"@) + "::{closure"@ + rest + seq!['('] + more);
            let after = after_line(d, line);
            &&& after.definitions == d.definitions
            &&& after.edges == d.edges
            &&& after.current == Some(spelled(parts))
        }),
{
    let t = join(parts, "::"@);
    let tail = t + "::{closure"@ + rest + seq!['('] + more;
    let line = "fn "@ + tail;
    assert(begins(line, "fn "@) && line.skip("fn "@.len() as int) == tail) by {
        parts_are_found("fn "@, tail, tail);
        assert(line.skip("fn "@.len() as int) =~= tail);
    }
    a_closure_line_has_an_owner(parts, rest, more);
    an_owner_is_a_header(parts);
}

proof fn a_closure_line_has_an_owner(parts: Seq<Seq<char>>, rest: Seq<char>, more: Seq<char>)
    requires
        parts.len() > 0,
        forall|i: int| 0 <= i < parts.len() ==> name_of(#[trigger] parts[i]),
        !rest.contains('('),
        rest.len() > 0,
        !crate::text::white(rest.last()),
    ensures
        closure_owner(
            crate::text::trimmed(
                crate::text::before(
                    join(parts, "::"@) + "::{closure"@ + rest + seq!['('] + more,
                    "("@,
                ),
            ),
        ) == Some(join(parts, "::"@)),
{
    closures_name_their_owner(parts, rest);
    assert("("@ == seq!['(']) by {
        reveal_strlit("(");
        assert("("@ =~= seq!['(']);
    }
    cut_at_the_first(join(parts, "::"@) + "::{closure"@ + rest, '(', more);
}

proof fn an_owner_is_a_header(parts: Seq<Seq<char>>)
    requires
        parts.len() > 0,
        forall|i: int| 0 <= i < parts.len() ==> name_of(#[trigger] parts[i]),
    ensures
        header(join(parts, "::"@) + "()"@) == Some((spelled(parts), None::<Seq<char>>)),
{
    let t = join(parts, "::"@);
    assert(t + "()"@ == t + seq!['('] + seq![')']) by {
        reveal_strlit("()");
        assert(t + "()"@ =~= t + seq!['('] + seq![')']);
    }
    plain_headers_are_paths(parts, seq![')']);
}

/// A dump is read line by line, from nothing.
pub proof fn dumps_are_read_line_by_line(lines: Seq<Seq<char>>, line: Seq<char>)
    ensures
        dump_of(lines.push(line)) == after_line(dump_of(lines), line),
        dump_of(seq![]).definitions.len() == 0,
        dump_of(seq![]).edges.len() == 0,
        dump_of(seq![]).current is None,
{
    assert(lines.push(line).drop_last() =~= lines);
    assert(lines.push(line).last() == line);
}

// ---------------------------------------------------------------------------
// With the source
// ---------------------------------------------------------------------------

/// A definition of the dump is that of the source where name and type agree,
/// or name and module, the dump having the last segments of the module; by its
/// name alone it is none.
pub proof fn definitions_are_matched(
    m: MirDefView,
    d: DefinitionView,
    over: Seq<char>,
    path: Seq<char>,
)
    ensures
        m.id.name != d.id.name ==> !same_function(m, d),
        m.id.name == d.id.name && m.id.self_ty is Some ==> (same_function(m, d) <==> d.self_ty
            == m.id.self_ty),
        m.id.name == d.id.name && m.id.self_ty is None && m.id.path == Some(path) && d.module
            == Some(path) ==> same_function(m, d),
        m.id.name == d.id.name && m.id.self_ty is None && m.id.path == Some(path) && d.module
            == Some(over + "::"@ + path) ==> same_function(m, d),
        m.id.self_ty is None && m.id.path is Some && d.module is None ==> !same_function(m, d),
        m.id.self_ty is None && m.id.path == Some(path) && (d.module matches Some(full) && full
            != path && !ends(full, "::"@ + path)) ==> !same_function(m, d),
        m.id.self_ty is None && m.id.path is None ==> !same_function(m, d),
{
    let tail = "::"@ + path;
    assert(over + "::"@ + path =~= over + tail);
    parts_are_found(over, tail, tail);
}

/// A definition takes the symbol of the first in the dump that it is, and is
/// then known by more than its name; nothing else of it changes. One that the
/// dump does not have stays as it is.
pub proof fn definitions_take_their_symbols(ms: Seq<MirDefView>, d: DefinitionView, k: int)
    ensures
        0 <= k < ms.len() && same_function(ms[k], d) && (forall|j: int|
            0 <= j < k ==> !same_function(#[trigger] ms[j], d)) ==> promoted(ms, d) == (
        DefinitionView { id: ms[k].id, precision: Precision::Typed, ..d }),
        (forall|j: int| 0 <= j < ms.len() ==> !same_function(#[trigger] ms[j], d)) ==> promoted(
            ms,
            d,
        ) == d,
    decreases ms.len(),
{
    if ms.len() > 0 {
        let rest = ms.skip(1);
        definitions_take_their_symbols(rest, d, k - 1);
        assert forall|j: int| 0 <= j < rest.len() implies #[trigger] rest[j] == ms[j + 1] by {}
        if 0 < k < ms.len() {
            assert(rest[k - 1] == ms[k]);
        }
    }
}

/// The source keeps its definitions, one for one, and the calls are those of
/// the dump, one for one; a call is one of a test exactly where all that may
/// make it is test code.
pub proof fn the_dump_gives_the_calls(base: ExtractView, dump: DumpView, i: int)
    ensures
        ({
            let all = merged(base, dump);
            &&& all.definitions.len() == base.definitions.len()
            &&& 0 <= i < base.definitions.len() ==> all.definitions[i] == promoted(
                dump.definitions,
                base.definitions[i],
            )
            &&& all.edges.len() == dump.edges.len()
            &&& 0 <= i < dump.edges.len() ==> all.edges[i].from == dump.edges[i].from
                && all.edges[i].to == dump.edges[i].to && all.edges[i].kind == dump.edges[i].kind
                && all.edges[i].in_test == test_caller(dump.edges[i].from, all.definitions)
            &&& all.reexported == base.reexported
            &&& all.crate_roots == base.crate_roots
        }),
{
}

/// A caller is a test where one definition may be it and all that may be are
/// test code: one of production suffices to make it production.
pub proof fn a_caller_is_a_test_only_for_sure(
    from: SymbolView,
    defs: Seq<DefinitionView>,
    i: int,
)
    ensures
        0 <= i < defs.len() && defs[i].id.name == from.name && (from.self_ty is None
            || defs[i].self_ty == from.self_ty) && !defs[i].in_test && !defs[i].is_test_fn
            ==> !test_caller(from, defs),
        (forall|j: int|
            0 <= j < defs.len() ==> (#[trigger] defs[j]).id.name != from.name || (from.self_ty
                is Some && defs[j].self_ty != from.self_ty)) ==> !test_caller(from, defs),
        0 <= i < defs.len() && defs[i].id.name == from.name && (from.self_ty is None
            || defs[i].self_ty == from.self_ty) && (forall|j: int|
            0 <= j < defs.len() && (#[trigger] defs[j]).id.name == from.name ==> defs[j].in_test
                || defs[j].is_test_fn) ==> test_caller(from, defs),
{
    if 0 <= i < defs.len() && defs[i].id.name == from.name && (from.self_ty is None
        || defs[i].self_ty == from.self_ty) {
        assert(crate::frontend::mir_frontend::may_be(defs[i], from));
    }
}

// ---------------------------------------------------------------------------
// Cargo
// ---------------------------------------------------------------------------

/// What ships is compiled, a library as one and any other as the program of
/// its name; where cargo knows of none, whatever it takes by itself.
pub proof fn what_ships_is_compiled(w: WorkspaceView, t: TargetView, sel: Seq<Seq<char>>, i: int)
    ensures
        t.kind == Kind::Lib ==> selector(t) == seq!["-p"@, t.package, "--lib"@],
        t.kind == Kind::Bin ==> selector(t) == seq!["-p"@, t.package, "--bin"@, t.name],
        0 <= i < w.targets.len() && (w.targets[i].kind == Kind::Bin || w.targets[i].kind
            == Kind::Lib) ==> selectors_of(w).contains(selector(w.targets[i])),
        (forall|k: int|
            0 <= k < w.targets.len() ==> (#[trigger] w.targets[k]).kind != Kind::Bin
                && w.targets[k].kind != Kind::Lib) ==> selectors_of(w) == seq![
            Seq::<Seq<char>>::empty(),
        ],
        arguments_of(sel) == seq!["+nightly"@, "rustc"@, "--profile"@, "test"@] + sel + seq![
            "--"@,
            "-Zunpretty=mir"@,
        ],
{
    let keep = |x: TargetView| crate::targets::ships(x);
    let told = |x: TargetView| selector(x);
    let kept = w.targets.filter(keep);
    let all = kept.map_values(told);
    if 0 <= i < w.targets.len() && (w.targets[i].kind == Kind::Bin || w.targets[i].kind
        == Kind::Lib) {
        assert(w.targets.contains(w.targets[i]));
        crate::seqs::filter_members(w.targets, keep, w.targets[i]);
        let k = choose|k: int| 0 <= k < kept.len() && kept[k] == w.targets[i];
        assert(all[k] == selector(w.targets[i]));
        assert(selectors_of(w) == all);
    }
    if forall|k: int|
        0 <= k < w.targets.len() ==> (#[trigger] w.targets[k]).kind != Kind::Bin
            && w.targets[k].kind != Kind::Lib {
        if kept.len() > 0 {
            assert(kept.contains(kept[0]));
            crate::seqs::filter_members(w.targets, keep, kept[0]);
            let k = choose|k: int| 0 <= k < w.targets.len() && w.targets[k] == kept[0];
            assert(w.targets[k].kind != Kind::Bin);
        }
        assert(all.len() == 0);
    }
}

/// What the runs that succeed print is put together, a line end behind each,
/// and what the others say is told, one for one.
pub proof fn runs_are_put_together(runs: Seq<RunView>, r: RunView)
    ensures
        r.success ==> gathered(runs.push(r)) == gathered(runs) + r.stdout + "\n"@,
        !r.success ==> gathered(runs.push(r)) == gathered(runs),
        !r.success ==> failures_of(runs.push(r)) == failures_of(runs).push(failure_text(r)),
        r.success ==> failures_of(runs.push(r)) == failures_of(runs),
        gathered(seq![]) == Seq::<char>::empty(),
        failure_text(r) == "  "@ + join(r.selector, " "@) + ": "@ + join(
            first_errors(crate::text::lines_of(r.stderr)),
            " / "@,
        ),
{
    let more = runs.push(r);
    assert(more.drop_last() =~= runs);
    assert(more.last() == r);
    let failed = |x: RunView| !x.success;
    let told = |x: RunView| failure_text(x);
    reveal(Seq::filter);
    assert(more.filter(failed) == if failed(r) {
        runs.filter(failed).push(r)
    } else {
        runs.filter(failed)
    });
    if !r.success {
        assert(gathered(more) =~= gathered(runs));
        crate::seqs::map_push(runs.filter(failed), told, r);
    } else {
        assert(gathered(more) =~= gathered(runs) + r.stdout + "\n"@);
    }
}

/// Of what a failed run said the first two errors are kept, and only errors.
pub proof fn the_first_two_errors_are_kept(lines: Seq<Seq<char>>)
    ensures
        ({
            let errors = lines.filter(|l: Seq<char>| begins(l, "error"@) || present(l, "error["@));
            first_errors(lines) == (if errors.len() < 2 {
                errors
            } else {
                errors.take(2)
            })
        }),
    decreases lines.len(),
{
    reveal(Seq::filter);
    let keep = |l: Seq<char>| begins(l, "error"@) || present(l, "error["@);
    let errors = lines.filter(keep);
    if lines.len() > 0 {
        let less = lines.drop_last();
        the_first_two_errors_are_kept(less);
        let before = less.filter(keep);
        assert(errors == if keep(lines.last()) {
            before.push(lines.last())
        } else {
            before
        });
        assert(keep(lines.last()) == tells_error(lines.last()));
        if errors.len() >= 2 && before.len() >= 2 {
            assert(errors.take(2) =~= before.take(2));
        } else if errors.len() >= 2 {
            assert(errors.take(2) =~= errors);
        }
    } else {
        assert(errors =~= seq![]);
    }
}

/// A call is known as far as what it calls is: resolved by type or by module,
/// or by its name alone.
pub proof fn calls_are_known_as_far_as_their_target(base: ExtractView, dump: DumpView, i: int)
    requires
        0 <= i < dump.edges.len(),
        dump.edges[i].to.krate is None,
    ensures
        merged(base, dump).edges[i].precision == (if dump.edges[i].to.self_ty is Some
            || dump.edges[i].to.path is Some {
            Precision::Typed
        } else {
            Precision::Nominal
        }),
{
}

/// A run that fails says what is to be done about it.
pub proof fn errors_tell_their_reason(dir: String, why: String)
    ensures
        crate::frontend::mir_dump::error_text(
            crate::frontend::mir_dump::PreciseError::NoManifest(dir),
        ) == "--precise needs a cargo crate: no Cargo.toml at "@ + dir@
            + ".\nMIR comes from the compiler, so there must be something to compile."@,
        crate::frontend::mir_dump::error_text(
            crate::frontend::mir_dump::PreciseError::CargoDidNotRun(why),
        ) == "could not run cargo: "@ + why@,
{
}

/// What runs print is a dump where it holds a function; blank, it is nothing,
/// and the failures are told; and anything else is no dump.
pub proof fn runs_come_to_a_dump(
    runs: Seq<RunView>,
    r: Result<String, crate::frontend::mir_dump::PreciseError>,
)
    requires
        crate::frontend::mir_dump::comes_of(runs, r),
    ensures
        r matches Ok(t) ==> t@ == gathered(runs) && present(t@, "fn "@),
        crate::text::trimmed(gathered(runs)).len() == 0 ==> r is Err,
        crate::text::trimmed(gathered(runs)).len() > 0 && present(gathered(runs), "fn "@) ==> r
            is Ok,
        r matches Err(crate::frontend::mir_dump::PreciseError::NothingProduced(f)) ==>
            crate::text::texts(f@) == failures_of(runs) && crate::text::trimmed(
            gathered(runs),
        ).len() == 0,
{
}

/// Nothing is run without a manifest, nor without the toolchain, and the first
/// is told first.
pub proof fn plans_need_a_manifest_and_a_toolchain(
    dir: Seq<char>,
    has_manifest: bool,
    has_nightly: bool,
    w: WorkspaceView,
    r: Result<Vec<Vec<String>>, crate::frontend::mir_dump::PreciseError>,
)
    requires
        crate::frontend::mir_dump::planned(dir, has_manifest, has_nightly, w, r),
    ensures
        has_manifest && has_nightly <==> r is Ok,
        !has_manifest ==> (r matches Err(crate::frontend::mir_dump::PreciseError::NoManifest(d))
            && d@ == dir),
        has_manifest && !has_nightly ==> r matches Err(
            crate::frontend::mir_dump::PreciseError::NoNightly,
        ),
        r matches Ok(v) ==> crate::frontend::mir_dump::text_lists(v@) == selectors_of(w),
{
}

/// There is one selection for each target that ships.
pub proof fn each_target_is_selected_once(w: WorkspaceView)
    ensures
        ({
            let ships = w.targets.filter(
                |t: TargetView| t.kind == Kind::Bin || t.kind == Kind::Lib,
            );
            &&& ships.len() > 0 ==> selectors_of(w).len() == ships.len()
            &&& ships.len() == 0 ==> selectors_of(w).len() == 1
        }),
{
    let p = |t: TargetView| crate::targets::ships(t);
    let q = |t: TargetView| t.kind == Kind::Bin || t.kind == Kind::Lib;
    crate::laws::pages::same_filter(w.targets, p, q);
}

} // verus!
