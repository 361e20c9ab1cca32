//! What is read out of a compiler's dump.
//!
//! What the standard library says of characters enters as a hypothesis: a name
//! is made of characters that are neither white space nor marks of the dump.

use vstd::prelude::*;

use crate::frontend::mir_frontend::call_on;
use crate::frontend::mir_frontend::header;
use crate::frontend::mir_frontend::ident;
use crate::frontend::mir_frontend::receiver;
use crate::frontend::mir_frontend::target;
use crate::ir::SymbolView;
use crate::laws::texts::a_missing_character_rules_out;
use crate::laws::texts::cut_at_the_first;
use crate::laws::texts::cut_at_the_first_mark;
use crate::laws::texts::cut_at_the_last_mark;
use crate::laws::texts::nothing_to_cut;
use crate::laws::texts::one_character_stands;
use crate::laws::texts::parts_are_found;
use crate::laws::texts::prefixes_go;
use crate::laws::texts::trimming_keeps_the_rest;
use crate::laws::texts::trimming_takes_the_ends;
use crate::text::begins;
use crate::text::join;
use crate::text::present;
use crate::text::trimmed;
use crate::text::uppercase;
use crate::text::white;

verus! {

/// A character that names are not made of.
pub open spec fn mark(c: char) -> bool {
    ||| white(c)
    ||| c == ' '
    ||| c == '('
    ||| c == ')'
    ||| c == '{'
    ||| c == '}'
    ||| c == '<'
    ||| c == '>'
    ||| c == ','
    ||| c == ':'
    ||| c == '&'
}

/// A name as programs write it: an identifier without a mark in it.
pub open spec fn name_of(s: Seq<char>) -> bool {
    ident(s) && forall|i: int| 0 <= i < s.len() ==> !mark(#[trigger] s[i])
}

/// A space is white space, and the marks that a text can begin with are not.
pub open spec fn spaces_are_white() -> bool {
    white(' ') && !white('<') && !white('&')
}

/// The symbol of `name` on the type `ty`.
pub open spec fn on_type(s: SymbolView, name: Seq<char>, ty: Seq<char>) -> bool {
    s.name == name && s.self_ty == Some(ty) && s.krate is None && s.path is None
}

/// No mark stands in a name.
pub proof fn names_hold_no_mark(s: Seq<char>, c: char)
    requires
        name_of(s),
        mark(c),
    ensures
        !s.contains(c),
{
    if s.contains(c) {
        let i = choose|i: int| 0 <= i < s.len() && s[i] == c;
        assert(!mark(s[i]));
    }
}

/// A name has no white space to trim.
pub proof fn names_are_trimmed(s: Seq<char>)
    requires
        name_of(s),
    ensures
        s.len() > 0,
        !white(s[0]),
        !white(s.last()),
        trimmed(s) == s,
{
    assert(!mark(s[0]));
    assert(!mark(s[s.len() - 1]));
    trimming_keeps_the_rest(s);
}

/// The ways to write a receiver: by value, by reference, by mutable reference.
pub open spec fn receiver_form(form: Seq<char>) -> bool {
    form == ""@ || form == "&"@ || form == "&mut "@
}

proof fn form_has_none(form: Seq<char>, c: char)
    requires
        receiver_form(form),
        c == '(' || c == ')' || c == ',' || c == ':' || c == '<',
    ensures
        !form.contains(c),
{
    reveal_strlit("");
    reveal_strlit("&");
    reveal_strlit("&mut ");
    if form.contains(c) {
        let i = choose|i: int| 0 <= i < form.len() && form[i] == c;
        if form == "&mut "@ {
            assert(i == 0 || i == 1 || i == 2 || i == 3 || i == 4);
        }
    }
}

proof fn the_form_is_no_part_of_the_type(form: Seq<char>, ty: Seq<char>)
    requires
        spaces_are_white(),
        receiver_form(form),
        name_of(ty),
    ensures
        ({
            let bare = trimmed(
                crate::text::no_prefixes(
                    crate::text::no_prefixes(trimmed(seq![' '] + form + ty), "&"@),
                    "mut "@,
                ),
            );
            trimmed(crate::text::before(crate::text::before(bare, "<"@), " "@)) == ty
        }),
{
    reveal_strlit("");
    reveal_strlit("&");
    reveal_strlit("mut ");
    reveal_strlit("&mut ");
    reveal_strlit("<");
    reveal_strlit(" ");
    assert("&"@ =~= seq!['&']);
    assert("<"@ =~= seq!['<']);
    assert(" "@ =~= seq![' ']);
    assert("&mut "@ =~= "&"@ + "mut "@);
    names_are_trimmed(ty);
    names_hold_no_mark(ty, '&');
    names_hold_no_mark(ty, ' ');
    names_hold_no_mark(ty, '<');
    let all = form + ty;
    assert(all.last() == ty.last());
    assert(all[0] == (if form.len() == 0 {
        ty[0]
    } else {
        '&'
    }));
    assert(seq![' '] + form + ty =~= seq![' '] + all + Seq::<char>::empty());
    trimming_takes_the_ends(seq![' '], all, Seq::<char>::empty());
    a_missing_character_rules_out(ty, "&"@, 0);
    a_missing_character_rules_out(ty, "mut "@, 3);
    prefixes_go("&"@, ty);
    prefixes_go("mut "@, ty);
    let tail = "mut "@ + ty;
    prefixes_go("&"@, tail);
    assert(tail[0] == 'm');
    one_character_stands(tail, '&', 0);
    if form == "&mut "@ {
        assert(all =~= "&"@ + tail);
    } else if form == "&"@ {
        assert(all =~= "&"@ + ty);
    } else {
        assert(all =~= ty);
    }
    nothing_to_cut(ty, '<');
    nothing_to_cut(ty, ' ');
}

/// What stands behind the first parameter: the end of the list, or more
/// parameters.
pub open spec fn parameters_end(tail: Seq<char>) -> bool {
    tail.len() > 0 && (tail[0] == ')' || (tail[0] == ',' && tail.contains(')')))
}

/// The receiver of a method is the type of its first parameter, by value or
/// by either kind of reference.
#[verifier::rlimit(40)]
pub proof fn receivers_are_read(head: Seq<char>, form: Seq<char>, ty: Seq<char>, tail: Seq<char>)
    requires
        spaces_are_white(),
        !head.contains('('),
        receiver_form(form),
        name_of(ty),
        parameters_end(tail),
    ensures
        receiver(head + "(_1: "@ + form + ty + tail) == Some(ty),
{
    reveal_strlit("(");
    reveal_strlit("(_1: ");
    reveal_strlit(")");
    reveal_strlit(",");
    reveal_strlit(":");
    assert("("@ =~= seq!['(']);
    assert(")"@ =~= seq![')']);
    assert(","@ =~= seq![',']);
    assert(":"@ =~= seq![':']);
    let h = head + "(_1: "@ + form + ty + tail;
    let param = seq!['_', '1', ':', ' '] + form + ty;
    let inner = param + tail;
    assert(h =~= head + seq!['('] + inner);
    cut_at_the_first(head, '(', inner);
    form_has_none(form, ')');
    form_has_none(form, ',');
    form_has_none(form, ':');
    names_hold_no_mark(ty, ')');
    names_hold_no_mark(ty, ',');
    names_hold_no_mark(ty, ':');
    param_holds_none(form, ty, ')');
    param_holds_none(form, ty, ',');
    let rest = tail.skip(1);
    if tail[0] == ')' {
        assert(inner =~= param + seq![')'] + rest);
        cut_at_the_first(param, ')', rest);
        nothing_to_cut(param, ',');
    } else {
        let close = choose|k: int| 0 <= k < tail.len() && tail[k] == ')';
        assert(rest[close - 1] == ')');
        let first = first_of(rest, ')');
        let mid = rest.take(first);
        let end = rest.skip(first + 1);
        assert(inner =~= (param + seq![','] + mid) + seq![')'] + end);
        let left = param + seq![','] + mid;
        assert(!left.contains(')')) by {
            if left.contains(')') {
                let i = choose|i: int| 0 <= i < left.len() && left[i] == ')';
                if i < param.len() {
                    assert(param[i] == ')');
                } else if i > param.len() {
                    assert(mid[i - param.len() - 1] == rest[i - param.len() - 1]);
                }
            }
        }
        cut_at_the_first(left, ')', end);
        cut_at_the_first(param, ',', mid);
    }
    let lhs = seq!['_', '1'];
    assert(param =~= lhs + seq![':'] + (seq![' '] + form + ty));
    cut_at_the_first(lhs, ':', seq![' '] + form + ty);
    the_form_is_no_part_of_the_type(form, ty);
}

proof fn first_of(s: Seq<char>, c: char) -> (i: int)
    requires
        s.contains(c),
    ensures
        0 <= i < s.len(),
        s[i] == c,
        forall|j: int| 0 <= j < i ==> #[trigger] s[j] != c,
    decreases s.len(),
{
    if s[0] == c {
        0
    } else {
        let k = choose|k: int| 0 <= k < s.len() && s[k] == c;
        assert(s.skip(1)[k - 1] == c);
        let i = first_of(s.skip(1), c);
        assert(s[i + 1] == c);
        assert forall|j: int| 0 <= j < i + 1 implies #[trigger] s[j] != c by {
            if j > 0 {
                assert(s.skip(1)[j - 1] == s[j]);
            }
        }
        i + 1
    }
}

proof fn param_holds_none(form: Seq<char>, ty: Seq<char>, c: char)
    requires
        c == ')' || c == ',',
        !form.contains(c),
        !ty.contains(c),
    ensures
        !(seq!['_', '1', ':', ' '] + form + ty).contains(c),
{
    let param = seq!['_', '1', ':', ' '] + form + ty;
    if param.contains(c) {
        let i = choose|i: int| 0 <= i < param.len() && param[i] == c;
        if i >= 4 + form.len() {
            assert(ty[i - 4 - form.len()] == c);
        } else if i >= 4 {
            assert(form[i - 4] == c);
        } else {
            assert(i == 0 || i == 1 || i == 2 || i == 3);
        }
    }
}

/// A method of an impl is the same symbol where it is defined and where it is
/// called: the headers `<impl at P>::m(_1: T`, `<impl at P>::m(_1: &T` and
/// `<impl at P>::m(_1: &mut T`, with or without more parameters, all define `m`
/// on `T`, and the call target `T::m` names just that.
#[verifier::rlimit(40)]
pub proof fn methods_are_defined_as_they_are_called(
    place: Seq<char>,
    m: Seq<char>,
    form: Seq<char>,
    ty: Seq<char>,
    tail: Seq<char>,
)
    requires
        spaces_are_white(),
        name_of(m),
        name_of(ty),
        !place.contains('('),
        !place.contains('{'),
        !place.contains('}'),
        receiver_form(form),
        parameters_end(tail),
    ensures
        ({
            let h = "<impl at "@ + place + ">::"@ + m + "(_1: "@ + form + ty + tail;
            header(h) matches Some((s, t)) && on_type(s, m, ty) && t == Some(ty) && (uppercase(
                ty[0],
            ) ==> target(ty + "::"@ + m) == Some(s))
        }),
{
    reveal_strlit("<impl at ");
    reveal_strlit(">::");
    reveal_strlit("::");
    reveal_strlit("(");
    reveal_strlit("(_1: ");
    reveal_strlit("{");
    reveal_strlit("}");
    assert("("@ =~= seq!['(']);
    assert("{"@ =~= seq!['{']);
    assert("}"@ =~= seq!['}']);
    assert(">::"@ =~= seq!['>'] + "::"@);
    let head = "<impl at "@ + place + ">::"@ + m;
    let h = head + "(_1: "@ + form + ty + tail;
    assert(h =~= "<impl at "@ + place + ">::"@ + m + "(_1: "@ + form + ty + tail);
    head_holds_none(place, m, '(');
    head_holds_none(place, m, '{');
    head_holds_none(place, m, '}');
    receivers_are_read(head, form, ty, tail);
    let rest = "_1: "@ + form + ty + tail;
    reveal_strlit("_1: ");
    assert(h =~= head + seq!['('] + rest);
    cut_at_the_first(head, '(', rest);
    names_are_trimmed(m);
    assert(head[0] == '<');
    assert(head.last() == m.last());
    trimming_keeps_the_rest(head);
    nothing_to_cut(head, '{');
    nothing_to_cut(head, '}');
    let behind = place + seq!['>'] + "::"@ + m;
    assert(head =~= "<impl at "@ + behind);
    parts_are_found("<impl at "@, m, behind);
    assert(head.skip("<impl at "@.len() as int) =~= behind);
    names_hold_no_mark(m, ':');
    cut_at_the_last_mark(place + seq!['>'], "::"@, m);
    if uppercase(ty[0]) {
        a_type_and_a_name_are_read(ty, m);
    }
}

proof fn head_holds_none(place: Seq<char>, m: Seq<char>, c: char)
    requires
        c == '(' || c == '{' || c == '}',
        !place.contains(c),
        name_of(m),
    ensures
        !("<impl at "@ + place + ">::"@ + m).contains(c),
{
    reveal_strlit("<impl at ");
    reveal_strlit(">::");
    names_hold_no_mark(m, c);
    let head = "<impl at "@ + place + ">::"@ + m;
    if head.contains(c) {
        let i = choose|i: int| 0 <= i < head.len() && head[i] == c;
        let n = place.len();
        if i < 9 {
            assert(head[i] == "<impl at "@[i]);
            assert(i == 0 || i == 1 || i == 2 || i == 3 || i == 4 || i == 5 || i == 6 || i == 7
                || i == 8);
        } else if i < 9 + n {
            assert(place[i - 9] == c);
        } else if i < 12 + n {
            assert(head[i] == ">::"@[i - 9 - n]);
        } else {
            assert(m[i - 12 - n] == c);
        }
    }
}

/// `T::m` names `m` on `T` where `T` is capitalised, and `m` in the module `T`
/// where it is not.
pub proof fn a_type_and_a_name_are_read(ty: Seq<char>, m: Seq<char>)
    requires
        name_of(ty),
        name_of(m),
    ensures
        target(ty + "::"@ + m) == Some(
            if uppercase(ty[0]) {
                (SymbolView { name: m, self_ty: Some(ty), krate: None, path: None })
            } else {
                (SymbolView { name: m, self_ty: None, krate: None, path: Some(ty) })
            },
        ),
{
    let parts = seq![ty, m];
    assert(parts.drop_last() =~= seq![ty]);
    assert(join(seq![ty], "::"@) == ty);
    assert(join(parts, "::"@) =~= ty + "::"@ + m);
    paths_are_read(parts);
}

/// No mark but those between its segments stands in a path.
pub proof fn no_mark_in_a_path(parts: Seq<Seq<char>>, c: char)
    requires
        parts.len() > 0,
        forall|i: int| 0 <= i < parts.len() ==> name_of(#[trigger] parts[i]),
        mark(c),
        c != ':',
    ensures
        !join(parts, "::"@).contains(c),
        join(parts, "::"@).len() > 0,
        join(parts, "::"@)[0] == parts[0][0],
        join(parts, "::"@).last() == parts.last().last(),
    decreases parts.len(),
{
    reveal_strlit("::");
    assert(name_of(parts.last()));
    assert(name_of(parts[0]));
    names_hold_no_mark(parts.last(), c);
    if parts.len() > 1 {
        let less = parts.drop_last();
        assert forall|i: int| 0 <= i < less.len() implies name_of(#[trigger] less[i]) by {
            assert(less[i] == parts[i]);
        }
        no_mark_in_a_path(less, c);
        let t = join(parts, "::"@);
        let n = join(less, "::"@).len();
        if t.contains(c) {
            let i = choose|i: int| 0 <= i < t.len() && t[i] == c;
            if i < n {
                assert(join(less, "::"@)[i] == c);
            } else if i >= n + 2 {
                assert(parts.last()[i - n - 2] == c);
            }
        }
    }
}

/// The symbol that a list of names spells: the last is the function, a
/// capitalised one before it is its type, and any others are its modules.
pub open spec fn spelled(parts: Seq<Seq<char>>) -> SymbolView {
    let over = parts.drop_last();
    SymbolView {
        name: parts.last(),
        self_ty: if over.len() > 0 && uppercase(over.last()[0]) {
            Some(over.last())
        } else {
            None
        },
        krate: None,
        path: if over.len() > 0 && !uppercase(over.last()[0]) {
            Some(join(over, "::"@))
        } else {
            None
        },
    }
}

/// A path names the function at its end.
pub proof fn paths_are_read(parts: Seq<Seq<char>>)
    requires
        parts.len() > 0,
        forall|i: int| 0 <= i < parts.len() ==> name_of(#[trigger] parts[i]),
    ensures
        target(join(parts, "::"@)) == Some(spelled(parts)),
{
    reveal_strlit("::");
    reveal_strlit("::<");
    reveal_strlit("<");
    assert("<"@ =~= seq!['<']);
    let t = join(parts, "::"@);
    no_mark_in_a_path(parts, '<');
    assert(name_of(parts[0]) && name_of(parts.last()));
    names_are_trimmed(parts[0]);
    names_are_trimmed(parts.last());
    trimming_keeps_the_rest(t);
    a_missing_character_rules_out(t, "::<"@, 2);
    a_missing_character_rules_out(t, "<"@, 0);
    assert forall|i: int| 0 <= i < parts.len() implies !(#[trigger] parts[i]).contains("::"@[0]) by {
        names_hold_no_mark(parts[i], ':');
    }
    crate::laws::texts::splitting_undoes_joining_with(parts, "::"@);
    crate::laws::texts::full_pieces_stay(parts);
    if parts.len() > 1 {
        let over = parts.drop_last();
        assert(over.last() == parts[parts.len() - 2]);
        assert(name_of(over.last()));
    }
}

/// The arguments of a turbofish are no part of what is called.
pub proof fn a_turbofish_is_passed_over(parts: Seq<Seq<char>>, args: Seq<char>)
    requires
        parts.len() > 0,
        forall|i: int| 0 <= i < parts.len() ==> name_of(#[trigger] parts[i]),
        args.len() > 0,
        !white(args.last()),
    ensures
        target(join(parts, "::"@) + "::<"@ + args) == target(join(parts, "::"@)),
{
    reveal_strlit("::");
    reveal_strlit("::<");
    reveal_strlit("<");
    let t = join(parts, "::"@);
    let h = t + "::<"@ + args;
    no_mark_in_a_path(parts, '<');
    assert(name_of(parts[0]) && name_of(parts.last()));
    names_are_trimmed(parts[0]);
    names_are_trimmed(parts.last());
    assert(h[0] == t[0]);
    assert(h.last() == args.last());
    trimming_keeps_the_rest(h);
    trimming_keeps_the_rest(t);
    a_missing_character_rules_out(t, "::<"@, 2);
    crate::text::first_from_is_first(h, "::<"@, 0);
    parts_are_found(t, "::<"@, args);
    if let Some(i) = crate::text::first(h, "::<"@) {
        if i < t.len() {
            assert(h.subrange(i, i + 3)[2] == h[i + 2]);
            if i + 2 < t.len() {
                assert(t[i + 2] == '<');
            } else {
                assert(i + 2 < t.len() + 2);
                assert(h[i + 2] == "::<"@[i + 2 - t.len()]);
            }
        }
    }
    assert(h.take(t.len() as int) =~= t);
}

/// A target under a qualified type claims no type: `<Q>::m` names `m` alone.
pub proof fn qualified_targets_claim_no_type(q: Seq<char>, m: Seq<char>)
    requires
        name_of(m),
        spaces_are_white(),
        !present("<"@ + q + ">::"@ + m, "::<"@),
    ensures
        target("<"@ + q + ">::"@ + m) == Some(
            (SymbolView { name: m, self_ty: None, krate: None, path: None }),
        ),
{
    reveal_strlit("<");
    reveal_strlit(">::");
    reveal_strlit("::");
    let t = "<"@ + q + ">::"@ + m;
    names_are_trimmed(m);
    assert(t[0] == '<');
    assert(t.last() == m.last());
    trimming_keeps_the_rest(t);
    crate::text::first_from_is_first(t, "::<"@, 0);
    if let Some(i) = crate::text::first(t, "::<"@) {
        assert(present(t, "::<"@));
    }
    assert("<"@ =~= seq!['<']);
    one_character_stands(t, '<', 0);
    names_hold_no_mark(m, ':');
    let front = "<"@ + q + seq!['>'];
    assert(t =~= front + "::"@ + m);
    cut_at_the_last_mark(front, "::"@, m);
}

/// A line that assigns what a call gives back, and says where it goes on, is
/// a call of what stands in front of its arguments.
#[verifier::rlimit(40)]
pub proof fn assignments_from_calls_are_calls(
    indent: Seq<char>,
    local: Seq<char>,
    callee: Seq<char>,
    args: Seq<char>,
    blocks: Seq<char>,
)
    requires
        forall|i: int| 0 <= i < indent.len() ==> white(#[trigger] indent[i]),
        !white('_'),
        !white(']'),
        !local.contains(' '),
        !callee.contains('('),
    ensures
        call_on(
            indent + "_"@ + local + " = "@ + callee + "("@ + args + ") -> ["@ + blocks + "]"@,
        ) == target(callee),
{
    reveal_strlit("_");
    reveal_strlit(" = ");
    reveal_strlit("(");
    reveal_strlit(") -> [");
    reveal_strlit("]");
    reveal_strlit("scope ");
    reveal_strlit("/");
    let to = "_"@ + local;
    let rhs = callee + seq!['('] + (args + ") -> ["@ + blocks + "]"@);
    let t = to + " = "@ + rhs;
    let line = indent + "_"@ + local + " = "@ + callee + "("@ + args + ") -> ["@ + blocks + "]"@;
    assert(line =~= indent + t + Seq::<char>::empty());
    assert(t[0] == '_');
    assert(t.last() == ']');
    trimming_takes_the_ends(indent, t, Seq::<char>::empty());
    assert(indent + t + Seq::<char>::empty() =~= indent + t);
    assert(t + Seq::<char>::empty() =~= t);
    assert("_"@ =~= seq!['_']);
    assert("/"@ =~= seq!['/']);
    one_character_stands(t, '_', 0);
    one_character_stands(t, '/', 0);
    if begins(t, "scope "@) {
        assert(t.subrange(0, 6)[0] == t[0]);
    }
    let upto = to + " = "@ + callee + seq!['('] + args;
    assert(t =~= upto + ") -> ["@ + (blocks + "]"@));
    parts_are_found(upto, ") -> ["@, blocks + "]"@);
    assert(!to.contains(' ')) by {
        if to.contains(' ') {
            let i = choose|i: int| 0 <= i < to.len() && to[i] == ' ';
            if i > 0 {
                assert(local[i - 1] == ' ');
            }
        }
    }
    cut_at_the_first_mark(to, " = "@, rhs);
    assert("("@ =~= seq!['(']);
    cut_at_the_first(callee, '(', args + ") -> ["@ + blocks + "]"@);
}

/// A line that assigns to no local calls nothing, and neither does one that
/// goes on nowhere.
pub proof fn other_lines_call_nothing(line: Seq<char>)
    requires
        !begins(crate::text::trimmed_start(line), "_"@) || !present(line, ") -> ["@),
    ensures
        call_on(line) is None,
{
    let t = crate::text::trimmed_start(line);
    if present(t, ") -> ["@) {
        trimming_leaves_a_suffix(line);
        let k = line.len() - t.len();
        let i = choose|i: int| crate::text::occurs_at(t, ") -> ["@, i);
        let n = ") -> ["@.len();
        assert(line.subrange(k + i, k + i + n) =~= t.subrange(i, i + n));
        assert(crate::text::occurs_at(line, ") -> ["@, k + i));
    }
}

proof fn trimming_leaves_a_suffix(s: Seq<char>)
    ensures
        crate::text::trimmed_start(s).len() <= s.len(),
        crate::text::trimmed_start(s) == s.skip(s.len() - crate::text::trimmed_start(s).len()),
    decreases s.len(),
{
    if s.len() > 0 && white(s[0]) {
        trimming_leaves_a_suffix(s.skip(1));
        let t = crate::text::trimmed_start(s);
        assert(s.skip(1).skip(s.len() - 1 - t.len()) =~= s.skip(s.len() - t.len()));
    } else {
        assert(s.skip(0) =~= s);
    }
}

/// The receiver of a method is told without the arguments of its type,
/// whatever follows them.
#[verifier::rlimit(40)]
pub proof fn generic_receivers_are_read(
    head: Seq<char>,
    form: Seq<char>,
    ty: Seq<char>,
    args: Seq<char>,
)
    requires
        spaces_are_white(),
        !head.contains('('),
        receiver_form(form),
        name_of(ty),
    ensures
        receiver(head + "(_1: "@ + form + ty + seq!['<'] + args) == Some(ty),
{
    reveal_strlit("(");
    reveal_strlit("(_1: ");
    reveal_strlit(")");
    reveal_strlit(",");
    reveal_strlit(":");
    assert("("@ =~= seq!['(']);
    assert(")"@ =~= seq![')']);
    assert(","@ =~= seq![',']);
    assert(":"@ =~= seq![':']);
    let param = seq!['_', '1', ':', ' '] + form + ty;
    let inner = param + (seq!['<'] + args);
    let h = head + "(_1: "@ + form + ty + seq!['<'] + args;
    assert(h =~= head + seq!['('] + inner);
    cut_at_the_first(head, '(', inner);
    form_has_none(form, ')');
    form_has_none(form, ',');
    names_hold_no_mark(ty, ')');
    names_hold_no_mark(ty, ',');
    param_holds_none(form, ty, ')');
    param_holds_none(form, ty, ',');
    let open = param + seq!['<'];
    assert(inner =~= open + args);
    open_holds_none(param, ')');
    open_holds_none(param, ',');
    crate::laws::texts::cutting_keeps_the_front(open, args, ')');
    let some = crate::text::before(args, ")"@);
    crate::laws::texts::cutting_keeps_the_front(open, some, ',');
    let rest = crate::text::before(some, ","@);
    let lhs = seq!['_', '1'];
    let typ = seq![' '] + form + ty + (seq!['<'] + rest);
    assert(open + rest =~= lhs + seq![':'] + typ);
    cut_at_the_first(lhs, ':', typ);
    the_arguments_are_no_part_of_the_type(form, ty, seq!['<'] + rest);
}

proof fn open_holds_none(param: Seq<char>, c: char)
    requires
        !param.contains(c),
        c != '<',
    ensures
        !(param + seq!['<']).contains(c),
{
    let open = param + seq!['<'];
    if open.contains(c) {
        let i = choose|i: int| 0 <= i < open.len() && open[i] == c;
        if i < param.len() {
            assert(param[i] == c);
        }
    }
}

proof fn the_arguments_are_no_part_of_the_type(form: Seq<char>, ty: Seq<char>, args: Seq<char>)
    requires
        spaces_are_white(),
        receiver_form(form),
        name_of(ty),
        args.len() > 0,
        args[0] == '<',
    ensures
        ({
            let bare = trimmed(
                crate::text::no_prefixes(
                    crate::text::no_prefixes(trimmed(seq![' '] + form + ty + args), "&"@),
                    "mut "@,
                ),
            );
            trimmed(crate::text::before(crate::text::before(bare, "<"@), " "@)) == ty
        }),
{
    reveal_strlit("");
    reveal_strlit("&");
    reveal_strlit("mut ");
    reveal_strlit("&mut ");
    reveal_strlit("<");
    reveal_strlit(" ");
    assert("&"@ =~= seq!['&']);
    assert("<"@ =~= seq!['<']);
    assert(" "@ =~= seq![' ']);
    assert("&mut "@ =~= "&"@ + "mut "@);
    names_are_trimmed(ty);
    names_hold_no_mark(ty, '&');
    names_hold_no_mark(ty, ' ');
    names_hold_no_mark(ty, '<');
    let (mid, tail) = white_is_parted(args);
    let full = ty + mid;
    let all = form + full;
    assert(all[0] == (if form.len() == 0 {
        ty[0]
    } else {
        '&'
    }));
    assert(all.last() == mid.last());
    assert(seq![' '] + form + ty + args =~= seq![' '] + all + tail);
    trimming_takes_the_ends(seq![' '], all, tail);
    assert(full[0] == ty[0]);
    one_character_stands(full, '&', 0);
    assert(ty.contains(ty[0]));
    prefixes_go("&"@, full);
    prefixes_go("mut "@, full);
    assert(!begins(full, "mut "@)) by {
        if begins(full, "mut "@) {
            let t = full.subrange(0, 4);
            assert(t[0] == full[0] && t[1] == full[1] && t[2] == full[2] && t[3] == full[3]);
            if ty.len() >= 4 {
                assert(ty[3] == ' ');
            } else {
                let k = ty.len() as int;
                assert(full[k] == '<');
                assert(t[k] == "mut "@[k]);
                assert(k == 1 || k == 2 || k == 3);
            }
        }
    }
    let behind = "mut "@ + full;
    prefixes_go("&"@, behind);
    assert(behind[0] == 'm');
    one_character_stands(behind, '&', 0);
    if form == "&mut "@ {
        assert(all =~= "&"@ + behind);
    } else if form == "&"@ {
        assert(all =~= "&"@ + full);
    } else {
        assert(all =~= full);
    }
    trimming_keeps_the_rest(full);
    assert(full =~= ty + seq!['<'] + mid.skip(1));
    cut_at_the_first(ty, '<', mid.skip(1));
    nothing_to_cut(ty, ' ');
}

proof fn white_is_parted(args: Seq<char>) -> (r: (Seq<char>, Seq<char>))
    requires
        spaces_are_white(),
        args.len() > 0,
        args[0] == '<',
    ensures
        args == r.0 + r.1,
        r.0.len() > 0,
        r.0[0] == '<',
        !white(r.0.last()),
        forall|i: int| 0 <= i < r.1.len() ==> white(#[trigger] r.1[i]),
    decreases args.len(),
{
    if white(args.last()) {
        let less = args.drop_last();
        assert(args.last() == args[args.len() - 1]);
        assert(less.len() > 0);
        let (a, b) = white_is_parted(less);
        let c = b.push(args.last());
        assert(args =~= less.push(args.last()));
        assert(less.push(args.last()) =~= a + c);
        assert forall|i: int| 0 <= i < c.len() implies white(#[trigger] c[i]) by {
            if i < b.len() {
                assert(c[i] == b[i]);
            }
        }
        (a, c)
    } else {
        assert(args =~= args + Seq::<char>::empty());
        (args, Seq::<char>::empty())
    }
}

/// A header under a qualified type claims no type for its symbol, and tells its
/// receiver.
#[verifier::rlimit(40)]
pub proof fn qualified_headers_tell_their_receiver(
    q: Seq<char>,
    m: Seq<char>,
    form: Seq<char>,
    ty: Seq<char>,
    tail: Seq<char>,
)
    requires
        spaces_are_white(),
        name_of(m),
        name_of(ty),
        !q.contains('('),
        !q.contains('{'),
        !q.contains('}'),
        !begins("<"@ + q + ">::"@ + m, "<impl at "@),
        receiver_form(form),
        parameters_end(tail),
    ensures
        ({
            let h = "<"@ + q + ">::"@ + m + "(_1: "@ + form + ty + tail;
            header(h) matches Some((s, t)) && s == (SymbolView {
                name: m,
                self_ty: None,
                krate: None,
                path: None,
            }) && t == Some(ty)
        }),
{
    reveal_strlit("<");
    reveal_strlit(">::");
    reveal_strlit("::");
    reveal_strlit("(");
    reveal_strlit("(_1: ");
    reveal_strlit("{");
    reveal_strlit("}");
    reveal_strlit("_1: ");
    assert("<"@ =~= seq!['<']);
    assert("("@ =~= seq!['(']);
    assert("{"@ =~= seq!['{']);
    assert("}"@ =~= seq!['}']);
    let head = "<"@ + q + ">::"@ + m;
    let h = "<"@ + q + ">::"@ + m + "(_1: "@ + form + ty + tail;
    names_are_trimmed(m);
    qualified_head_holds_none(q, m, '(');
    qualified_head_holds_none(q, m, '{');
    qualified_head_holds_none(q, m, '}');
    receivers_are_read(head, form, ty, tail);
    let rest = "_1: "@ + form + ty + tail;
    assert(h =~= head + seq!['('] + rest);
    cut_at_the_first(head, '(', rest);
    assert(head[0] == '<' && head.last() == m.last());
    trimming_keeps_the_rest(head);
    nothing_to_cut(head, '{');
    nothing_to_cut(head, '}');
    one_character_stands(head, '<', 0);
    names_hold_no_mark(m, ':');
    let front = "<"@ + q + seq!['>'];
    assert(head =~= front + "::"@ + m);
    cut_at_the_last_mark(front, "::"@, m);
}

proof fn qualified_head_holds_none(q: Seq<char>, m: Seq<char>, c: char)
    requires
        c == '(' || c == '{' || c == '}',
        !q.contains(c),
        name_of(m),
    ensures
        !("<"@ + q + ">::"@ + m).contains(c),
{
    reveal_strlit("<");
    reveal_strlit(">::");
    names_hold_no_mark(m, c);
    let head = "<"@ + q + ">::"@ + m;
    if head.contains(c) {
        let i = choose|i: int| 0 <= i < head.len() && head[i] == c;
        let n = q.len();
        if i < 1 {
            assert(head[i] == "<"@[i]);
        } else if i < 1 + n {
            assert(q[i - 1] == c);
        } else if i < 4 + n {
            assert(head[i] == ">::"@[i - 1 - n]);
        } else {
            assert(m[i - 4 - n] == c);
        }
    }
}

/// White space around a target says nothing, and where there is nothing else
/// nothing is named.
pub proof fn targets_are_trimmed(a: Seq<char>, t: Seq<char>, b: Seq<char>)
    requires
        forall|i: int| 0 <= i < a.len() ==> white(#[trigger] a[i]),
        forall|i: int| 0 <= i < b.len() ==> white(#[trigger] b[i]),
        t.len() > 0,
        !white(t[0]),
        !white(t.last()),
    ensures
        target(a + t + b) == target(t),
        target(a + b) is None,
{
    trimming_takes_the_ends(a, t, b);
    trimming_keeps_the_rest(t);
}

/// The name of a receiver ends at a space too.
#[verifier::rlimit(40)]
pub proof fn receivers_end_at_a_space(
    head: Seq<char>,
    form: Seq<char>,
    ty: Seq<char>,
    rest: Seq<char>,
)
    requires
        spaces_are_white(),
        !head.contains('('),
        receiver_form(form),
        name_of(ty),
        ty != "mut"@,
        rest.len() > 0,
        !white(rest.last()),
        !rest.contains(')'),
        !rest.contains(','),
    ensures
        receiver(head + "(_1: "@ + form + ty + seq![' '] + rest + seq![')']) == Some(ty),
{
    reveal_strlit("(");
    reveal_strlit("(_1: ");
    reveal_strlit(")");
    reveal_strlit(",");
    reveal_strlit(":");
    assert("("@ =~= seq!['(']);
    assert(")"@ =~= seq![')']);
    assert(","@ =~= seq![',']);
    assert(":"@ =~= seq![':']);
    let param = seq!['_', '1', ':', ' '] + form + ty;
    let more = param + (seq![' '] + rest);
    let inner = more + seq![')'] + Seq::<char>::empty();
    let h = head + "(_1: "@ + form + ty + seq![' '] + rest + seq![')'];
    assert(h =~= head + seq!['('] + inner);
    cut_at_the_first(head, '(', inner);
    form_has_none(form, ')');
    form_has_none(form, ',');
    names_hold_no_mark(ty, ')');
    names_hold_no_mark(ty, ',');
    param_holds_none(form, ty, ')');
    param_holds_none(form, ty, ',');
    spaced_holds_none(param, rest, ')');
    spaced_holds_none(param, rest, ',');
    cut_at_the_first(more, ')', Seq::<char>::empty());
    nothing_to_cut(more, ',');
    let lhs = seq!['_', '1'];
    let typ = seq![' '] + form + ty + (seq![' '] + rest);
    assert(more =~= lhs + seq![':'] + typ);
    cut_at_the_first(lhs, ':', typ);
    the_rest_is_no_part_of_the_type(form, ty, rest);
}

proof fn spaced_holds_none(param: Seq<char>, rest: Seq<char>, c: char)
    requires
        !param.contains(c),
        !rest.contains(c),
        c != ' ',
    ensures
        !(param + (seq![' '] + rest)).contains(c),
{
    let more = param + (seq![' '] + rest);
    if more.contains(c) {
        let i = choose|i: int| 0 <= i < more.len() && more[i] == c;
        if i < param.len() {
            assert(param[i] == c);
        } else if i > param.len() {
            assert(rest[i - param.len() - 1] == c);
        }
    }
}

proof fn the_rest_is_no_part_of_the_type(form: Seq<char>, ty: Seq<char>, rest: Seq<char>)
    requires
        spaces_are_white(),
        receiver_form(form),
        name_of(ty),
        ty != "mut"@,
        rest.len() > 0,
        !white(rest.last()),
    ensures
        ({
            let bare = trimmed(
                crate::text::no_prefixes(
                    crate::text::no_prefixes(
                        trimmed(seq![' '] + form + ty + (seq![' '] + rest)),
                        "&"@,
                    ),
                    "mut "@,
                ),
            );
            trimmed(crate::text::before(crate::text::before(bare, "<"@), " "@)) == ty
        }),
{
    reveal_strlit("");
    reveal_strlit("&");
    reveal_strlit("mut");
    reveal_strlit("mut ");
    reveal_strlit("&mut ");
    reveal_strlit("<");
    reveal_strlit(" ");
    assert("&"@ =~= seq!['&']);
    assert("<"@ =~= seq!['<']);
    assert(" "@ =~= seq![' ']);
    assert("&mut "@ =~= "&"@ + "mut "@);
    names_are_trimmed(ty);
    names_hold_no_mark(ty, '&');
    names_hold_no_mark(ty, ' ');
    names_hold_no_mark(ty, '<');
    let full = ty + seq![' '] + rest;
    let all = form + full;
    assert(all[0] == (if form.len() == 0 {
        ty[0]
    } else {
        '&'
    }));
    assert(all.last() == rest.last());
    assert(seq![' '] + form + ty + (seq![' '] + rest) =~= seq![' '] + all + Seq::<char>::empty());
    trimming_takes_the_ends(seq![' '], all, Seq::<char>::empty());
    assert(full[0] == ty[0]);
    one_character_stands(full, '&', 0);
    assert(ty.contains(ty[0]));
    prefixes_go("&"@, full);
    prefixes_go("mut "@, full);
    assert(!begins(full, "mut "@)) by {
        if begins(full, "mut "@) {
            let t = full.subrange(0, 4);
            assert(t[0] == full[0] && t[1] == full[1] && t[2] == full[2] && t[3] == full[3]);
            if ty.len() >= 4 {
                assert(ty[3] == ' ');
            } else if ty.len() == 3 {
                assert(ty =~= "mut"@);
            } else {
                let k = ty.len() as int;
                assert(full[k] == ' ');
                assert(k == 1 || k == 2);
            }
        }
    }
    let behind = "mut "@ + full;
    prefixes_go("&"@, behind);
    assert(behind[0] == 'm');
    one_character_stands(behind, '&', 0);
    if form == "&mut "@ {
        assert(all =~= "&"@ + behind);
    } else if form == "&"@ {
        assert(all =~= "&"@ + full);
    } else {
        assert(all =~= full);
    }
    trimming_keeps_the_rest(full);
    let front = ty + seq![' '];
    assert(!front.contains('<')) by {
        if front.contains('<') {
            let i = choose|i: int| 0 <= i < front.len() && front[i] == '<';
            if i < ty.len() {
                assert(ty[i] == '<');
            }
        }
    }
    crate::laws::texts::cutting_keeps_the_front(front, rest, '<');
    let part = crate::text::before(rest, "<"@);
    assert(front + part =~= ty + seq![' '] + part);
    cut_at_the_first(ty, ' ', part);
}

proof fn a_joined_path(parts: Seq<Seq<char>>, c: char)
    requires
        parts.len() > 0,
        c != ':',
        forall|i: int| 0 <= i < parts.len() ==> (#[trigger] parts[i]).len() > 0 && !parts[i].contains(c),
    ensures
        !join(parts, "::"@).contains(c),
        join(parts, "::"@).len() > 0,
        join(parts, "::"@)[0] == parts[0][0],
        join(parts, "::"@).last() == parts.last().last(),
    decreases parts.len(),
{
    reveal_strlit("::");
    assert(parts.last() == parts[parts.len() - 1]);
    if parts.len() > 1 {
        let less = parts.drop_last();
        assert forall|i: int| 0 <= i < less.len() implies (#[trigger] less[i]).len() > 0
            && !less[i].contains(c) by {
            assert(less[i] == parts[i]);
        }
        a_joined_path(less, c);
        let t = join(parts, "::"@);
        let n = join(less, "::"@).len();
        if t.contains(c) {
            let i = choose|i: int| 0 <= i < t.len() && t[i] == c;
            if i < n {
                assert(join(less, "::"@)[i] == c);
            } else if i >= n + 2 {
                assert(parts.last()[i - n - 2] == c);
            }
        }
    }
}

/// A path names nothing where one of its segments is no identifier.
pub proof fn odd_segments_name_nothing(parts: Seq<Seq<char>>, k: int)
    requires
        0 <= k < parts.len(),
        !ident(parts[k]),
        forall|i: int|
            0 <= i < parts.len() ==> (#[trigger] parts[i]).len() > 0 && !parts[i].contains(':')
                && !parts[i].contains('<'),
        !white(parts[0][0]),
        !white(parts.last().last()),
    ensures
        target(join(parts, "::"@)) is None,
{
    reveal_strlit("::");
    reveal_strlit("::<");
    reveal_strlit("<");
    let t = join(parts, "::"@);
    a_joined_path(parts, '<');
    trimming_keeps_the_rest(t);
    a_missing_character_rules_out(t, "::<"@, 2);
    a_missing_character_rules_out(t, "<"@, 0);
    assert forall|i: int| 0 <= i < parts.len() implies !(#[trigger] parts[i]).contains("::"@[0]) by {
        assert(!parts[i].contains(':'));
    }
    crate::laws::texts::splitting_undoes_joining_with(parts, "::"@);
    crate::laws::texts::full_pieces_stay(parts);
    assert(!ident(parts[k]));
}

} // verus!
