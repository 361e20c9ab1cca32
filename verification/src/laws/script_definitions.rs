//! What a file of any language but Rust defines and hands over.

use vstd::prelude::*;

use crate::frontend::syntax::above;
use crate::frontend::syntax::NodeView;
use crate::frontend::tree_sitter_frontend::after_node;
use crate::frontend::tree_sitter_frontend::boundary_marks;
use crate::frontend::tree_sitter_frontend::crosses;
use crate::frontend::tree_sitter_frontend::enclosing;
use crate::frontend::tree_sitter_frontend::handed_over;
use crate::frontend::tree_sitter_frontend::known_as;
use crate::frontend::tree_sitter_frontend::marked;
use crate::frontend::tree_sitter_frontend::under_export;
use crate::frontend::tree_sitter_frontend::value_places;
use crate::frontend::tree_sitter_frontend::FileView;
use crate::frontend::tree_sitter_frontend::ScopeView;
use crate::frontend::tree_sitter_frontend::WalkView;
use crate::ir::DefinitionView;
use crate::ir::EdgeKind;
use crate::lang::Language;
use crate::laws::scripts::declares_a_function;
use crate::laws::scripts::declares_a_type;
use crate::laws::scripts::kinds_are_spelled_out;
use crate::laws::scripts::nothing_more;
use crate::laws::scripts::one_call_more;
use crate::laws::scripts::scopes_are_left;
use crate::laws::trees::directly_above;
use crate::laws::trees::in_role;
use crate::laws::trees::no_role;
use crate::laws::trees::roles_are_found;
use crate::laws::trees::the_node_above_is_found;
use crate::text::begins;
use crate::text::ends;
use crate::text::present;
use crate::text::uppercase;

verus! {

// ---------------------------------------------------------------------------
// Boundaries
// ---------------------------------------------------------------------------

/// The text holds a word that shows it to run code through a process, a
/// socket, a browser or a database.
pub open spec fn leaves_the_program(text: Seq<char>, lang: Language) -> bool {
    match lang {
        Language::Python => {
            ||| present(text, "subprocess"@)
            ||| present(text, "Popen"@)
            ||| present(text, "os.system"@)
            ||| present(text, "os.exec"@)
            ||| present(text, "pexpect"@)
            ||| present(text, "requests."@)
            ||| present(text, "httpx."@)
            ||| present(text, "aiohttp"@)
            ||| present(text, "urllib.request"@)
            ||| present(text, "socket."@)
            ||| present(text, "selenium"@)
            ||| present(text, "webdriver"@)
            ||| present(text, "docker"@)
            ||| present(text, "psycopg"@)
            ||| present(text, "pymongo"@)
        },
        Language::Go => {
            ||| present(text, "exec.Command"@)
            ||| present(text, "os/exec"@)
            ||| present(text, "httptest."@)
            ||| present(text, "http.Get"@)
            ||| present(text, "http.Post"@)
            ||| present(text, "net.Dial"@)
            ||| present(text, "net.Listen"@)
            ||| present(text, "sql.Open"@)
            ||| present(text, "testcontainers"@)
        },
        Language::TypeScript => {
            ||| present(text, "child_process"@)
            ||| present(text, "execSync"@)
            ||| present(text, "spawnSync"@)
            ||| present(text, "spawn("@)
            ||| present(text, "execa"@)
            ||| present(text, "puppeteer"@)
            ||| present(text, "playwright"@)
            ||| present(text, "supertest"@)
            ||| present(text, "axios."@)
            ||| present(text, "fetch("@)
            ||| present(text, "request("@)
            ||| present(text, "WebSocket"@)
            ||| present(text, "testcontainers"@)
        },
        Language::Rust => {
            ||| present(text, "Command::new"@)
            ||| present(text, "TcpStream"@)
            ||| present(text, "TcpListener"@)
            ||| present(text, "UdpSocket"@)
            ||| present(text, "UnixStream"@)
            ||| present(text, "reqwest"@)
            ||| present(text, "testcontainers"@)
        },
    }
}

/// A body is opaque exactly where one of these words stands in it.
pub proof fn boundaries_are_spelled_out(text: Seq<char>, lang: Language)
    ensures
        crosses(text, lang) == leaves_the_program(text, lang),
{
    let marks = boundary_marks(lang);
    assert(present(text, marks[0]) ==> present(text, marks[0]));
    assert(present(text, marks[1]) ==> present(text, marks[1]));
    assert(present(text, marks[2]) ==> present(text, marks[2]));
    assert(present(text, marks[3]) ==> present(text, marks[3]));
    assert(present(text, marks[4]) ==> present(text, marks[4]));
    assert(present(text, marks[5]) ==> present(text, marks[5]));
    assert(present(text, marks[6]) ==> present(text, marks[6]));
    assert(present(text, marks[7]) ==> present(text, marks[7]));
    assert(present(text, marks[8]) ==> present(text, marks[8]));
    assert(present(text, marks[9]) ==> present(text, marks[9]));
    assert(present(text, marks[10]) ==> present(text, marks[10]));
    assert(present(text, marks[11]) ==> present(text, marks[11]));
    assert(present(text, marks[12]) ==> present(text, marks[12]));
    assert(present(text, marks[13]) ==> present(text, marks[13]));
    assert(present(text, marks[14]) ==> present(text, marks[14]));
    if leaves_the_program(text, lang) {
        assert(exists|i: int| 0 <= i < marks.len() && present(text, #[trigger] marks[i]));
    }
}

// ---------------------------------------------------------------------------
// Names
// ---------------------------------------------------------------------------

/// A node of this kind binds a value to what it has in this role.
pub open spec fn binds(kind: Seq<char>, role: Seq<char>) -> bool {
    ||| role == "name"@ && (kind == "variable_declarator"@ || kind == "public_field_definition"@
        || kind == "field_definition"@ || kind == "var_spec"@ || kind == "const_spec"@)
    ||| role == "key"@ && kind == "pair"@
    ||| role == "left"@ && (kind == "assignment"@ || kind == "short_var_declaration"@)
}

/// A node of this kind is a name and nothing more.
pub open spec fn mere_name(kind: Seq<char>) -> bool {
    kind == "identifier"@ || kind == "property_identifier"@ || kind == "type_identifier"@
}

/// A callable goes by the name that it is written with.
pub proof fn a_callable_has_its_own_name(nodes: Seq<NodeView>, i: int, k: int)
    requires
        0 <= i < nodes.len(),
        in_role(nodes, i, "name"@, k),
    ensures
        known_as(nodes, i) == Some(nodes[k].text),
{
    roles_are_found(nodes, i, "name"@, k);
}

/// One that is written without a name goes by what it is bound to right there,
/// where that is a mere name.
pub proof fn a_value_has_the_name_of_its_binding(
    nodes: Seq<NodeView>,
    i: int,
    p: int,
    role: Seq<char>,
    k: int,
)
    requires
        0 <= i < nodes.len(),
        no_role(nodes, i, "name"@),
        directly_above(nodes, i, p),
        binds(nodes[p].kind, role),
        in_role(nodes, p, role, k),
    ensures
        known_as(nodes, i) == (if mere_name(nodes[k].kind) {
            Some(nodes[k].text)
        } else {
            None
        }),
{
    roles_are_found(nodes, i, "name"@, k);
    the_node_above_is_found(nodes, i, p);
    roles_are_found(nodes, p, role, k);
    binding_kinds_differ(nodes[p].kind);
}

proof fn binding_kinds_differ(kind: Seq<char>)
    ensures
        forall|role: Seq<char>| #[trigger]
            binds(kind, role) ==> crate::frontend::tree_sitter_frontend::binding_role(kind)
                == Some(role),
        (forall|role: Seq<char>| !#[trigger] binds(kind, role))
            ==> crate::frontend::tree_sitter_frontend::binding_role(kind) is None,
{
    reveal_strlit("variable_declarator");
    reveal_strlit("public_field_definition");
    reveal_strlit("field_definition");
    reveal_strlit("var_spec");
    reveal_strlit("const_spec");
    reveal_strlit("pair");
    reveal_strlit("assignment");
    reveal_strlit("short_var_declaration");
    assert("variable_declarator"@.len() == 19 && "public_field_definition"@.len() == 23
        && "field_definition"@.len() == 16 && "var_spec"@.len() == 8 && "const_spec"@.len() == 10
        && "pair"@.len() == 4 && "assignment"@.len() == 10 && "short_var_declaration"@.len() == 21);
    assert("const_spec"@[0] == 'c' && "assignment"@[0] == 'a');
    if forall|role: Seq<char>| !#[trigger] binds(kind, role) {
        assert(!binds(kind, "name"@));
        assert(!binds(kind, "key"@));
        assert(!binds(kind, "left"@));
    }
}

/// What is written without a name and is bound to none has none.
pub proof fn a_callback_has_no_name(nodes: Seq<NodeView>, i: int, p: int)
    requires
        0 <= i < nodes.len(),
        no_role(nodes, i, "name"@),
        directly_above(nodes, i, p),
        forall|role: Seq<char>| #[trigger] binds(nodes[p].kind, role) ==> no_role(nodes, p, role),
    ensures
        known_as(nodes, i) is None,
{
    roles_are_found(nodes, i, "name"@, i);
    the_node_above_is_found(nodes, i, p);
    binding_kinds_differ(nodes[p].kind);
    if let Some(role) = crate::frontend::tree_sitter_frontend::binding_role(nodes[p].kind) {
        roles_are_found(nodes, p, role, i);
        assert(binds(nodes[p].kind, "name"@) || binds(nodes[p].kind, "key"@) || binds(
            nodes[p].kind,
            "left"@,
        ));
        assert(binds(nodes[p].kind, role));
    }
}

// ---------------------------------------------------------------------------
// Definitions
// ---------------------------------------------------------------------------

/// The type around a node: the last that the walk entered at a lesser depth.
pub open spec fn of_type(ty: Option<Seq<char>>, types: Seq<ScopeView>, depth: nat) -> bool {
    &&& forall|k: int|
        0 <= k < types.len() && (#[trigger] types[k]).depth < depth && (forall|j: int|
            k < j < types.len() ==> (#[trigger] types[j]).depth >= depth) ==> ty == Some(
            types[k].name,
        )
    &&& (forall|k: int| 0 <= k < types.len() ==> (#[trigger] types[k]).depth >= depth) ==> ty
        is None
}

proof fn the_innermost_type(types: Seq<ScopeView>, depth: nat)
    ensures
        ({
            let rest = enclosing(types, depth);
            let ty = if rest.len() > 0 {
                Some(rest.last().name)
            } else {
                None
            };
            of_type(ty, types, depth)
        }),
{
    scopes_are_left(types, depth);
    let rest = enclosing(types, depth);
    let ty = if rest.len() > 0 {
        Some(rest.last().name)
    } else {
        None
    };
    if rest.len() > 0 {
        assert(rest[rest.len() - 1] == types[rest.len() - 1]);
    }
    assert forall|k: int|
        0 <= k < types.len() && (#[trigger] types[k]).depth < depth && (forall|j: int|
            k < j < types.len() ==> (#[trigger] types[j]).depth >= depth) implies ty == Some(
        types[k].name,
    ) by {
        assert(k < rest.len());
        if k < rest.len() - 1 {
            assert(types[rest.len() - 1].depth >= depth);
        }
    }
}

/// The outside can reach the definition, as its language states it.
pub open spec fn public(
    f: FileView,
    nodes: Seq<NodeView>,
    i: int,
    name: Seq<char>,
    on_a_type: bool,
) -> bool {
    match f.lang {
        Language::Go => name.len() > 0 && uppercase(name[0]),
        Language::TypeScript => under_export(nodes, i),
        Language::Python => if on_a_type || (forall|x: Seq<char>| !#[trigger] f.exports.contains(
            x,
        )) {
            !begins(name, "_"@)
        } else {
            f.exports.contains(name)
        },
        Language::Rust => !begins(name, "_"@),
    }
}

/// The definition may be reached without a call that names it.
pub open spec fn reached_unseen(f: FileView, nodes: Seq<NodeView>, i: int, name: Seq<char>) -> bool {
    ||| f.lang == Language::Python && begins(name, "__"@) && ends(name, "__"@)
    ||| exists|p: int| #[trigger] directly_above(nodes, i, p) && nodes[p].kind == "pair"@
    ||| f.lang == Language::Go && nodes[i].kind == "method_declaration"@ && name.len() > 0
        && uppercase(name[0])
}

/// A node that declares a function by a name defines it, and the walk is
/// inside it from there on.
#[verifier::rlimit(40)]
pub proof fn functions_are_defined(
    f: FileView,
    nodes: Seq<NodeView>,
    i: int,
    w: WalkView,
    name: Seq<char>,
)
    requires
        0 <= i < nodes.len(),
        declares_a_function(f.lang, nodes[i].kind),
        known_as(nodes, i) == Some(name),
    ensures
        ({
            let after = after_node(f, nodes, i, w);
            let d = after.definitions.last();
            let n = nodes[i];
            &&& after.definitions.len() == w.definitions.len() + 1
            &&& after.definitions.drop_last() == w.definitions
            &&& after.edges == w.edges
            &&& after.strings == w.strings
            &&& after.fns.len() > 0 && after.fns.last() == (ScopeView { depth: n.depth, name })
            &&& d.id.name == name
            &&& d.id.self_ty is None
            &&& d.id.krate is None
            &&& d.id.path is None
            &&& d.file == f.file
            &&& d.crate_root == f.file
            &&& d.module == f.module
            &&& d.line == n.row + 1
            &&& d.in_test == f.in_test
            &&& d.is_test_fn == (f.in_test || begins(name, "test_"@) || name == "setUp"@)
            &&& d.opaque == leaves_the_program(n.text, f.lang)
            &&& d.trait_impl == reached_unseen(f, nodes, i, name)
            &&& of_type(d.self_ty, w.types, n.depth)
            &&& d.is_pub == public(f, nodes, i, name, d.self_ty is Some)
            &&& !d.is_ffi
            &&& !d.allowed_dead
        }),
{
    let n = nodes[i];
    kinds_are_spelled_out(f.lang, n.kind);
    types_are_no_functions(f.lang, n.kind);
    boundaries_are_spelled_out(n.text, f.lang);
    the_innermost_type(w.types, n.depth);
    let after = after_node(f, nodes, i, w);
    assert(after.definitions.drop_last() =~= w.definitions);
    if let Some(p) = above(nodes, i) {
        the_node_above_is_found(nodes, i, p);
    } else {
        the_node_above_is_found(nodes, i, 0);
    }
    assert forall|p: int| #[trigger] directly_above(nodes, i, p) implies above(nodes, i)
        == Some(p) by {
        the_node_above_is_found(nodes, i, p);
    }
    if forall|x: Seq<char>| !#[trigger] f.exports.contains(x) {
        assert(f.exports =~= Set::<Seq<char>>::empty());
    }
}

proof fn types_are_no_functions(lang: Language, kind: Seq<char>)
    ensures
        !(declares_a_function(lang, kind) && declares_a_type(lang, kind)),
{
    reveal_strlit("function_definition");
    reveal_strlit("function_declaration");
    reveal_strlit("function_expression");
    reveal_strlit("generator_function_declaration");
    reveal_strlit("method_definition");
    reveal_strlit("arrow_function");
    reveal_strlit("generator_function");
    reveal_strlit("method_declaration");
    reveal_strlit("function_item");
    reveal_strlit("class_definition");
    reveal_strlit("class_declaration");
    reveal_strlit("class");
    reveal_strlit("type_declaration");
    reveal_strlit("impl_item");
    assert("class"@[0] == 'c' && "class_definition"@[0] == 'c' && "class_declaration"@[0] == 'c'
        && "type_declaration"@[0] == 't' && "impl_item"@[0] == 'i');
    assert(declares_a_function(lang, kind) ==> kind[0] == 'f' || kind[0] == 'g' || kind[0] == 'm'
        || kind[0] == 'a');
}

/// A node that declares a type by a name puts the walk inside it, and adds
/// nothing else.
pub proof fn types_are_entered(
    f: FileView,
    nodes: Seq<NodeView>,
    i: int,
    w: WalkView,
    name: Seq<char>,
)
    requires
        0 <= i < nodes.len(),
        declares_a_type(f.lang, nodes[i].kind),
        known_as(nodes, i) == Some(name),
    ensures
        ({
            let after = after_node(f, nodes, i, w);
            &&& nothing_more(after, w)
            &&& after.types.len() > 0
            &&& after.types.last() == (ScopeView { depth: nodes[i].depth, name })
        }),
{
    kinds_are_spelled_out(f.lang, nodes[i].kind);
}

// ---------------------------------------------------------------------------
// Values and literals
// ---------------------------------------------------------------------------

/// Below a node of this kind an identifier is passed, stored or handed back.
pub open spec fn holds_values(kind: Seq<char>) -> bool {
    ||| kind == "keyed_element"@
    ||| kind == "literal_value"@
    ||| kind == "pair"@
    ||| kind == "argument_list"@
    ||| kind == "arguments"@
    ||| kind == "assignment"@
    ||| kind == "assignment_statement"@
    ||| kind == "short_var_declaration"@
    ||| kind == "var_spec"@
    ||| kind == "const_spec"@
    ||| kind == "variable_declarator"@
    ||| kind == "return_statement"@
    ||| kind == "expression_list"@
    ||| kind == "array"@
    ||| kind == "list"@
}

/// The places at which a name is handed over are just these.
pub proof fn value_places_are_spelled_out(kind: Seq<char>)
    ensures
        value_places().contains(kind) == holds_values(kind),
{
    let all = value_places();
    assert(all[0] == "keyed_element"@);
    assert(all[1] == "literal_value"@);
    assert(all[2] == "pair"@);
    assert(all[3] == "argument_list"@);
    assert(all[4] == "arguments"@);
    assert(all[5] == "assignment"@);
    assert(all[6] == "assignment_statement"@);
    assert(all[7] == "short_var_declaration"@);
    assert(all[8] == "var_spec"@);
    assert(all[9] == "const_spec"@);
    assert(all[10] == "variable_declarator"@);
    assert(all[11] == "return_statement"@);
    assert(all[12] == "expression_list"@);
    assert(all[13] == "array"@);
    assert(all[14] == "list"@);
}

/// An identifier is handed over where it stands among values, unless it is
/// what a call calls or a name that is being bound.
pub proof fn identifiers_are_handed_over(nodes: Seq<NodeView>, i: int, p: int)
    requires
        0 <= i < nodes.len(),
        directly_above(nodes, i, p),
    ensures
        handed_over(nodes, i) <==> {
            &&& holds_values(nodes[p].kind)
            &&& !in_role(nodes, p, "name"@, i)
            &&& !in_role(nodes, p, "left"@, i)
            &&& !in_role(nodes, p, "key"@, i)
            &&& !((nodes[p].kind == "call_expression"@ || nodes[p].kind == "call"@) && in_role(
                nodes,
                p,
                "function"@,
                i,
            ))
        },
{
    the_node_above_is_found(nodes, i, p);
    roles_are_found(nodes, p, "name"@, i);
    roles_are_found(nodes, p, "left"@, i);
    roles_are_found(nodes, p, "key"@, i);
    roles_are_found(nodes, p, "function"@, i);
    value_places_are_spelled_out(nodes[p].kind);
}

proof fn names_are_only_names(lang: Language, kind: Seq<char>)
    requires
        kind == "identifier"@ || kind == "shorthand_property_identifier"@ || kind == "string"@
            || kind == "raw_string_literal"@ || kind == "interpreted_string_literal"@,
    ensures
        !declares_a_function(lang, kind),
        !declares_a_type(lang, kind),
        !crate::laws::scripts::calls_a_function(lang, kind),
        !crate::laws::scripts::uses_a_tag(lang, kind),
        kind != "call_expression"@,
        kind == "identifier"@ || kind == "shorthand_property_identifier"@ ==> kind != "string"@
            && kind != "raw_string_literal"@ && kind != "interpreted_string_literal"@,
        kind == "identifier"@ ==> kind != "shorthand_property_identifier"@,
{
    reveal_strlit("call");
    reveal_strlit("call_expression");
    reveal_strlit("new_expression");
    reveal_strlit("jsx_self_closing_element");
    reveal_strlit("jsx_opening_element");
    reveal_strlit("string");
    reveal_strlit("raw_string_literal");
    reveal_strlit("interpreted_string_literal");
    reveal_strlit("shorthand_property_identifier");
    reveal_strlit("identifier");
    reveal_strlit("function_definition");
    reveal_strlit("function_declaration");
    reveal_strlit("function_expression");
    reveal_strlit("generator_function_declaration");
    reveal_strlit("method_definition");
    reveal_strlit("arrow_function");
    reveal_strlit("generator_function");
    reveal_strlit("method_declaration");
    reveal_strlit("function_item");
    reveal_strlit("class_definition");
    reveal_strlit("class_declaration");
    reveal_strlit("class");
    reveal_strlit("type_declaration");
    reveal_strlit("impl_item");
    let len = kind.len();
    assert(len == 10 || len == 29 || len == 6 || len == 18 || len == 26);
    assert("generator_function"@[0] == 'g' && "method_declaration"@[0] == 'm');
    assert("raw_string_literal"@[0] == 'r');
    assert(declares_a_type(lang, kind) ==> len == 16 || len == 17 || len == 5 || len == 9);
    assert(crate::laws::scripts::calls_a_function(lang, kind) ==> len == 4 || len == 15 || len
        == 14);
    assert(crate::laws::scripts::uses_a_tag(lang, kind) ==> len == 24 || len == 19);
    assert(declares_a_function(lang, kind) ==> len == 19 || len == 20 || len == 30 || len == 17
        || len == 14 || len == 18 || len == 13);
    assert(declares_a_function(lang, kind) && len == 18 ==> kind[0] == 'g' || kind[0] == 'm');
}

/// An identifier that is handed over may be called by whoever gets it: that is
/// recorded, as less than a call. Any other identifier is passed over.
pub proof fn values_are_recorded(f: FileView, nodes: Seq<NodeView>, i: int, w: WalkView)
    requires
        0 <= i < nodes.len(),
        nodes[i].kind == "identifier"@,
    ensures
        if handed_over(nodes, i) {
            one_call_more(
                after_node(f, nodes, i, w),
                w,
                f,
                nodes[i].text,
                EdgeKind::MacroToken,
                nodes[i],
            )
        } else {
            nothing_more(after_node(f, nodes, i, w), w)
        },
{
    let n = nodes[i];
    kinds_are_spelled_out(f.lang, n.kind);
    names_are_only_names(f.lang, n.kind);
    crate::laws::scripts::edges_are_made_by(f, w.fns, n.text, EdgeKind::MacroToken, n);
    let after = after_node(f, nodes, i, w);
    if handed_over(nodes, i) {
        assert(after.edges.drop_last() =~= w.edges);
    }
}

/// A property that is written by its name alone uses what it names.
pub proof fn shorthand_properties_are_uses(f: FileView, nodes: Seq<NodeView>, i: int, w: WalkView)
    requires
        0 <= i < nodes.len(),
        nodes[i].kind == "shorthand_property_identifier"@,
    ensures
        one_call_more(
            after_node(f, nodes, i, w),
            w,
            f,
            nodes[i].text,
            EdgeKind::Call,
            nodes[i],
        ),
{
    let n = nodes[i];
    kinds_are_spelled_out(f.lang, n.kind);
    names_are_only_names(f.lang, n.kind);
    crate::laws::scripts::edges_are_made_by(f, w.fns, n.text, EdgeKind::Call, n);
    let after = after_node(f, nodes, i, w);
    assert(after.edges.drop_last() =~= w.edges);
}

/// The literals of a file are kept as they are written.
pub proof fn literals_are_kept(f: FileView, nodes: Seq<NodeView>, i: int, w: WalkView)
    requires
        0 <= i < nodes.len(),
        nodes[i].kind == "string"@ || nodes[i].kind == "raw_string_literal"@ || nodes[i].kind
            == "interpreted_string_literal"@,
    ensures
        ({
            let after = after_node(f, nodes, i, w);
            &&& after.strings == w.strings.push(nodes[i].text)
            &&& after.edges == w.edges
            &&& after.definitions == w.definitions
        }),
{
    let n = nodes[i];
    kinds_are_spelled_out(f.lang, n.kind);
    names_are_only_names(f.lang, n.kind);
    reveal_strlit("string");
    reveal_strlit("raw_string_literal");
    reveal_strlit("interpreted_string_literal");
    reveal_strlit("shorthand_property_identifier");
    reveal_strlit("identifier");
    assert(n.kind.len() == 6 || n.kind.len() == 18 || n.kind.len() == 26);
}

/// A definition outside tests is opaque where its body is, or where a literal
/// is its name in quotes, or a template that holds it; nothing else of it
/// changes.
#[verifier::rlimit(40)]
pub proof fn looked_up_names_are_opaque(strings: Seq<Seq<char>>, d: DefinitionView, i: int, q: char)
    ensures
        (DefinitionView { opaque: d.opaque, ..marked(strings, d) }) == d,
        d.opaque ==> marked(strings, d).opaque,
        d.in_test ==> marked(strings, d).opaque == d.opaque,
        !d.in_test && 0 <= i < strings.len() && present(strings[i], "{{"@) && present(
            strings[i],
            d.id.name,
        ) ==> marked(strings, d).opaque,
        !d.in_test && 0 <= i < strings.len() && crate::laws::scripts::quote(q) && d.id.name.len()
            > 0 && !crate::laws::scripts::quote(d.id.name[0]) && !crate::laws::scripts::quote(
            d.id.name.last(),
        ) && strings[i] == seq![q] + d.id.name + seq![q] ==> marked(strings, d).opaque,
        marked(strings, d).opaque && !d.opaque ==> exists|k: int|
            0 <= k < strings.len() && present(#[trigger] strings[k], d.id.name),
{
    let name = d.id.name;
    let set = "\"`'"@;
    reveal_strlit("\"`'");
    assert(set[0] == '"' && set[1] == '`' && set[2] == '\'');
    assert forall|c: char| #[trigger] set.contains(c) == crate::laws::scripts::quote(c) by {
        if set.contains(c) {
            let k = choose|k: int| 0 <= k < set.len() && set[k] == c;
            assert(k == 0 || k == 1 || k == 2);
        }
    }
    if 0 <= i < strings.len() && crate::laws::scripts::quote(q) && name.len() > 0
        && !crate::laws::scripts::quote(name[0]) && !crate::laws::scripts::quote(name.last())
        && strings[i] == seq![q] + name + seq![q] {
        assert(set.contains(q));
        crate::laws::texts::shedding_takes_the_ends(seq![q], name, seq![q], set);
        assert(crate::frontend::tree_sitter_frontend::looks_up(strings[i], name));
    }
    if 0 <= i < strings.len() && present(strings[i], "{{"@) && present(strings[i], name) {
        assert(crate::frontend::tree_sitter_frontend::looks_up(strings[i], name));
    }
    if marked(strings, d).opaque && !d.opaque {
        let k = choose|k: int|
            0 <= k < strings.len() && crate::frontend::tree_sitter_frontend::looks_up(
                #[trigger] strings[k],
                name,
            );
        if !present(strings[k], name) {
            crate::laws::texts::shed_is_within(strings[k], set);
        }
    }
}

/// A literal that merely mentions a name, and is neither a template nor the
/// name itself, does not look it up.
pub proof fn mentioned_names_stay_clear(strings: Seq<Seq<char>>, d: DefinitionView)
    requires
        forall|k: int|
            0 <= k < strings.len() ==> !present(#[trigger] strings[k], "{{"@) && crate::text::shed(
                strings[k],
                "\"`'"@,
            ) != d.id.name,
    ensures
        marked(strings, d) == d,
{
    if crate::frontend::tree_sitter_frontend::reflected(strings, d.id.name) {
        let k = choose|k: int|
            0 <= k < strings.len() && crate::frontend::tree_sitter_frontend::looks_up(
                #[trigger] strings[k],
                d.id.name,
            );
        assert(!present(strings[k], "{{"@));
    }
}

/// What stands above everything has no name but its own, and is handed over
/// to nobody.
pub proof fn the_top_is_bound_to_nothing(nodes: Seq<NodeView>, i: int)
    requires
        0 <= i < nodes.len(),
        forall|p: int| !#[trigger] directly_above(nodes, i, p),
    ensures
        no_role(nodes, i, "name"@) ==> known_as(nodes, i) is None,
        !handed_over(nodes, i),
{
    the_node_above_is_found(nodes, i, 0);
    roles_are_found(nodes, i, "name"@, i);
}

} // verus!
