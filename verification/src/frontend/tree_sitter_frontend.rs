//! Syntactic frontend for every language but Rust.
//!
//! What the analysis needs of a tree is small and nearly the same everywhere:
//! where functions are defined, what they call, and which class a method
//! belongs to. So one walk is told the node kinds of each language.
//!
//! Precision is nominal: a syntax tree parses, it does not resolve. What
//! cannot be told apart is reported so, never guessed at.

use vstd::prelude::*;

use crate::frontend::syntax::above;
use crate::frontend::syntax::above_of;
use crate::frontend::syntax::child;
use crate::frontend::syntax::dialect_of;
use crate::frontend::syntax::grammar;
use crate::frontend::syntax::in_subtree;
use crate::frontend::syntax::kid;
use crate::frontend::syntax::kid_of;
use crate::frontend::syntax::parse_nodes;
use crate::frontend::syntax::place;
use crate::frontend::syntax::rows_fit;
use crate::frontend::syntax::syntax;
use crate::frontend::syntax::Dialect;
use crate::frontend::syntax::NodeView;
use crate::frontend::syntax::SyntaxNode;
use crate::ir::copy_opt;
use crate::ir::opt;
use crate::ir::views;
use crate::ir::Definition;
use crate::ir::DefinitionView;
use crate::ir::Edge;
use crate::ir::EdgeKind;
use crate::ir::EdgeView;
use crate::ir::Extract;
use crate::ir::ExtractView;
use crate::ir::Frontend;
use crate::ir::Input;
use crate::ir::Precision;
use crate::ir::SymbolId;
use crate::ir::SymbolView;
use crate::ir::TEST_MODULE_ROOT;
use crate::lang::Language;
use crate::names::NameSet;
use crate::paths::file_name;
use crate::paths::file_name_of;
use crate::source::SourceFile;
use crate::source::SourceView;
use crate::text::after_last;
use crate::text::begins;
use crate::text::chars_of;
use crate::text::ends;
use crate::text::lists_literal;
use crate::text::literals;
use crate::text::present;
use crate::text::same;
use crate::text::shed;
use crate::text::string_of;
use crate::text::tail_after_last;
use crate::text::texts;
use crate::text::trim;
use crate::text::trimmed;
use crate::text::uppercase;

verus! {

// ---------------------------------------------------------------------------
// What each language calls things
// ---------------------------------------------------------------------------

/// The kinds that declare a callable. A function value in a script carries no
/// name of its own, yet is how most functions there are written.
pub open spec fn function_kinds(lang: Language) -> Seq<Seq<char>> {
    match lang {
        Language::Python => seq!["function_definition"@],
        Language::TypeScript => seq![
            "function_declaration"@,
            "function_expression"@,
            "generator_function_declaration"@,
            "method_definition"@,
            "arrow_function"@,
            "generator_function"@,
        ],
        Language::Go => seq!["function_declaration"@, "method_declaration"@],
        Language::Rust => seq!["function_item"@],
    }
}

/// The kinds that introduce a type to which methods belong.
pub open spec fn type_kinds(lang: Language) -> Seq<Seq<char>> {
    match lang {
        Language::Python => seq!["class_definition"@],
        Language::TypeScript => seq!["class_declaration"@, "class"@],
        Language::Go => seq!["type_declaration"@],
        Language::Rust => seq!["impl_item"@],
    }
}

/// The kinds that invoke something. A component is used by its tag.
pub open spec fn call_kinds(lang: Language) -> Seq<Seq<char>> {
    match lang {
        Language::Python => seq!["call"@],
        Language::TypeScript => seq![
            "call_expression"@,
            "new_expression"@,
            "jsx_self_closing_element"@,
            "jsx_opening_element"@,
        ],
        Language::Go => seq!["call_expression"@],
        Language::Rust => seq!["call_expression"@],
    }
}

fn declares_function(lang: Language, kind: &str) -> (r: bool)
    ensures
        r == function_kinds(lang).contains(kind@),
{
    let list: &[&'static str] = match lang {
        Language::Python => &["function_definition"],
        Language::TypeScript => &[
            "function_declaration",
            "function_expression",
            "generator_function_declaration",
            "method_definition",
            "arrow_function",
            "generator_function",
        ],
        Language::Go => &["function_declaration", "method_declaration"],
        Language::Rust => &["function_item"],
    };
    assert(literals(list@) =~= function_kinds(lang));
    lists_literal(list, kind)
}

fn declares_type(lang: Language, kind: &str) -> (r: bool)
    ensures
        r == type_kinds(lang).contains(kind@),
{
    let list: &[&'static str] = match lang {
        Language::Python => &["class_definition"],
        Language::TypeScript => &["class_declaration", "class"],
        Language::Go => &["type_declaration"],
        Language::Rust => &["impl_item"],
    };
    assert(literals(list@) =~= type_kinds(lang));
    lists_literal(list, kind)
}

fn invokes(lang: Language, kind: &str) -> (r: bool)
    ensures
        r == call_kinds(lang).contains(kind@),
{
    let list: &[&'static str] = match lang {
        Language::Python => &["call"],
        Language::TypeScript => &[
            "call_expression",
            "new_expression",
            "jsx_self_closing_element",
            "jsx_opening_element",
        ],
        Language::Go => &["call_expression"],
        Language::Rust => &["call_expression"],
    };
    assert(literals(list@) =~= call_kinds(lang));
    lists_literal(list, kind)
}

/// The words that show a body to run code through something that no call edge
/// crosses: a process, a socket, a browser, a database.
pub open spec fn boundary_marks(lang: Language) -> Seq<Seq<char>> {
    match lang {
        Language::Python => seq![
            "subprocess"@,
            "Popen"@,
            "os.system"@,
            "os.exec"@,
            "pexpect"@,
            "requests."@,
            "httpx."@,
            "aiohttp"@,
            "urllib.request"@,
            "socket."@,
            "selenium"@,
            "webdriver"@,
            "docker"@,
            "psycopg"@,
            "pymongo"@,
        ],
        Language::Go => seq![
            "exec.Command"@,
            "os/exec"@,
            "httptest."@,
            "http.Get"@,
            "http.Post"@,
            "net.Dial"@,
            "net.Listen"@,
            "sql.Open"@,
            "testcontainers"@,
        ],
        Language::TypeScript => seq![
            "child_process"@,
            "execSync"@,
            "spawnSync"@,
            "spawn("@,
            "execa"@,
            "puppeteer"@,
            "playwright"@,
            "supertest"@,
            "axios."@,
            "fetch("@,
            "request("@,
            "WebSocket"@,
            "testcontainers"@,
        ],
        Language::Rust => seq![
            "Command::new"@,
            "TcpStream"@,
            "TcpListener"@,
            "UdpSocket"@,
            "UnixStream"@,
            "reqwest"@,
            "testcontainers"@,
        ],
    }
}

/// One of the words stands in the text. A mention in a comment counts too:
/// to mark too much only runs a test too often.
pub open spec fn crosses(text: Seq<char>, lang: Language) -> bool {
    exists|i: int|
        0 <= i < boundary_marks(lang).len() && present(text, #[trigger] boundary_marks(lang)[i])
}

/// Whether a body runs code through something that no call edge crosses.
pub fn crosses_a_boundary(text: &str, lang: Language) -> (r: bool)
    ensures
        r == crosses(text@, lang),
{
    let marks: &[&'static str] = match lang {
        Language::Python => &[
            "subprocess",
            "Popen",
            "os.system",
            "os.exec",
            "pexpect",
            "requests.",
            "httpx.",
            "aiohttp",
            "urllib.request",
            "socket.",
            "selenium",
            "webdriver",
            "docker",
            "psycopg",
            "pymongo",
        ],
        Language::Go => &[
            "exec.Command",
            "os/exec",
            "httptest.",
            "http.Get",
            "http.Post",
            "net.Dial",
            "net.Listen",
            "sql.Open",
            "testcontainers",
        ],
        Language::TypeScript => &[
            "child_process",
            "execSync",
            "spawnSync",
            "spawn(",
            "execa",
            "puppeteer",
            "playwright",
            "supertest",
            "axios.",
            "fetch(",
            "request(",
            "WebSocket",
            "testcontainers",
        ],
        Language::Rust => &[
            "Command::new",
            "TcpStream",
            "TcpListener",
            "UdpSocket",
            "UnixStream",
            "reqwest",
            "testcontainers",
        ],
    };
    assert(literals(marks@) =~= boundary_marks(lang));
    let c = chars_of(text);
    let len: usize = marks.len();
    let mut i: usize = 0;
    while i < len
        invariant
            0 <= i <= len,
            len == marks@.len(),
            literals(marks@) == boundary_marks(lang),
            c@ == text@,
            forall|k: int| 0 <= k < i ==> !present(text@, #[trigger] boundary_marks(lang)[k]),
        decreases len - i,
    {
        assert(literals(marks@)[i as int] == marks@[i as int]@);
        if crate::text::contains(&c, marks[i]) {
            assert(present(text@, boundary_marks(lang)[i as int]));
            return true;
        }
        i += 1;
    }
    false
}

// ---------------------------------------------------------------------------
// Names in a tree
// ---------------------------------------------------------------------------

/// The role in which the binding of a function value holds its name.
pub open spec fn binding_role(kind: Seq<char>) -> Option<Seq<char>> {
    if kind == "variable_declarator"@ || kind == "public_field_definition"@ || kind
        == "field_definition"@ || kind == "var_spec"@ || kind == "const_spec"@ {
        Some("name"@)
    } else if kind == "pair"@ {
        Some("key"@)
    } else if kind == "assignment"@ || kind == "short_var_declaration"@ {
        Some("left"@)
    } else {
        None
    }
}

/// The node is a plain name: no destructuring, no computed key, no member.
pub open spec fn plain_name(kind: Seq<char>) -> bool {
    kind == "identifier"@ || kind == "property_identifier"@ || kind == "type_identifier"@
}

/// The name by which a callable is known: its own, or that of the binding
/// right above a function value. A callback has none.
pub open spec fn known_as(nodes: Seq<NodeView>, i: int) -> Option<Seq<char>> {
    match kid(nodes, i, "name"@) {
        Some(k) => Some(nodes[k].text),
        None => match above(nodes, i) {
            None => None,
            Some(p) => match binding_role(nodes[p].kind) {
                None => None,
                Some(role) => match kid(nodes, p, role) {
                    None => None,
                    Some(k) => if plain_name(nodes[k].kind) {
                        Some(nodes[k].text)
                    } else {
                        None
                    },
                },
            },
        },
    }
}

fn binding_field(kind: &str) -> (r: Option<&'static str>)
    ensures
        match r {
            Some(f) => binding_role(kind@) == Some(f@),
            None => binding_role(kind@) is None,
        },
{
    if same(kind, "variable_declarator") || same(kind, "public_field_definition") || same(
        kind,
        "field_definition",
    ) || same(kind, "var_spec") || same(kind, "const_spec") {
        Some("name")
    } else if same(kind, "pair") {
        Some("key")
    } else if same(kind, "assignment") || same(kind, "short_var_declaration") {
        Some("left")
    } else {
        None
    }
}

fn is_plain_name(kind: &str) -> (r: bool)
    ensures
        r == plain_name(kind@),
{
    same(kind, "identifier") || same(kind, "property_identifier") || same(kind, "type_identifier")
}

/// The name by which a callable is known.
fn named(nodes: &Vec<SyntaxNode>, i: usize) -> (r: Option<String>)
    requires
        i < nodes@.len(),
    ensures
        opt(r) == known_as(views(nodes@), i as int),
{
    let ghost v = views(nodes@);
    if let Some(k) = kid_of(nodes, i, "name") {
        assert(v[k as int] == nodes@[k as int]@);
        return Some(nodes[k].text.clone());
    }
    match above_of(nodes, i) {
        None => None,
        Some(p) => {
            assert(v[p as int] == nodes@[p as int]@);
            match binding_field(nodes[p].kind.as_str()) {
                None => None,
                Some(role) => match kid_of(nodes, p, role) {
                    None => None,
                    Some(k) => {
                        assert(v[k as int] == nodes@[k as int]@);
                        if is_plain_name(nodes[k].kind.as_str()) {
                            Some(nodes[k].text.clone())
                        } else {
                            None
                        }
                    },
                },
            }
        },
    }
}

/// The text starts with a capital.
pub open spec fn capital(s: Seq<char>) -> bool {
    s.len() > 0 && uppercase(s[0])
}

fn has_capital(s: &str) -> (r: bool)
    ensures
        r == capital(s@),
{
    let c = chars_of(s);
    c.len() > 0 && c[0].is_uppercase()
}

/// The member that an access names.
pub open spec fn member(nodes: Seq<NodeView>, i: int) -> Option<int> {
    match kid(nodes, i, "attribute"@) {
        Some(k) => Some(k),
        None => match kid(nodes, i, "property"@) {
            Some(k) => Some(k),
            None => kid(nodes, i, "field"@),
        },
    }
}

/// The name that a call ultimately names: an identifier, the last segment of
/// an access, or a component's tag, which a capital tells from a plain
/// element. Anything else is no name.
pub open spec fn called(nodes: Seq<NodeView>, i: int) -> Option<Seq<char>> {
    if begins(nodes[i].kind, "jsx_"@) {
        match kid(nodes, i, "name"@) {
            None => None,
            Some(k) => if capital(nodes[k].text) {
                Some(after_last(nodes[k].text, "."@))
            } else {
                None
            },
        }
    } else {
        match kid(nodes, i, "function"@) {
            None => None,
            Some(f) => {
                let kind = nodes[f].kind;
                if kind == "identifier"@ || kind == "type_identifier"@ || kind
                    == "field_identifier"@ {
                    Some(nodes[f].text)
                } else if kind == "attribute"@ || kind == "member_expression"@ || kind
                    == "selector_expression"@ {
                    match member(nodes, f) {
                        Some(k) => Some(nodes[k].text),
                        None => None,
                    }
                } else {
                    None
                }
            },
        }
    }
}

fn member_of(nodes: &Vec<SyntaxNode>, i: usize) -> (r: Option<usize>)
    requires
        i < nodes@.len(),
    ensures
        place(r) == member(views(nodes@), i as int),
        r matches Some(k) ==> k < nodes@.len(),
{
    if let Some(k) = kid_of(nodes, i, "attribute") {
        return Some(k);
    }
    if let Some(k) = kid_of(nodes, i, "property") {
        return Some(k);
    }
    kid_of(nodes, i, "field")
}

/// The name that a call ultimately names.
fn callee(nodes: &Vec<SyntaxNode>, i: usize) -> (r: Option<String>)
    requires
        i < nodes@.len(),
    ensures
        opt(r) == called(views(nodes@), i as int),
{
    let ghost v = views(nodes@);
    let kind = chars_of(nodes[i].kind.as_str());
    assert(v[i as int] == nodes@[i as int]@);
    if crate::text::starts_with(&kind, "jsx_") {
        return match kid_of(nodes, i, "name") {
            None => None,
            Some(k) => {
                assert(v[k as int] == nodes@[k as int]@);
                let text = nodes[k].text.as_str();
                if has_capital(text) {
                    let c = chars_of(text);
                    Some(string_of(tail_after_last(&c, ".")))
                } else {
                    None
                }
            },
        };
    }
    match kid_of(nodes, i, "function") {
        None => None,
        Some(f) => {
            assert(v[f as int] == nodes@[f as int]@);
            let kind = nodes[f].kind.as_str();
            if same(kind, "identifier") || same(kind, "type_identifier") || same(
                kind,
                "field_identifier",
            ) {
                Some(nodes[f].text.clone())
            } else if same(kind, "attribute") || same(kind, "member_expression") || same(
                kind,
                "selector_expression",
            ) {
                match member_of(nodes, f) {
                    Some(k) => {
                        assert(v[k as int] == nodes@[k as int]@);
                        Some(nodes[k].text.clone())
                    },
                    None => None,
                }
            } else {
                None
            }
        },
    }
}

/// The node or one above it exports.
pub open spec fn under_export(nodes: Seq<NodeView>, i: int) -> bool
    decreases i,
{
    if i < 0 {
        false
    } else if nodes[i].kind == "export_statement"@ || nodes[i].kind == "export_clause"@ {
        true
    } else {
        match above(nodes, i) {
            Some(p) => if 0 <= p < i {
                under_export(nodes, p)
            } else {
                false
            },
            None => false,
        }
    }
}

fn is_under_export(nodes: &Vec<SyntaxNode>, i: usize) -> (r: bool)
    requires
        i < nodes@.len(),
    ensures
        r == under_export(views(nodes@), i as int),
{
    let ghost v = views(nodes@);
    let mut at: usize = i;
    loop
        invariant
            at < nodes@.len(),
            v == views(nodes@),
            under_export(v, i as int) == under_export(v, at as int),
        decreases at,
    {
        assert(v[at as int] == nodes@[at as int]@);
        let kind = nodes[at].kind.as_str();
        if same(kind, "export_statement") || same(kind, "export_clause") {
            return true;
        }
        match above_of(nodes, at) {
            Some(p) => {
                at = p;
            },
            None => {
                return false;
            },
        }
    }
}

/// The definition is part of what the outside can reach, as each language
/// states it: by a capital, by an export above it, or by an export list. That
/// list speaks of top-level names alone; a method, and a project without a
/// list, fall back to the leading underscore.
pub open spec fn exported(
    lang: Language,
    nodes: Seq<NodeView>,
    i: int,
    name: Seq<char>,
    in_type: bool,
    exports: Set<Seq<char>>,
) -> bool {
    match lang {
        Language::Go => capital(name),
        Language::TypeScript => under_export(nodes, i),
        Language::Python => if !in_type && exports != Set::<Seq<char>>::empty() {
            exports.contains(name)
        } else {
            !begins(name, "_"@)
        },
        Language::Rust => !begins(name, "_"@),
    }
}

fn is_exported(
    lang: Language,
    nodes: &Vec<SyntaxNode>,
    i: usize,
    name: &str,
    in_type: bool,
    exports: &NameSet,
) -> (r: bool)
    requires
        i < nodes@.len(),
    ensures
        r == exported(lang, views(nodes@), i as int, name@, in_type, exports@),
{
    let c = chars_of(name);
    match lang {
        Language::Go => has_capital(name),
        Language::TypeScript => is_under_export(nodes, i),
        Language::Python => {
            let n: usize = exports.len();
            proof {
                if n == 0 {
                    assert(exports@ =~= Set::<Seq<char>>::empty());
                } else {
                    assert(exports@.contains(exports.list()[0]));
                }
            }
            if !in_type && n > 0 {
                exports.contains(name)
            } else {
                !crate::text::starts_with(&c, "_")
            }
        },
        Language::Rust => !crate::text::starts_with(&c, "_"),
    }
}

/// The first node from `j` on that stands directly below `i` and is named.
pub open spec fn named_from(nodes: Seq<NodeView>, i: int, j: int) -> Option<int>
    decreases nodes.len() - j,
{
    if j < 0 || j >= nodes.len() || nodes[j].depth <= nodes[i].depth {
        None
    } else if nodes[j].depth == nodes[i].depth + 1 && nodes[j].named {
        Some(j)
    } else {
        named_from(nodes, i, j + 1)
    }
}

pub open spec fn is_body(kind: Seq<char>) -> bool {
    kind == "arrow_function"@ || kind == "function_expression"@ || kind == "function"@
}

/// A function stands among the arguments from `j` on.
pub open spec fn body_from(nodes: Seq<NodeView>, i: int, j: int) -> bool
    decreases nodes.len() - j,
{
    if j < 0 || j >= nodes.len() || nodes[j].depth <= nodes[i].depth {
        false
    } else {
        (nodes[j].depth == nodes[i].depth + 1 && nodes[j].named && is_body(nodes[j].kind))
            || body_from(nodes, i, j + 1)
    }
}

/// The test that a call declares: `test("name", fn)` or `it("name", fn)`. The
/// name is what the runner prints. One without a body is a placeholder.
pub open spec fn test_declared(nodes: Seq<NodeView>, i: int) -> Option<Seq<char>> {
    match (kid(nodes, i, "function"@), kid(nodes, i, "arguments"@)) {
        (Some(f), Some(args)) => {
            let base = after_last(nodes[f].text, "."@);
            match named_from(nodes, args, args + 1) {
                Some(first) => {
                    let name = trimmed(shed(nodes[first].text, "\"'`"@));
                    if (base == "test"@ || base == "it"@) && nodes[first].kind == "string"@
                        && body_from(nodes, args, first + 1) && name.len() > 0 {
                        Some(name)
                    } else {
                        None
                    }
                },
                None => None,
            }
        },
        _ => None,
    }
}

fn first_named(nodes: &Vec<SyntaxNode>, i: usize) -> (r: Option<usize>)
    requires
        i < nodes@.len(),
    ensures
        place(r) == named_from(views(nodes@), i as int, i + 1),
        r matches Some(k) ==> i < k < nodes@.len(),
{
    let ghost v = views(nodes@);
    let depth: usize = nodes[i].depth;
    let len: usize = nodes.len();
    let mut j: usize = i + 1;
    while j < len
        invariant
            i < j <= len,
            len == nodes@.len(),
            v == views(nodes@),
            depth == v[i as int].depth,
            named_from(v, i as int, i + 1) == named_from(v, i as int, j as int),
        decreases len - j,
    {
        let n = &nodes[j];
        assert(v[j as int] == n@);
        if n.depth <= depth {
            return None;
        }
        if n.depth - depth == 1 && n.named {
            return Some(j);
        }
        j += 1;
    }
    None
}

fn body_after(nodes: &Vec<SyntaxNode>, i: usize, from: usize) -> (r: bool)
    requires
        i < nodes@.len(),
        from < nodes@.len(),
    ensures
        r == body_from(views(nodes@), i as int, from + 1),
{
    let ghost v = views(nodes@);
    let depth: usize = nodes[i].depth;
    let len: usize = nodes.len();
    let mut j: usize = from + 1;
    while j < len
        invariant
            i < len,
            from < j <= len,
            len == nodes@.len(),
            v == views(nodes@),
            depth == v[i as int].depth,
            body_from(v, i as int, from + 1) == body_from(v, i as int, j as int),
        decreases len - j,
    {
        let n = &nodes[j];
        assert(v[j as int] == n@);
        if n.depth <= depth {
            return false;
        }
        if n.depth - depth == 1 && n.named && (same(n.kind.as_str(), "arrow_function") || same(
            n.kind.as_str(),
            "function_expression",
        ) || same(n.kind.as_str(), "function")) {
            return true;
        }
        j += 1;
    }
    false
}

/// The test that a call declares.
fn declared_test(nodes: &Vec<SyntaxNode>, i: usize) -> (r: Option<String>)
    requires
        i < nodes@.len(),
    ensures
        opt(r) == test_declared(views(nodes@), i as int),
{
    let ghost v = views(nodes@);
    match (kid_of(nodes, i, "function"), kid_of(nodes, i, "arguments")) {
        (Some(f), Some(args)) => {
            assert(v[f as int] == nodes@[f as int]@);
            let which = chars_of(nodes[f].text.as_str());
            let base = string_of(tail_after_last(&which, "."));
            match first_named(nodes, args) {
                Some(first) => {
                    assert(v[first as int] == nodes@[first as int]@);
                    let raw = chars_of(nodes[first].text.as_str());
                    let name = trim(crate::text::shed_chars(&raw, "\"'`"));
                    if (same(base.as_str(), "test") || same(base.as_str(), "it")) && same(
                        nodes[first].kind.as_str(),
                        "string",
                    ) && body_after(nodes, args, first) && name.len() > 0 {
                        Some(string_of(name))
                    } else {
                        None
                    }
                },
                None => None,
            }
        },
        _ => None,
    }
}

/// The kinds under which an identifier is passed, stored or handed back.
pub open spec fn value_places() -> Seq<Seq<char>> {
    seq![
        "keyed_element"@,
        "literal_value"@,
        "pair"@,
        "argument_list"@,
        "arguments"@,
        "assignment"@,
        "assignment_statement"@,
        "short_var_declaration"@,
        "var_spec"@,
        "const_spec"@,
        "variable_declarator"@,
        "return_statement"@,
        "expression_list"@,
        "array"@,
        "list"@,
    ]
}

/// The identifier is passed or stored as a value: it is neither what a call
/// calls nor a name that is being bound.
pub open spec fn handed_over(nodes: Seq<NodeView>, i: int) -> bool {
    match above(nodes, i) {
        None => false,
        Some(p) => {
            let kind = nodes[p].kind;
            &&& !((kind == "call_expression"@ || kind == "call"@) && kid(nodes, p, "function"@)
                == Some(i))
            &&& kid(nodes, p, "name"@) != Some(i)
            &&& kid(nodes, p, "left"@) != Some(i)
            &&& kid(nodes, p, "key"@) != Some(i)
            &&& value_places().contains(kind)
        },
    }
}

fn is_kid(nodes: &Vec<SyntaxNode>, p: usize, field: &str, i: usize) -> (r: bool)
    requires
        p < nodes@.len(),
    ensures
        r == (kid(views(nodes@), p as int, field@) == Some(i as int)),
{
    match kid_of(nodes, p, field) {
        Some(k) => k == i,
        None => false,
    }
}

/// Whether an identifier is passed or stored, rather than called.
fn names_a_value(nodes: &Vec<SyntaxNode>, i: usize) -> (r: bool)
    requires
        i < nodes@.len(),
    ensures
        r == handed_over(views(nodes@), i as int),
{
    let ghost v = views(nodes@);
    match above_of(nodes, i) {
        None => false,
        Some(p) => {
            assert(v[p as int] == nodes@[p as int]@);
            let kind = nodes[p].kind.as_str();
            if (same(kind, "call_expression") || same(kind, "call")) && is_kid(
                nodes,
                p,
                "function",
                i,
            ) {
                return false;
            }
            if is_kid(nodes, p, "name", i) || is_kid(nodes, p, "left", i) || is_kid(
                nodes,
                p,
                "key",
                i,
            ) {
                return false;
            }
            let list: &[&'static str] = &[
                "keyed_element",
                "literal_value",
                "pair",
                "argument_list",
                "arguments",
                "assignment",
                "assignment_statement",
                "short_var_declaration",
                "var_spec",
                "const_spec",
                "variable_declarator",
                "return_statement",
                "expression_list",
                "array",
                "list",
            ];
            assert(literals(list@) =~= value_places());
            lists_literal(list, kind)
        },
    }
}

// ---------------------------------------------------------------------------
// The walk
// ---------------------------------------------------------------------------

/// What the walk knows of a file.
#[verifier::ext_equal]
pub struct FileView {
    pub lang: Language,
    pub file: Seq<char>,
    pub module: Option<Seq<char>>,
    pub in_test: bool,
    pub exports: Set<Seq<char>>,
}

/// What the walk is told of a file.
pub struct FileFacts<'a> {
    pub lang: Language,
    pub file: &'a str,
    pub module: Option<String>,
    /// The whole file is test code.
    pub in_test: bool,
    /// The names that the project states are its public API.
    pub exports: &'a NameSet,
}

impl<'a> FileFacts<'a> {
    pub open spec fn view(&self) -> FileView {
        FileView {
            lang: self.lang,
            file: self.file@,
            module: opt(self.module),
            in_test: self.in_test,
            exports: self.exports@,
        }
    }
}

/// Something that the walk is inside of.
#[verifier::ext_equal]
pub struct ScopeView {
    pub depth: nat,
    pub name: Seq<char>,
}

struct Scope {
    depth: usize,
    name: String,
}

impl Scope {
    spec fn view(&self) -> ScopeView {
        ScopeView { depth: self.depth as nat, name: self.name@ }
    }
}

spec fn scopes(s: Seq<Scope>) -> Seq<ScopeView> {
    s.map_values(|x: Scope| x.view())
}

/// What the walk has found, and what it is inside of.
#[verifier::ext_equal]
pub struct WalkView {
    pub definitions: Seq<DefinitionView>,
    pub edges: Seq<EdgeView>,
    pub strings: Seq<Seq<char>>,
    pub fns: Seq<ScopeView>,
    pub types: Seq<ScopeView>,
}

/// What encloses a node at `depth`.
pub open spec fn enclosing(stack: Seq<ScopeView>, depth: nat) -> Seq<ScopeView>
    decreases stack.len(),
{
    if stack.len() > 0 && stack.last().depth >= depth {
        enclosing(stack.drop_last(), depth)
    } else {
        stack
    }
}

/// Who makes the calls that stand outside any function: the module itself,
/// which in a test file is no production code.
pub open spec fn caller(f: FileView, fns: Seq<ScopeView>) -> Seq<char> {
    if fns.len() > 0 {
        fns.last().name
    } else if f.in_test {
        TEST_MODULE_ROOT@
    } else {
        ""@
    }
}

pub open spec fn edge_at(
    f: FileView,
    fns: Seq<ScopeView>,
    to: Seq<char>,
    kind: EdgeKind,
    row: nat,
) -> EdgeView {
    EdgeView {
        from: SymbolView::bare(caller(f, fns)),
        to: SymbolView::bare(to),
        kind,
        precision: Precision::Nominal,
        in_test: f.in_test,
        file: f.file,
        line: row + 1,
    }
}

/// The definition may be reached by dispatch that no call site shows: the
/// language calls a method with double underscores, a property of an object
/// is reached through the object, and an exported method through any
/// interface that it fits.
pub open spec fn dispatched(
    lang: Language,
    nodes: Seq<NodeView>,
    i: int,
    name: Seq<char>,
) -> bool {
    ||| lang == Language::Python && begins(name, "__"@) && ends(name, "__"@)
    ||| match above(nodes, i) {
        Some(p) => nodes[p].kind == "pair"@,
        None => false,
    }
    ||| lang == Language::Go && nodes[i].kind == "method_declaration"@ && capital(name)
}

/// A named function at node `i`.
pub open spec fn function_at(
    f: FileView,
    nodes: Seq<NodeView>,
    i: int,
    name: Seq<char>,
    types: Seq<ScopeView>,
) -> DefinitionView {
    DefinitionView {
        id: SymbolView::bare(name),
        precision: Precision::Nominal,
        file: f.file,
        line: nodes[i].row + 1,
        in_test: f.in_test,
        is_test_fn: f.in_test || begins(name, "test_"@) || name == "setUp"@,
        trait_impl: dispatched(f.lang, nodes, i, name),
        allowed_dead: false,
        is_pub: exported(f.lang, nodes, i, name, types.len() > 0, f.exports),
        is_ffi: false,
        opaque: crosses(nodes[i].text, f.lang),
        crate_root: f.file,
        self_ty: if types.len() > 0 {
            Some(types.last().name)
        } else {
            None
        },
        module: f.module,
    }
}

/// A test that a call at node `i` declares.
pub open spec fn test_at(
    f: FileView,
    nodes: Seq<NodeView>,
    i: int,
    name: Seq<char>,
) -> DefinitionView {
    DefinitionView {
        id: SymbolView::bare(name),
        precision: Precision::Nominal,
        file: f.file,
        line: nodes[i].row + 1,
        in_test: true,
        is_test_fn: true,
        trait_impl: false,
        allowed_dead: false,
        is_pub: false,
        is_ffi: false,
        opaque: crosses(nodes[i].text, f.lang),
        crate_root: f.file,
        self_ty: None,
        module: f.module,
    }
}

/// The walk with the literal at node `i`, where it is one.
pub open spec fn with_literal(nodes: Seq<NodeView>, i: int, w: WalkView) -> WalkView {
    let kind = nodes[i].kind;
    if kind == "string"@ || kind == "raw_string_literal"@ || kind
        == "interpreted_string_literal"@ {
        WalkView { strings: w.strings.push(nodes[i].text), ..w }
    } else {
        w
    }
}

/// The walk with the use that is no call at node `i`, where it is one: a
/// property written by its name alone, or a function handed over as a value.
pub open spec fn with_use(f: FileView, nodes: Seq<NodeView>, i: int, w: WalkView) -> WalkView {
    let n = nodes[i];
    if n.kind == "shorthand_property_identifier"@ {
        WalkView {
            edges: w.edges.push(edge_at(f, w.fns, n.text, EdgeKind::Call, n.row)),
            ..w
        }
    } else if n.kind == "identifier"@ && handed_over(nodes, i) {
        WalkView {
            edges: w.edges.push(edge_at(f, w.fns, n.text, EdgeKind::MacroToken, n.row)),
            ..w
        }
    } else {
        w
    }
}

/// The walk with what node `i` calls, where it calls something.
pub open spec fn with_call(f: FileView, nodes: Seq<NodeView>, i: int, w: WalkView) -> WalkView {
    match called(nodes, i) {
        Some(to) => if call_kinds(f.lang).contains(nodes[i].kind) {
            WalkView {
                edges: w.edges.push(edge_at(f, w.fns, to, EdgeKind::Call, nodes[i].row)),
                ..w
            }
        } else {
            w
        },
        None => w,
    }
}

/// The walk after node `i`.
pub open spec fn after_node(f: FileView, nodes: Seq<NodeView>, i: int, before: WalkView) -> WalkView {
    let n = nodes[i];
    let w = WalkView {
        fns: enclosing(before.fns, n.depth),
        types: enclosing(before.types, n.depth),
        ..before
    };
    let name = known_as(nodes, i);
    if type_kinds(f.lang).contains(n.kind) && name is Some {
        WalkView { types: w.types.push(ScopeView { depth: n.depth, name: name->0 }), ..w }
    } else if function_kinds(f.lang).contains(n.kind) && name is Some {
        WalkView {
            definitions: w.definitions.push(function_at(f, nodes, i, name->0, w.types)),
            fns: w.fns.push(ScopeView { depth: n.depth, name: name->0 }),
            ..w
        }
    } else {
        let used = with_use(f, nodes, i, with_literal(nodes, i, w));
        let test = test_declared(nodes, i);
        if f.lang == Language::TypeScript && n.kind == "call_expression"@ && test is Some {
            WalkView {
                definitions: used.definitions.push(test_at(f, nodes, i, test->0)),
                fns: used.fns.push(ScopeView { depth: n.depth, name: test->0 }),
                ..used
            }
        } else {
            with_call(f, nodes, i, used)
        }
    }
}

/// The walk over the first `n` nodes, begun with what was found before.
pub open spec fn walked(
    f: FileView,
    nodes: Seq<NodeView>,
    n: int,
    start: WalkView,
) -> WalkView
    decreases n,
{
    if n <= 0 {
        WalkView { fns: seq![], types: seq![], ..start }
    } else {
        after_node(f, nodes, n - 1, walked(f, nodes, n - 1, start))
    }
}

struct Walker {
    definitions: Vec<Definition>,
    edges: Vec<Edge>,
    strings: Vec<String>,
    fns: Vec<Scope>,
    types: Vec<Scope>,
}

impl Walker {
    spec fn view(&self) -> WalkView {
        WalkView {
            definitions: views(self.definitions@),
            edges: views(self.edges@),
            strings: texts(self.strings@),
            fns: scopes(self.fns@),
            types: scopes(self.types@),
        }
    }

    fn record(&mut self, f: &FileFacts, to: String, kind: EdgeKind, row: usize)
        requires
            row < usize::MAX,
        ensures
            final(self)@ == (WalkView {
                edges: old(self)@.edges.push(
                    edge_at(f@, old(self)@.fns, to@, kind, row as nat),
                ),
                ..old(self)@
            }),
    {
        let ghost before = *self;
        let n: usize = self.fns.len();
        let from = if n > 0 {
            SymbolId::nominal(self.fns[n - 1].name.as_str())
        } else if f.in_test {
            SymbolId::nominal(TEST_MODULE_ROOT)
        } else {
            SymbolId::nominal("")
        };
        let e = Edge {
            from,
            to: SymbolId::nominal(to.as_str()),
            kind,
            precision: Precision::Nominal,
            in_test: f.in_test,
            file: f.file.to_owned(),
            line: row + 1,
        };
        proof {
            crate::seqs::map_push(self.edges@, |x: Edge| x@, e);
            assert(e@ =~= edge_at(f@, before@.fns, to@, kind, row as nat));
        }
        self.edges.push(e);
        assert(self@ =~= (WalkView { edges: before@.edges.push(e@), ..before@ }));
    }

    fn define(&mut self, d: Definition)
        ensures
            final(self)@ == (WalkView {
                definitions: old(self)@.definitions.push(d@),
                ..old(self)@
            }),
    {
        let ghost before = *self;
        proof {
            crate::seqs::map_push(self.definitions@, |x: Definition| x@, d);
        }
        self.definitions.push(d);
        assert(self@ =~= (WalkView { definitions: before@.definitions.push(d@), ..before@ }));
    }

    fn enter(&mut self, depth: usize, name: String)
        ensures
            final(self)@ == (WalkView {
                fns: old(self)@.fns.push(ScopeView { depth: depth as nat, name: name@ }),
                ..old(self)@
            }),
    {
        let ghost before = *self;
        let s = Scope { depth, name };
        proof {
            crate::seqs::map_push(self.fns@, |x: Scope| x.view(), s);
        }
        self.fns.push(s);
        assert(self@ =~= (WalkView { fns: before@.fns.push(s.view()), ..before@ }));
    }

    fn enter_type(&mut self, depth: usize, name: String)
        ensures
            final(self)@ == (WalkView {
                types: old(self)@.types.push(ScopeView { depth: depth as nat, name: name@ }),
                ..old(self)@
            }),
    {
        let ghost before = *self;
        let s = Scope { depth, name };
        proof {
            crate::seqs::map_push(self.types@, |x: Scope| x.view(), s);
        }
        self.types.push(s);
        assert(self@ =~= (WalkView { types: before@.types.push(s.view()), ..before@ }));
    }

    /// Leaves all that does not enclose a node at `depth`.
    fn leave(&mut self, depth: usize)
        ensures
            final(self)@ == (WalkView {
                fns: enclosing(old(self)@.fns, depth as nat),
                types: enclosing(old(self)@.types, depth as nat),
                ..old(self)@
            }),
    {
        let ghost before = *self;
        leave_scopes(&mut self.fns, depth);
        leave_scopes(&mut self.types, depth);
        assert(self@ =~= (WalkView {
            fns: enclosing(before@.fns, depth as nat),
            types: enclosing(before@.types, depth as nat),
            ..before@
        }));
    }

    fn function(&self, f: &FileFacts, nodes: &Vec<SyntaxNode>, i: usize, name: &str) -> (r:
        Definition)
        requires
            i < nodes@.len(),
            rows_fit(views(nodes@)),
        ensures
            r@ == function_at(f@, views(nodes@), i as int, name@, self@.types),
    {
        let ghost v = views(nodes@);
        let n = &nodes[i];
        proof {
            assert(v[i as int] == n@);
        }
        let c = chars_of(name);
        let t: usize = self.types.len();
        let in_object = match above_of(nodes, i) {
            Some(p) => {
                assert(v[p as int] == nodes@[p as int]@);
                same(nodes[p].kind.as_str(), "pair")
            },
            None => false,
        };
        Definition {
            id: SymbolId::nominal(name),
            precision: Precision::Nominal,
            file: f.file.to_owned(),
            line: n.row + 1,
            in_test: f.in_test,
            is_test_fn: f.in_test || crate::text::starts_with(&c, "test_") || same(name, "setUp"),
            trait_impl: (f.lang == Language::Python && crate::text::starts_with(&c, "__")
                && crate::text::ends_with(&c, "__")) || in_object || (f.lang == Language::Go
                && same(n.kind.as_str(), "method_declaration") && has_capital(name)),
            allowed_dead: false,
            is_pub: is_exported(f.lang, nodes, i, name, t > 0, f.exports),
            is_ffi: false,
            opaque: crosses_a_boundary(n.text.as_str(), f.lang),
            crate_root: f.file.to_owned(),
            self_ty: if t > 0 {
                Some(self.types[t - 1].name.clone())
            } else {
                None
            },
            module: copy_opt(&f.module),
        }
    }

    fn test(&self, f: &FileFacts, nodes: &Vec<SyntaxNode>, i: usize, name: &str) -> (r: Definition)
        requires
            i < nodes@.len(),
            rows_fit(views(nodes@)),
        ensures
            r@ == test_at(f@, views(nodes@), i as int, name@),
    {
        let n = &nodes[i];
        assert(views(nodes@)[i as int] == n@);
        Definition {
            id: SymbolId::nominal(name),
            precision: Precision::Nominal,
            file: f.file.to_owned(),
            line: n.row + 1,
            in_test: true,
            is_test_fn: true,
            trait_impl: false,
            allowed_dead: false,
            is_pub: false,
            is_ffi: false,
            opaque: crosses_a_boundary(n.text.as_str(), f.lang),
            crate_root: f.file.to_owned(),
            self_ty: None,
            module: copy_opt(&f.module),
        }
    }

    /// Takes in a node that neither names a type nor a function.
    fn plain(&mut self, f: &FileFacts, nodes: &Vec<SyntaxNode>, i: usize)
        requires
            i < nodes@.len(),
            rows_fit(views(nodes@)),
        ensures
            final(self)@ == with_use(
                f@,
                views(nodes@),
                i as int,
                with_literal(views(nodes@), i as int, old(self)@),
            ),
    {
        let n = &nodes[i];
        let ghost before = *self;
        let kind = n.kind.as_str();
        assert(views(nodes@)[i as int] == n@);
        proof {
            reveal_strlit("string");
            reveal_strlit("raw_string_literal");
            reveal_strlit("interpreted_string_literal");
            reveal_strlit("shorthand_property_identifier");
            reveal_strlit("identifier");
        }
        if same(kind, "string") || same(kind, "raw_string_literal") || same(
            kind,
            "interpreted_string_literal",
        ) {
            self.strings.push(n.text.clone());
            assert(texts(self.strings@) =~= texts(before.strings@).push(n.text@));
            assert(self@ =~= with_literal(views(nodes@), i as int, before@));
        }
        if same(kind, "shorthand_property_identifier") {
            self.record(f, n.text.clone(), EdgeKind::Call, n.row);
        } else if same(kind, "identifier") && names_a_value(nodes, i) {
            self.record(f, n.text.clone(), EdgeKind::MacroToken, n.row);
        }
    }

    /// Takes in a node.
    fn walk(&mut self, f: &FileFacts, nodes: &Vec<SyntaxNode>, i: usize)
        requires
            i < nodes@.len(),
            rows_fit(views(nodes@)),
        ensures
            final(self)@ == after_node(f@, views(nodes@), i as int, old(self)@),
    {
        let n = &nodes[i];
        assert(views(nodes@)[i as int] == n@);
        self.leave(n.depth);
        let name = named(nodes, i);
        if declares_type(f.lang, n.kind.as_str()) {
            if let Some(name) = name {
                self.enter_type(n.depth, name);
                return;
            }
        } else if declares_function(f.lang, n.kind.as_str()) {
            if let Some(name) = name {
                let d = self.function(f, nodes, i, name.as_str());
                self.define(d);
                self.enter(n.depth, name);
                return;
            }
        }
        proof {
            kinds_differ(f.lang, n.kind@);
        }
        self.plain(f, nodes, i);
        if f.lang == Language::TypeScript && same(n.kind.as_str(), "call_expression") {
            if let Some(name) = declared_test(nodes, i) {
                let d = self.test(f, nodes, i, name.as_str());
                self.define(d);
                self.enter(n.depth, name);
                return;
            }
        }
        if invokes(f.lang, n.kind.as_str()) {
            if let Some(to) = callee(nodes, i) {
                self.record(f, to, EdgeKind::Call, n.row);
            }
        }
    }
}

proof fn kinds_differ(lang: Language, kind: Seq<char>)
    ensures
        !(type_kinds(lang).contains(kind) && function_kinds(lang).contains(kind)),
{
    reveal_strlit("function_definition");
    reveal_strlit("class_definition");
    reveal_strlit("function_declaration");
    reveal_strlit("function_expression");
    reveal_strlit("generator_function_declaration");
    reveal_strlit("method_definition");
    reveal_strlit("arrow_function");
    reveal_strlit("generator_function");
    reveal_strlit("class_declaration");
    reveal_strlit("class");
    reveal_strlit("method_declaration");
    reveal_strlit("type_declaration");
    reveal_strlit("function_item");
    reveal_strlit("impl_item");
    if type_kinds(lang).contains(kind) && function_kinds(lang).contains(kind) {
        let i = choose|i: int| 0 <= i < type_kinds(lang).len() && type_kinds(lang)[i] == kind;
        let j = choose|j: int|
            0 <= j < function_kinds(lang).len() && function_kinds(lang)[j] == kind;
        assert(type_kinds(lang)[i][0] == function_kinds(lang)[j][0]);
        match lang {
            Language::Python => {},
            Language::TypeScript => {},
            Language::Go => {},
            Language::Rust => {},
        }
    }
}

fn leave_scopes(stack: &mut Vec<Scope>, depth: usize)
    ensures
        scopes(final(stack)@) == enclosing(scopes(old(stack)@), depth as nat),
{
    let ghost start = scopes(stack@);
    loop
        invariant
            enclosing(start, depth as nat) == enclosing(scopes(stack@), depth as nat),
        ensures
            scopes(stack@) == enclosing(start, depth as nat),
        decreases stack@.len(),
    {
        let n: usize = stack.len();
        if n == 0 {
            break;
        }
        proof {
            assert(scopes(stack@).last() == stack@[n - 1].view());
            assert(scopes(stack@).drop_last() =~= scopes(stack@.drop_last()));
        }
        if stack[n - 1].depth < depth {
            break;
        }
        stack.pop();
    }
}

/// What a file defines, what it calls and what its literals hold.
pub struct Found {
    pub definitions: Vec<Definition>,
    pub edges: Vec<Edge>,
    pub strings: Vec<String>,
}

impl Found {
    pub open spec fn matches(&self, w: WalkView) -> bool {
        &&& views(self.definitions@) == w.definitions
        &&& views(self.edges@) == w.edges
        &&& texts(self.strings@) == w.strings
    }
}

/// Adds to `found` what the nodes of one more file hold.
pub fn walk_file(f: &FileFacts, nodes: &Vec<SyntaxNode>, found: Found) -> (r: Found)
    requires
        rows_fit(views(nodes@)),
    ensures
        r.matches(
            walked(
                f@,
                views(nodes@),
                nodes@.len() as int,
                WalkView {
                    definitions: views(found.definitions@),
                    edges: views(found.edges@),
                    strings: texts(found.strings@),
                    fns: seq![],
                    types: seq![],
                },
            ),
        ),
{
    let ghost start = WalkView {
        definitions: views(found.definitions@),
        edges: views(found.edges@),
        strings: texts(found.strings@),
        fns: seq![],
        types: seq![],
    };
    let mut w = Walker {
        definitions: found.definitions,
        edges: found.edges,
        strings: found.strings,
        fns: Vec::new(),
        types: Vec::new(),
    };
    proof {
        assert(scopes(w.fns@) =~= seq![]);
        assert(scopes(w.types@) =~= seq![]);
        assert(w@ =~= walked(f@, views(nodes@), 0, start));
    }
    let mut i: usize = 0;
    while i < nodes.len()
        invariant
            0 <= i <= nodes@.len(),
            rows_fit(views(nodes@)),
            w@ == walked(f@, views(nodes@), i as int, start),
        decreases nodes@.len() - i,
    {
        w.walk(f, nodes, i);
        i += 1;
    }
    Found { definitions: w.definitions, edges: w.edges, strings: w.strings }
}

// ---------------------------------------------------------------------------
// Modules
// ---------------------------------------------------------------------------

/// A file of this name stands for the directory that holds it.
pub open spec fn names_its_directory(stem: Seq<char>) -> bool {
    stem == "__init__"@ || stem == "index"@ || stem == "mod"@ || stem == "lib"@ || stem == "main"@
}

/// The segments of a module path, for those of a file under the root.
pub open spec fn module_segments(parts: Seq<Seq<char>>) -> Seq<Seq<char>> {
    let last = parts.last();
    let stem = match crate::text::cut_last(last, "."@) {
        Some((stem, _)) => stem,
        None => last,
    };
    if names_its_directory(stem) {
        parts.drop_last()
    } else {
        parts.drop_last().push(stem)
    }
}

/// The module that a file under `root` makes.
pub open spec fn module_of(file: Seq<char>, root: Seq<char>) -> Option<Seq<char>> {
    match crate::source::path_from(file, root) {
        None => None,
        Some(rel) => {
            let parts = crate::text::non_empty(crate::text::split(rel, "/"@));
            if parts.len() == 0 || module_segments(parts).len() == 0 {
                None
            } else {
                Some(crate::text::join(module_segments(parts), "::"@))
            }
        },
    }
}

/// The module that a file under `root` makes, so that functions of one name
/// in different files stay apart.
pub fn file_module(file: &str, root: &str) -> (r: Option<String>)
    ensures
        opt(r) == module_of(file@, root@),
{
    let rel = match crate::source::relative_path(file, root) {
        Some(rel) => rel,
        None => {
            return None;
        },
    };
    let c = chars_of(rel.as_str());
    proof {
        reveal_strlit("/");
    }
    let mut parts = crate::text::split_non_empty(&c, "/");
    let ghost all = crate::text::pieces(parts@);
    match parts.pop() {
        None => None,
        Some(last) => {
            let stem = match crate::text::cut_last_once(last, ".") {
                Some((stem, _)) => stem,
                None => last,
            };
            let name = string_of(stem);
            let n = name.as_str();
            proof {
                assert(crate::text::pieces(parts@) =~= all.drop_last());
                assert(all.last() == last@);
            }
            let ghost before = parts@;
            if !(same(n, "__init__") || same(n, "index") || same(n, "mod") || same(n, "lib")
                || same(n, "main")) {
                parts.push(stem);
                assert(crate::text::pieces(parts@) =~= crate::text::pieces(before).push(stem@));
            }
            if parts.len() == 0 {
                None
            } else {
                Some(crate::text::join_pieces(&parts, "::"))
            }
        },
    }
}

// ---------------------------------------------------------------------------
// What a Python project declares as public
// ---------------------------------------------------------------------------

/// Node `j` is the string `name`, in quotes.
pub open spec fn is_string(nodes: Seq<NodeView>, j: int, name: Seq<char>) -> bool {
    nodes[j].kind == "string"@ && shed(nodes[j].text, "\"'"@) == name
}

/// Node `i` assigns to `__all__` what node `r` holds.
pub open spec fn lists_all(nodes: Seq<NodeView>, i: int, r: int) -> bool {
    &&& nodes[i].kind == "assignment"@
    &&& kid(nodes, i, "left"@) matches Some(l) && trimmed(nodes[l].text) == "__all__"@
    &&& kid(nodes, i, "right"@) == Some(r)
}

/// `name` stands in the list that node `i` assigns to `__all__`.
pub open spec fn listed_at(nodes: Seq<NodeView>, i: int, name: Seq<char>) -> bool {
    &&& name.len() > 0
    &&& exists|r: int, j: int|
        #![trigger lists_all(nodes, i, r), in_subtree(nodes, r, j)]
        lists_all(nodes, i, r) && in_subtree(nodes, r, j) && is_string(nodes, j, name)
}

/// Node `i` imports `name` at the root of a package, which thereby hands it
/// on.
pub open spec fn handed_on_at(nodes: Seq<NodeView>, i: int, name: Seq<char>) -> bool {
    &&& nodes[i].kind == "import_from_statement"@ || nodes[i].kind == "import_statement"@
    &&& exists|c: int| #[trigger] child(nodes, i, c) && imported_as(nodes, c, name)
}

/// Node `c` of an import brings in `name`.
pub open spec fn imported_as(nodes: Seq<NodeView>, c: int, name: Seq<char>) -> bool {
    if nodes[c].kind == "dotted_name"@ || nodes[c].kind == "identifier"@ {
        after_last(nodes[c].text, "."@) == name
    } else if nodes[c].kind == "aliased_import"@ {
        kid(nodes, c, "alias"@) matches Some(a) && nodes[a].text == name
    } else {
        false
    }
}

/// Node `i` declares `name` as public.
pub open spec fn declares_at(
    nodes: Seq<NodeView>,
    is_init: bool,
    i: int,
    name: Seq<char>,
) -> bool {
    listed_at(nodes, i, name) || (is_init && handed_on_at(nodes, i, name))
}

/// One of the first `n` nodes of a file declares `name` as public.
pub open spec fn declared_before(
    nodes: Seq<NodeView>,
    is_init: bool,
    n: int,
    name: Seq<char>,
) -> bool {
    exists|i: int| 0 <= i < n && #[trigger] declares_at(nodes, is_init, i, name)
}

/// The nodes of a file declare `name` as public.
pub open spec fn declares_public(nodes: Seq<NodeView>, is_init: bool, name: Seq<char>) -> bool {
    declared_before(nodes, is_init, nodes.len() as int, name)
}

proof fn declared_step(nodes: Seq<NodeView>, is_init: bool, n: int, name: Seq<char>)
    requires
        0 <= n,
    ensures
        declared_before(nodes, is_init, n + 1, name) == (declared_before(nodes, is_init, n, name)
            || declares_at(nodes, is_init, n, name)),
{
    if declared_before(nodes, is_init, n + 1, name) {
        let i = choose|i: int| 0 <= i < n + 1 && #[trigger] declares_at(nodes, is_init, i, name);
        assert(declares_at(nodes, is_init, i, name));
    }
    if declared_before(nodes, is_init, n, name) {
        let i = choose|i: int| 0 <= i < n && #[trigger] declares_at(nodes, is_init, i, name);
        assert(declares_at(nodes, is_init, i, name));
    }
}

/// One of the nodes before `n` that stand below `r` is the string `name`.
spec fn string_below(nodes: Seq<NodeView>, r: int, n: int, name: Seq<char>) -> bool {
    name.len() > 0 && exists|j: int|
        j < n && #[trigger] in_subtree(nodes, r, j) && is_string(nodes, j, name)
}

proof fn string_step(nodes: Seq<NodeView>, r: int, n: int, name: Seq<char>)
    requires
        in_subtree(nodes, r, n),
    ensures
        string_below(nodes, r, n + 1, name) == (string_below(nodes, r, n, name) || (name.len() > 0
            && is_string(nodes, n, name))),
{
    if string_below(nodes, r, n + 1, name) {
        let j = choose|j: int|
            j < n + 1 && #[trigger] in_subtree(nodes, r, j) && is_string(nodes, j, name);
        assert(in_subtree(nodes, r, j));
    }
    if string_below(nodes, r, n, name) {
        let j = choose|j: int|
            j < n && #[trigger] in_subtree(nodes, r, j) && is_string(nodes, j, name);
        assert(in_subtree(nodes, r, j));
    }
}

proof fn strings_listed(nodes: Seq<NodeView>, i: int, r: int, n: int, name: Seq<char>)
    requires
        lists_all(nodes, i, r),
        forall|j: int| #[trigger] in_subtree(nodes, r, j) ==> j < n,
    ensures
        listed_at(nodes, i, name) == string_below(nodes, r, n, name),
{
    if listed_at(nodes, i, name) {
        let (q, j) = choose|q: int, j: int|
            #![trigger lists_all(nodes, i, q), in_subtree(nodes, q, j)]
            lists_all(nodes, i, q) && in_subtree(nodes, q, j) && is_string(nodes, j, name);
        assert(q == r);
        assert(in_subtree(nodes, r, j));
    }
    if string_below(nodes, r, n, name) {
        let j = choose|j: int|
            j < n && #[trigger] in_subtree(nodes, r, j) && is_string(nodes, j, name);
        assert(lists_all(nodes, i, r) && in_subtree(nodes, r, j));
    }
}

/// The node that holds what node `i` assigns to `__all__`.
fn all_list(nodes: &Vec<SyntaxNode>, i: usize) -> (r: Option<usize>)
    requires
        i < nodes@.len(),
    ensures
        match r {
            Some(k) => k < nodes@.len() && lists_all(views(nodes@), i as int, k as int),
            None => forall|k: int| !#[trigger] lists_all(views(nodes@), i as int, k),
        },
{
    let ghost v = views(nodes@);
    assert(v[i as int] == nodes@[i as int]@);
    if !same(nodes[i].kind.as_str(), "assignment") {
        return None;
    }
    match kid_of(nodes, i, "left") {
        Some(l) => {
            assert(v[l as int] == nodes@[l as int]@);
            let c = chars_of(nodes[l].text.as_str());
            let t = string_of(trim(&c));
            if same(t.as_str(), "__all__") {
                kid_of(nodes, i, "right")
            } else {
                None
            }
        },
        None => None,
    }
}

#[verifier::spinoff_prover]
fn add_listed(nodes: &Vec<SyntaxNode>, i: usize, out: &mut NameSet)
    requires
        i < nodes@.len(),
    ensures
        forall|x: Seq<char>| #[trigger]
            final(out)@.contains(x) == (old(out)@.contains(x) || listed_at(
                views(nodes@),
                i as int,
                x,
            )),
{
    let ghost v = views(nodes@);
    let ghost start = out@;
    let r = match all_list(nodes, i) {
        Some(r) => r,
        None => {
            return;
        },
    };
    let depth: usize = nodes[r].depth;
    let len: usize = nodes.len();
    let mut j: usize = r;
    assert(v[r as int] == nodes@[r as int]@);
    assert forall|x: Seq<char>| !#[trigger] string_below(v, r as int, r as int, x) by {}
    while j < len && (j == r || nodes[j].depth > depth)
        invariant
            r <= j <= len,
            r < len,
            len == nodes@.len(),
            v == views(nodes@),
            depth == v[r as int].depth,
            j > r ==> in_subtree(v, r as int, j - 1),
            forall|x: Seq<char>| #[trigger]
                out@.contains(x) == (start.contains(x) || string_below(v, r as int, j as int, x)),
        decreases len - j,
    {
        let n = &nodes[j];
        let ghost before = out@;
        proof {
            assert(v[j as int] == n@);
            assert(in_subtree(v, r as int, j as int));
        }
        let c = chars_of(n.text.as_str());
        let name = string_of(crate::text::shed_chars(&c, "\"'"));
        let is_name = same(n.kind.as_str(), "string") && !same(name.as_str(), "");
        if is_name {
            out.insert(name.as_str());
        }
        proof {
            reveal_strlit("");
            assert(name@.len() == 0 ==> name@ =~= ""@);
            assert forall|x: Seq<char>| #[trigger]
                out@.contains(x) == (start.contains(x) || string_below(
                    v,
                    r as int,
                    j + 1,
                    x,
                )) by {
                string_step(v, r as int, j as int, x);
                assert(before.contains(x) == (start.contains(x) || string_below(
                    v,
                    r as int,
                    j as int,
                    x,
                )));
                assert(is_string(v, j as int, x) == (n@.kind == "string"@ && name@ == x));
            }
        }
        j += 1;
    }
    proof {
        assert forall|k: int| #[trigger] in_subtree(v, r as int, k) implies k < j by {
            if k >= j {
                assert(j < len);
                assert(v[j as int] == nodes@[j as int]@);
                assert(v[j as int].depth > v[r as int].depth);
            }
        }
        assert forall|x: Seq<char>| #[trigger]
            out@.contains(x) == (start.contains(x) || listed_at(v, i as int, x)) by {
            strings_listed(v, i as int, r as int, j as int, x);
        }
    }
}

fn import_name(nodes: &Vec<SyntaxNode>, c: usize) -> (r: Option<String>)
    requires
        c < nodes@.len(),
    ensures
        forall|x: Seq<char>| #[trigger]
            imported_as(views(nodes@), c as int, x) == (opt(r) == Some(x)),
{
    let ghost v = views(nodes@);
    let n = &nodes[c];
    assert(v[c as int] == n@);
    proof {
        reveal_strlit("dotted_name");
        reveal_strlit("identifier");
        reveal_strlit("aliased_import");
    }
    if same(n.kind.as_str(), "dotted_name") || same(n.kind.as_str(), "identifier") {
        let t = chars_of(n.text.as_str());
        Some(string_of(tail_after_last(&t, ".")))
    } else if same(n.kind.as_str(), "aliased_import") {
        match kid_of(nodes, c, "alias") {
            Some(a) => {
                assert(v[a as int] == nodes@[a as int]@);
                Some(nodes[a].text.clone())
            },
            None => None,
        }
    } else {
        None
    }
}

#[verifier::spinoff_prover]
fn add_handed_on(nodes: &Vec<SyntaxNode>, i: usize, out: &mut NameSet)
    requires
        i < nodes@.len(),
    ensures
        forall|x: Seq<char>| #[trigger]
            final(out)@.contains(x) == (old(out)@.contains(x) || handed_on_at(
                views(nodes@),
                i as int,
                x,
            )),
{
    let ghost v = views(nodes@);
    let ghost start = out@;
    assert(v[i as int] == nodes@[i as int]@);
    if !same(nodes[i].kind.as_str(), "import_from_statement") && !same(
        nodes[i].kind.as_str(),
        "import_statement",
    ) {
        return;
    }
    let depth: usize = nodes[i].depth;
    let len: usize = nodes.len();
    let mut j: usize = i + 1;
    while j < len && nodes[j].depth > depth
        invariant
            i < j <= len,
            len == nodes@.len(),
            v == views(nodes@),
            depth == v[i as int].depth,
            in_subtree(v, i as int, j - 1),
            forall|x: Seq<char>| #[trigger]
                out@.contains(x) == (start.contains(x) || exists|c: int|
                    c < j && #[trigger] child(v, i as int, c) && imported_as(v, c, x)),
        decreases len - j,
    {
        let ghost before = out@;
        proof {
            assert(v[j as int] == nodes@[j as int]@);
            assert(in_subtree(v, i as int, j as int));
        }
        if nodes[j].depth - depth == 1 {
            let name = import_name(nodes, j);
            if let Some(name) = name {
                out.insert(name.as_str());
            }
            proof {
                assert(child(v, i as int, j as int));
                assert forall|x: Seq<char>| #[trigger]
                    out@.contains(x) == (start.contains(x) || exists|c: int|
                        c < j + 1 && #[trigger] child(v, i as int, c) && imported_as(v, c, x)) by {
                    assert(before.contains(x) == (start.contains(x) || exists|c: int|
                        c < j && #[trigger] child(v, i as int, c) && imported_as(v, c, x)));
                    assert(imported_as(v, j as int, x) == (opt(name) == Some(x)));
                    if before.contains(x) && !start.contains(x) {
                        let c = choose|c: int|
                            c < j && #[trigger] child(v, i as int, c) && imported_as(v, c, x);
                        assert(child(v, i as int, c) && imported_as(v, c, x));
                    }
                }
            }
        } else {
            proof {
                assert(!child(v, i as int, j as int));
                assert forall|x: Seq<char>| #[trigger]
                    out@.contains(x) == (start.contains(x) || exists|c: int|
                        c < j + 1 && #[trigger] child(v, i as int, c) && imported_as(v, c, x)) by {
                    assert(before.contains(x) == (start.contains(x) || exists|c: int|
                        c < j && #[trigger] child(v, i as int, c) && imported_as(v, c, x)));
                    if before.contains(x) && !start.contains(x) {
                        let c = choose|c: int|
                            c < j && #[trigger] child(v, i as int, c) && imported_as(v, c, x);
                        assert(child(v, i as int, c) && imported_as(v, c, x));
                    }
                }
            }
        }
        j += 1;
    }
    proof {
        assert forall|c: int| #[trigger] child(v, i as int, c) implies c < j by {
            if c >= j {
                assert(j < len);
                assert(v[j as int] == nodes@[j as int]@);
                assert(v[j as int].depth > v[i as int].depth);
            }
        }
        assert forall|x: Seq<char>| #[trigger]
            out@.contains(x) == (start.contains(x) || handed_on_at(v, i as int, x)) by {
            if handed_on_at(v, i as int, x) {
                let c = choose|c: int| #[trigger]
                    child(v, i as int, c) && imported_as(v, c, x);
                assert(c < j);
            }
        }
    }
}

/// Adds the names that the nodes of a file declare as public.
pub fn add_exports(nodes: &Vec<SyntaxNode>, is_init: bool, out: &mut NameSet)
    ensures
        forall|x: Seq<char>| #[trigger]
            final(out)@.contains(x) == (old(out)@.contains(x) || declares_public(
                views(nodes@),
                is_init,
                x,
            )),
{
    let ghost v = views(nodes@);
    let ghost start = out@;
    let mut i: usize = 0;
    while i < nodes.len()
        invariant
            0 <= i <= nodes@.len(),
            v == views(nodes@),
            forall|x: Seq<char>| #[trigger]
                out@.contains(x) == (start.contains(x) || declared_before(
                    v,
                    is_init,
                    i as int,
                    x,
                )),
        decreases nodes@.len() - i,
    {
        let ghost before = out@;
        add_listed(nodes, i, out);
        let ghost between = out@;
        if is_init {
            add_handed_on(nodes, i, out);
        }
        proof {
            assert forall|x: Seq<char>| #[trigger]
                out@.contains(x) == (start.contains(x) || declared_before(
                    v,
                    is_init,
                    i + 1,
                    x,
                )) by {
                declared_step(v, is_init, i as int, x);
                assert(between.contains(x) == (before.contains(x) || listed_at(v, i as int, x)));
                assert(before.contains(x) == (start.contains(x) || declared_before(
                    v,
                    is_init,
                    i as int,
                    x,
                )));
            }
        }
        i += 1;
    }
    assert(v.len() == nodes@.len());
}

// ---------------------------------------------------------------------------
// A whole project
// ---------------------------------------------------------------------------

/// The file declares `name` as public.
pub open spec fn file_declares(f: SourceView, name: Seq<char>) -> bool {
    syntax(f.text, Dialect::Python) matches Some(nodes) && declares_public(
        nodes,
        file_name(f.path) == "__init__.py"@,
        name,
    )
}

/// The names that a Python project declares as its public surface: those in
/// an `__all__`, and those that a package root imports. Nothing where it
/// declares none, and then it has told us nothing.
pub open spec fn exports_of(files: Seq<SourceView>) -> Set<Seq<char>> {
    Set::new(
        |x: Seq<char>|
            exists|k: int| 0 <= k < files.len() && file_declares(#[trigger] files[k], x),
    )
}

/// The names that a Python project declares as its public surface.
pub fn python_exports(files: &Vec<SourceFile>) -> (r: NameSet)
    ensures
        r@ == exports_of(views(files@)),
{
    let ghost v = views(files@);
    let mut r = NameSet::new();
    let mut i: usize = 0;
    while i < files.len()
        invariant
            0 <= i <= files@.len(),
            v == views(files@),
            forall|x: Seq<char>| #[trigger]
                r@.contains(x) == exists|k: int|
                    0 <= k < i && file_declares(#[trigger] v[k], x),
        decreases files@.len() - i,
    {
        let ghost before = r@;
        let f = &files[i];
        assert(v[i as int] == f@);
        if let Some(nodes) = parse_nodes(f.text.as_str(), Dialect::Python) {
            let is_init = same(file_name_of(f.path.as_str()).as_str(), "__init__.py");
            add_exports(&nodes, is_init, &mut r);
        }
        proof {
            assert forall|x: Seq<char>| #[trigger]
                r@.contains(x) == exists|k: int|
                    0 <= k < i + 1 && file_declares(#[trigger] v[k], x) by {
                assert(before.contains(x) == exists|k: int|
                    0 <= k < i && file_declares(#[trigger] v[k], x));
                assert(r@.contains(x) == (before.contains(x) || file_declares(v[i as int], x)));
                if before.contains(x) {
                    let k = choose|k: int| 0 <= k < i && file_declares(#[trigger] v[k], x);
                    assert(file_declares(v[k], x));
                }
            }
        }
        i += 1;
    }
    assert(r@ =~= exports_of(v));
    r
}

/// What the walk is told of a file.
pub open spec fn facts_of(
    lang: Language,
    root: Seq<char>,
    f: SourceView,
    exports: Set<Seq<char>>,
) -> FileView {
    FileView {
        lang,
        file: f.path,
        module: module_of(f.path, root),
        in_test: f.in_test,
        exports,
    }
}

/// The walk with one more file. One that cannot be parsed is passed over.
pub open spec fn with_file(
    lang: Language,
    root: Seq<char>,
    f: SourceView,
    exports: Set<Seq<char>>,
    w: WalkView,
) -> WalkView {
    match dialect_of(lang, f.path) {
        Some(dialect) => match syntax(f.text, dialect) {
            Some(nodes) => {
                let done = walked(
                    facts_of(lang, root, f, exports),
                    nodes,
                    nodes.len() as int,
                    w,
                );
                WalkView { fns: seq![], types: seq![], ..done }
            },
            None => w,
        },
        None => w,
    }
}

/// The walk over files.
pub open spec fn walked_files(
    lang: Language,
    root: Seq<char>,
    files: Seq<SourceView>,
    exports: Set<Seq<char>>,
) -> WalkView
    decreases files.len(),
{
    if files.len() == 0 {
        WalkView {
            definitions: seq![],
            edges: seq![],
            strings: seq![],
            fns: seq![],
            types: seq![],
        }
    } else {
        with_file(
            lang,
            root,
            files.last(),
            exports,
            walked_files(lang, root, files.drop_last(), exports),
        )
    }
}

/// The literal is a template that holds the name, or the name and nothing
/// else: a key to look it up by.
pub open spec fn looks_up(literal: Seq<char>, name: Seq<char>) -> bool {
    (present(literal, "{{"@) && present(literal, name)) || shed(literal, "\"`'"@) == name
}

/// Production code may call the name by reflection: who does is recorded
/// nowhere, so the answer is widened. A name that is merely mentioned in some
/// literal does not count, or every function would.
pub open spec fn reflected(strings: Seq<Seq<char>>, name: Seq<char>) -> bool {
    exists|i: int| 0 <= i < strings.len() && looks_up(#[trigger] strings[i], name)
}

pub open spec fn marked(strings: Seq<Seq<char>>, d: DefinitionView) -> DefinitionView {
    DefinitionView {
        opaque: d.opaque || (!d.in_test && reflected(strings, d.id.name)),
        ..d
    }
}

fn is_reflected(strings: &Vec<String>, name: &str) -> (r: bool)
    ensures
        r == reflected(texts(strings@), name@),
{
    let ghost v = texts(strings@);
    let mut i: usize = 0;
    while i < strings.len()
        invariant
            0 <= i <= strings@.len(),
            v == texts(strings@),
            forall|k: int| 0 <= k < i ==> !looks_up(#[trigger] v[k], name@),
        decreases strings@.len() - i,
    {
        let c = chars_of(strings[i].as_str());
        let key = string_of(crate::text::shed_chars(&c, "\"`'"));
        assert(v[i as int] == c@);
        if (crate::text::contains(&c, "{{") && crate::text::contains(&c, name)) || same(
            key.as_str(),
            name,
        ) {
            assert(looks_up(v[i as int], name@));
            return true;
        }
        i += 1;
    }
    false
}

fn mark(definitions: Vec<Definition>, strings: &Vec<String>) -> (r: Vec<Definition>)
    ensures
        views(r@) == views(definitions@).map_values(
            |d: DefinitionView| marked(texts(strings@), d),
        ),
{
    let ghost all = views(definitions@);
    let ghost f = |d: DefinitionView| marked(texts(strings@), d);
    let mut r: Vec<Definition> = Vec::new();
    for d in it: definitions
        invariant
            all == views(it.seq()),
            f == (|d: DefinitionView| marked(texts(strings@), d)),
            views(r@) == all.take(it.index() as int).map_values(f),
    {
        let ghost n = it.index() as int;
        let ghost so_far = r@;
        let ghost given = d@;
        let mut d = d;
        if !d.in_test && !d.opaque && is_reflected(strings, d.id.name.as_str()) {
            d.opaque = true;
        }
        proof {
            assert(all[n] == given);
            assert(all.take(n + 1) =~= all.take(n).push(given));
            crate::seqs::map_push(all.take(n), f, given);
            crate::seqs::map_push(so_far, |x: Definition| x@, d);
            assert(d@ =~= f(given));
        }
        r.push(d);
    }
    assert(all.take(all.len() as int) =~= all);
    r
}

/// The frontend that reads syntax trees.
pub struct TreeSitterFrontend {
    pub language: Language,
}

/// What the frontend extracts from the files of a project.
pub open spec fn extracted(lang: Language, root: Seq<char>, files: Seq<SourceView>) -> ExtractView {
    let exports = if lang == Language::Python {
        exports_of(files)
    } else {
        Set::empty()
    };
    let w = walked_files(lang, root, files, exports);
    ExtractView {
        definitions: w.definitions.map_values(|d: DefinitionView| marked(w.strings, d)),
        edges: w.edges,
        reexported: exports,
        crate_roots: seq![root],
    }
}

impl Frontend for TreeSitterFrontend {
    open spec fn called(&self) -> Seq<char> {
        "tree-sitter"@
    }

    open spec fn best(&self) -> Precision {
        Precision::Nominal
    }

    open spec fn yields(&self, input: Input) -> Result<ExtractView, Seq<char>> {
        if self.language == Language::Rust && input.sources@.len() > 0 {
            Err("no tree-sitter grammar for rust"@)
        } else {
            Ok(extracted(self.language, input.root@, views(input.sources@)))
        }
    }

    fn name(&self) -> (r: &'static str) {
        "tree-sitter"
    }

    fn precision(&self) -> (r: Precision) {
        Precision::Nominal
    }

    fn extract(&self, input: &Input) -> (r: Result<Extract, String>) {
        self.read(input.root.as_str(), &input.sources)
    }
}

impl TreeSitterFrontend {
    /// What the files of a project under `root` define and call. There is no
    /// grammar for Rust, which has frontends of its own.
    pub fn read(&self, root: &str, files: &Vec<SourceFile>) -> (r: Result<Extract, String>)
        ensures
            if self.language == Language::Rust && files@.len() > 0 {
                r matches Err(m) && m@ == "no tree-sitter grammar for rust"@
            } else {
                r matches Ok(x) && x@ == extracted(self.language, root@, views(files@))
            },
    {
        let lang = self.language;
        let ghost v = views(files@);
        if lang == Language::Rust && files.len() > 0 {
            return Err("no tree-sitter grammar for rust".to_owned());
        }
        let exports = if lang == Language::Python {
            python_exports(files)
        } else {
            NameSet::new()
        };
        let mut found = Found { definitions: Vec::new(), edges: Vec::new(), strings: Vec::new() };
        let mut i: usize = 0;
        proof {
            assert(views(found.definitions@) =~= seq![]);
            assert(views(found.edges@) =~= seq![]);
            assert(texts(found.strings@) =~= seq![]);
        }
        while i < files.len()
            invariant
                0 <= i <= files@.len(),
                lang == self.language,
                v == views(files@),
                found.matches(walked_files(lang, root@, v.take(i as int), exports@)),
                walked_files(lang, root@, v.take(i as int), exports@).fns == Seq::<
                    ScopeView,
                >::empty(),
                walked_files(lang, root@, v.take(i as int), exports@).types == Seq::<
                    ScopeView,
                >::empty(),
            decreases files@.len() - i,
        {
            let f = &files[i];
            let ghost w = walked_files(lang, root@, v.take(i as int), exports@);
            proof {
                assert(v[i as int] == f@);
                assert(v.take(i + 1).drop_last() =~= v.take(i as int));
                assert(v.take(i + 1).last() == f@);
                assert(w =~= (WalkView {
                    definitions: views(found.definitions@),
                    edges: views(found.edges@),
                    strings: texts(found.strings@),
                    fns: seq![],
                    types: seq![],
                }));
            }
            if let Some(dialect) = grammar(lang, f.path.as_str()) {
                if let Some(nodes) = parse_nodes(f.text.as_str(), dialect) {
                    let facts = FileFacts {
                        lang,
                        file: f.path.as_str(),
                        module: file_module(f.path.as_str(), root),
                        in_test: f.in_test,
                        exports: &exports,
                    };
                    proof {
                        assert(facts@ =~= facts_of(lang, root@, f@, exports@));
                    }
                    found = walk_file(&facts, &nodes, found);
                }
            }
            i += 1;
        }
        proof {
            assert(v.take(v.len() as int) =~= v);
        }
        let definitions = mark(found.definitions, &found.strings);
        let roots: Vec<String> = vec![root.to_owned()];
        assert(texts(roots@) =~= seq![root@]);
        Ok(Extract { definitions, edges: found.edges, reexported: exports, crate_roots: roots })
    }
}

// ---------------------------------------------------------------------------
// What holds of every file
// ---------------------------------------------------------------------------

/// What a definition read out of a file says of where it stands.
pub open spec fn stands_in(f: FileView, d: DefinitionView) -> bool {
    &&& d.precision == Precision::Nominal
    &&& d.id == SymbolView::bare(d.id.name)
    &&& d.file == f.file
    &&& f.in_test ==> d.in_test && d.is_test_fn
}

/// What a call read out of a file says of where it stands.
pub open spec fn made_in(f: FileView, e: EdgeView) -> bool {
    &&& e.precision == Precision::Nominal
    &&& e.to == SymbolView::bare(e.to.name)
    &&& e.file == f.file
    &&& e.in_test == f.in_test
}

/// Syntax gives names and nothing more, and all that stands in a test file is
/// test code: so it is with whatever is read out of a file, beyond what was
/// found before.
pub proof fn syntax_is_nominal(f: FileView, nodes: Seq<NodeView>, n: int, start: WalkView)
    requires
        0 <= n <= nodes.len(),
    ensures
        walked(f, nodes, n, start).definitions.len() >= start.definitions.len(),
        walked(f, nodes, n, start).edges.len() >= start.edges.len(),
        forall|i: int|
            start.definitions.len() <= i < walked(f, nodes, n, start).definitions.len()
                ==> stands_in(f, #[trigger] walked(f, nodes, n, start).definitions[i]),
        forall|i: int|
            start.edges.len() <= i < walked(f, nodes, n, start).edges.len() ==> made_in(
                f,
                #[trigger] walked(f, nodes, n, start).edges[i],
            ),
    decreases n,
{
    if n > 0 {
        syntax_is_nominal(f, nodes, n - 1, start);
        let before = walked(f, nodes, n - 1, start);
        let now = walked(f, nodes, n, start);
        assert forall|i: int| start.definitions.len() <= i < now.definitions.len() implies stands_in(
            f,
            #[trigger] now.definitions[i],
        ) by {
            if i < before.definitions.len() {
                assert(now.definitions[i] == before.definitions[i]);
            }
        }
        assert forall|i: int| start.edges.len() <= i < now.edges.len() implies made_in(
            f,
            #[trigger] now.edges[i],
        ) by {
            if i < before.edges.len() {
                assert(now.edges[i] == before.edges[i]);
            }
        }
    }
}

/// A call outside any function of a test file is never put down to the name
/// that production starts from.
pub proof fn test_files_call_from_their_own_root(f: FileView)
    requires
        f.in_test,
    ensures
        caller(f, seq![]) == TEST_MODULE_ROOT@,
        caller(f, seq![]) != caller(FileView { in_test: false, ..f }, seq![]),
{
    reveal_strlit("<test module>");
    reveal_strlit("");
    assert(TEST_MODULE_ROOT@.len() != ""@.len());
}

} // verus!
