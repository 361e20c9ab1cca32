//! The reader of compiler dumps.

use landed::frontend::mir_frontend::caller_is_test;
use landed::frontend::mir_frontend::parse;
use landed::frontend::mir_frontend::parse_call;
use landed::frontend::mir_frontend::parse_definition;
use landed::frontend::mir_frontend::parse_target;
use landed::frontend::mir_frontend::Parsed;
use landed::frontend::MirFrontend;
use landed::ir::Definition;
use landed::ir::Edge;
use landed::ir::EdgeKind;
use landed::ir::Extract;
use landed::ir::Precision;
use landed::ir::SymbolId;
use landed::names::NameSet;

// ── call targets ──────────────────────────────────────────

#[test]
fn a_bare_call_is_nominal() {
    assert_eq!(parse_target("inner"), Some(SymbolId::nominal("inner")));
}

#[test]
fn a_module_qualifier_is_kept() {
    // Discarding this is what let two same-named functions in different
    // modules merge into one node.
    assert_eq!(parse_target("alpha::helper"), Some(SymbolId::in_module("helper", "alpha")));
    assert_eq!(parse_target("a::b::deep"), Some(SymbolId::in_module("deep", "a::b")));
    assert_ne!(parse_target("alpha::helper"), parse_target("beta::helper"));
}

#[test]
fn a_capitalised_qualifier_is_a_type() {
    assert_eq!(parse_target("A::process"), Some(SymbolId::typed("process", "A")));
    assert_ne!(parse_target("A::process"), parse_target("B::process"));
}

#[test]
fn a_turbofish_is_not_part_of_identity() {
    assert_eq!(parse_target("generic::<A>"), Some(SymbolId::nominal("generic")));
    assert_eq!(
        parse_target("alpha::helper::<u8>"),
        Some(SymbolId::in_module("helper", "alpha"))
    );
}

#[test]
fn an_unresolved_generic_receiver_is_not_claimed_as_a_type() {
    // `<T as Speak>::speak` — T is not a concrete type, so asserting one
    // would be a lie the analysis would then act on.
    assert_eq!(parse_target("<T as Speak>::speak"), Some(SymbolId::nominal("speak")));
    assert_eq!(parse_target("<T as Speak>::speak").unwrap().precision(), Precision::Nominal);
}

#[test]
fn unparseable_targets_yield_nothing() {
    for bad in ["", "   ", "123bad", "a..b", "{closure#0}", "*const u8"] {
        assert_eq!(parse_target(bad), None, "invented a symbol from {bad:?}");
    }
}

// ── definition headers ────────────────────────────────────

#[test]
fn a_plain_definition_parses() {
    let (id, _) = parse_definition("main() -> () {").unwrap();
    assert_eq!(id, SymbolId::nominal("main"));
}

#[test]
fn a_module_qualified_definition_keeps_its_path() {
    let (id, _) = parse_definition("alpha::helper() -> u8 {").unwrap();
    assert_eq!(id, SymbolId::in_module("helper", "alpha"));
    let (other, _) = parse_definition("beta::helper() -> u8 {").unwrap();
    assert_ne!(id, other, "two modules, two symbols");
}

#[test]
fn an_inherent_method_takes_its_receiver_type() {
    let (id, ty) = parse_definition("<impl at src/main.rs:4:1: 4:7>::process(_1: &A) -> u8 {")
        .unwrap();
    assert_eq!(id, SymbolId::typed("process", "A"));
    assert_eq!(ty.as_deref(), Some("A"));
    let (other, _) = parse_definition("<impl at src/main.rs:5:1: 5:7>::process(_1: &B) -> u8 {")
        .unwrap();
    assert_ne!(id, other, "same method name, different types");
}

#[test]
fn a_closure_is_not_a_definition() {
    // `fn tests::t::{closure#0}(...)` names nothing a call site can reach.
    assert!(parse_definition("tests::t::{closure#0}(_1: &{closure@x.rs:1:1}) -> R {").is_none());
}

// ── call terminators ──────────────────────────────────────

#[test]
fn a_terminator_is_recognised() {
    let l = "        _2 = A::process(move _3) -> [return: bb1, unwind continue];";
    assert_eq!(parse_call(l), Some(SymbolId::typed("process", "A")));
}

#[test]
fn an_inlined_scope_annotation_is_not_a_call() {
    // Release-profile MIR replaces calls with these. Reading one as a call
    // invents an edge the program does not contain — and reading it as a
    // *definition* would be worse.
    for l in [
        "        scope 3 (inlined A::process) {",
        "        scope 7 (inlined B::process) {",
    ] {
        assert_eq!(parse_call(l), None, "invented a call from {l:?}");
    }
}

#[test]
fn assignments_that_are_not_calls_are_ignored() {
    for l in [
        "        _1 = const 0_u8;",
        "        _3 = &_2;",
        "        _0 = move _1;",
        "        // comment mentioning helper()",
        "        StorageLive(_2);",
    ] {
        assert_eq!(parse_call(l), None, "invented a call from {l:?}");
    }
}

// ── whole dumps ───────────────────────────────────────────

/// A dump captured from nightly 1.100.0, covering module qualification,
/// two same-named methods, a test module and a closure shim.
const FIXTURE: &str = r#"
fn alpha::helper() -> u8 {
    let mut _0: u8;
    bb0: {
        _0 = const 1_u8;
        return;
    }
}
fn beta::helper() -> u8 {
    bb0: {
        _0 = const 2_u8;
        return;
    }
}
fn <impl at src/main.rs:4:1: 4:7>::process(_1: &A) -> u8 {
    bb0: {
        _0 = alpha::helper() -> [return: bb1, unwind continue];
    }
}
fn <impl at src/main.rs:5:1: 5:7>::process(_1: &B) -> u8 {
    bb0: {
        _0 = beta::helper() -> [return: bb1, unwind continue];
    }
}
fn main() -> () {
    bb0: {
        _1 = A::process(move _2) -> [return: bb1, unwind continue];
    }
}
fn tests::t::{closure#0}(_1: &{closure@src/main.rs:11:13: 11:74}) -> Result<(), String> {
    bb0: {
        _9 = never_attributed() -> [return: bb1, unwind continue];
    }
}
fn tests::t() -> () {
    bb0: {
        _1 = B::process(move _2) -> [return: bb1, unwind continue];
    }
}
"#;

#[test]
fn a_representative_dump_parses_into_distinct_symbols() {
    let p = parse(FIXTURE);
    let ids: Vec<String> = p.definitions.iter().map(|d| d.id.to_string()).collect();
    assert!(ids.contains(&"alpha::helper".to_string()), "{ids:?}");
    assert!(ids.contains(&"beta::helper".to_string()), "{ids:?}");
    assert!(ids.contains(&"A::process".to_string()), "{ids:?}");
    assert!(ids.contains(&"B::process".to_string()), "{ids:?}");
    assert!(ids.contains(&"tests::t".to_string()), "{ids:?}");
    // The closure header is not a definition.
    assert!(!ids.iter().any(|i| i.contains("closure")), "{ids:?}");
}

#[test]
fn edges_from_the_dump_are_attributed_to_the_right_caller() {
    let p = parse(FIXTURE);
    let edge = |from: &str, to: &str| {
        p.edges
            .iter()
            .any(|e| e.from.to_string() == from && e.to.to_string() == to)
    };
    assert!(edge("A::process", "alpha::helper"), "{:?}", dump(&p));
    assert!(edge("B::process", "beta::helper"), "{:?}", dump(&p));
    assert!(edge("main", "A::process"), "{:?}", dump(&p));
    assert!(edge("tests::t", "B::process"), "{:?}", dump(&p));
    // A::process must not be credited with beta::helper.
    assert!(!edge("A::process", "beta::helper"), "{:?}", dump(&p));
}

#[test]
fn a_closure_body_is_attributed_to_the_function_that_wrote_it() {
    // `.map(|x| helper(x))` compiles to a closure with its own MIR
    // header. Dropping those bodies discards every call written inside a
    // closure — most of the call graph in iterator-heavy code — and the
    // callees are then reported dead.
    let p = parse(FIXTURE);
    assert!(
        p.edges
            .iter()
            .any(|e| e.from.to_string() == "tests::t" && e.to.name == "never_attributed"),
        "the closure's call belongs to tests::t: {:?}",
        dump(&p)
    );
    // And the closure itself is not a callable definition.
    assert!(!p.definitions.iter().any(|d| d.id.to_string().contains("closure")));
}

#[test]
fn a_genuinely_unrecognised_header_drops_its_calls() {
    // Not a closure, not a form the parser knows: attributing its body to
    // the previous function would invent edges out of that function.
    let mir = "\
fn known() -> () {
    bb0: {
        _1 = real_call() -> [return: bb1, unwind continue];
    }
}
fn 99invalid::thing() -> () {
    bb0: {
        _1 = phantom() -> [return: bb1, unwind continue];
    }
}
";
    let p = parse(mir);
    assert!(p.edges.iter().any(|e| e.to.name == "real_call"));
    assert!(
        !p.edges.iter().any(|e| e.to.name == "phantom"),
        "a call under an unrecognised header must be dropped: {:?}",
        dump(&p)
    );
}

#[test]
fn a_dump_with_no_functions_is_not_read_as_an_empty_program() {
    // Silence here would report every symbol unreachable.
    let p = parse("// nothing
bb0: {
  _0 = helper() -> [return: bb1];
}
");
    assert!(p.definitions.is_empty());
    assert!(p.edges.is_empty(), "edges without a caller must not be invented");
}

fn dump(p: &Parsed) -> Vec<String> {
    p.edges.iter().map(|e| format!("{} -> {}", e.from.to_string(), e.to.to_string())).collect()
}

// ── test-caller classification ────────────────────────────

fn def(name: &str, self_ty: Option<&str>, in_test: bool) -> Definition {
    Definition {
        id: SymbolId::nominal(name),
        precision: Precision::Nominal,
        file: String::new(),
        line: 1,
        in_test,
        is_test_fn: in_test,
        trait_impl: false,
        allowed_dead: false,
        is_pub: false,
        is_ffi: false,
        opaque: false,
        crate_root: String::new(),
        self_ty: self_ty.map(str::to_string),
        module: None,
    }
}

#[test]
fn a_test_only_caller_is_classified_as_test() {
    let defs = vec![def("only_in_tests", None, true)];
    assert!(caller_is_test(&SymbolId::nominal("only_in_tests"), &defs));
}

#[test]
fn a_production_caller_is_not() {
    let defs = vec![def("live", None, false)];
    assert!(!caller_is_test(&SymbolId::nominal("live"), &defs));
}

#[test]
fn a_name_shared_by_test_and_production_resolves_to_production() {
    // The bug this replaced: a name-keyed set marked every edge out of
    // either as a test edge, removing real production callers.
    let defs = vec![def("shared_name", None, false), def("shared_name", None, true)];
    assert!(
        !caller_is_test(&SymbolId::nominal("shared_name"), &defs),
        "ambiguity must fail closed to production"
    );
}

#[test]
fn a_receiver_type_narrows_the_match() {
    // B::run is test-only; A::run is production. A bare name cannot tell
    // them apart, a typed id can.
    let defs = vec![def("run", Some("A"), false), def("run", Some("B"), true)];
    assert!(!caller_is_test(&SymbolId::typed("run", "A"), &defs));
    assert!(caller_is_test(&SymbolId::typed("run", "B"), &defs));
    // Without the type, it must fail closed rather than pick one.
    assert!(!caller_is_test(&SymbolId::nominal("run"), &defs));
}

#[test]
fn an_unknown_caller_is_not_test() {
    // Nothing to consult is not evidence of test-ness.
    assert!(!caller_is_test(&SymbolId::nominal("never_seen"), &[]));
}

#[test]
fn the_calls_are_those_of_the_dump_alone() {
    let call = |from: &str, to: &str| Edge {
        from: SymbolId::nominal(from),
        to: SymbolId::nominal(to),
        kind: EdgeKind::Call,
        precision: Precision::Nominal,
        in_test: false,
        file: String::new(),
        line: 1,
    };
    let base = Extract {
        definitions: vec![def("live", None, false), def("checks", None, true)],
        edges: vec![call("live", "guessed"), call("live", "helper")],
        reexported: NameSet::new(),
        crate_roots: vec![],
    };
    let mir = "\
fn checks() -> () {
    bb0: {
        _1 = helper() -> [return: bb1, unwind continue];
    }
}
fn live() -> () {
    bb0: {
        _1 = <A as Run>::run(move _2) -> [return: bb1, unwind continue];
    }
}
";
    let read = parse(mir);
    let merged = MirFrontend.combine(base, mir);
    let pair = |e: &Edge| (e.from.to_string(), e.to.to_string());
    assert_eq!(
        merged.edges.iter().map(pair).collect::<Vec<_>>(),
        read.edges.iter().map(pair).collect::<Vec<_>>()
    );
    assert!(merged.edges.iter().all(|e| e.to.name != "guessed"));
    assert_eq!(merged.edges.len(), 2);
    assert!(merged.edges[0].in_test && !merged.edges[1].in_test);
    assert_eq!(merged.definitions.len(), 2);
}
