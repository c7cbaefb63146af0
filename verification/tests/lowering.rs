use photon::ast::ast::AST;
use photon::ast::lexer::Lexer;
use photon::frontend::parser::Parser;
use photon::ir::builder::Builder;
use photon::ir::{CaptureFrom, Globals, LocalRef, Module, Node, ParamRef, Type, Value};

fn parse(source: &str) -> AST {
    let mut parser = Parser::new(Lexer::new("test.ph", source.chars().collect()));
    parser.read_all_as_block().expect("parse error")
}

fn build(source: &str) -> Module {
    let globals = Globals::new();
    Builder::build_module(parse(source), &globals)
}

fn main_statements(module: &Module) -> &Vec<photon::ir::IR> {
    match &module.main.body.node {
        Node::Block(irs) => irs,
        other => panic!("main body is not a block: {:?}", other),
    }
}

#[test]
fn globals_hold_builtin_types() {
    let globals = Globals::new();
    let names: Vec<&str> = globals.globals.iter().map(|g| g.name.as_str()).collect();
    assert_eq!(names, vec!["Type", "Any", "None", "Bool", "Int", "Float"]);
    assert!(globals.globals.iter().all(|g| g.comptime));
    assert!(matches!(globals.globals[4].value, Value::Type(Type::Int)));
}

#[test]
fn builder_lowers_literals_to_constants() {
    let module = build("1\ntrue");
    let irs = main_statements(&module);
    assert_eq!(irs.len(), 2);
    assert!(matches!(irs[0].node, Node::Constant(Value::Int(1))));
    assert!(matches!(irs[1].node, Node::Constant(Value::Bool(true))));
    assert!(module.functions.is_empty());
    assert!(module.main.params.is_empty());
    assert!(module.main.captures.is_empty());
}

#[test]
fn builder_defines_and_reads_locals() {
    let module = build("val x = 1\nx");
    let irs = main_statements(&module);
    assert_eq!(irs.len(), 2);
    match &irs[0].node {
        Node::LocalSet(local, value) => {
            assert_eq!(*local, LocalRef { i: 0, comptime: false });
            assert!(matches!(value.node, Node::Constant(Value::Int(1))));
        }
        other => panic!("not a local set: {:?}", other),
    }
    assert!(matches!(irs[1].node, Node::LocalRef(LocalRef { i: 0, comptime: false })));
    assert_eq!(module.main.locals.len(), 1);
    assert!(!module.main.locals[0].comptime);
}

#[test]
fn builder_reads_globals() {
    let module = build("Int");
    let irs = main_statements(&module);
    match &irs[0].node {
        Node::GlobalRef(global) => {
            assert_eq!(global.i, 4);
            assert!(global.comptime);
        }
        other => panic!("not a global: {:?}", other),
    }
}

#[test]
fn builder_makes_comptime_locals_under_portal() {
    let module = build("@val T = Int");
    let irs = main_statements(&module);
    match &irs[0].node {
        Node::LocalSet(local, _) => assert_eq!(*local, LocalRef { i: 0, comptime: true }),
        other => panic!("not a local set: {:?}", other),
    }
    assert!(module.main.locals[0].comptime);
}

#[test]
fn builder_lowers_method_calls() {
    let module = build("1 + 2");
    let irs = main_statements(&module);
    match &irs[0].node {
        Node::Call(name, target, args) => {
            assert_eq!(name, "+");
            assert!(matches!(target.node, Node::Constant(Value::Int(1))));
            assert_eq!(args.len(), 1);
            assert!(matches!(args[0].node, Node::Constant(Value::Int(2))));
        }
        other => panic!("not a call: {:?}", other),
    }
}

#[test]
fn builder_calls_a_local_function_value() {
    let module = build("val f = { 1 }\nf()");
    let irs = main_statements(&module);
    match &irs[1].node {
        Node::Call(name, target, args) => {
            assert_eq!(name, "call");
            assert!(matches!(target.node, Node::LocalRef(LocalRef { i: 0, comptime: false })));
            assert!(args.is_empty());
        }
        other => panic!("not a call: {:?}", other),
    }
}

#[test]
fn builder_lowers_lambdas_with_params_and_captures() {
    let module = build("val y = 1\n(x) { x + y }");
    assert_eq!(module.functions.len(), 1);
    let function = &module.functions[0];
    assert_eq!(function.params.len(), 1);
    assert_eq!(function.captures.len(), 1);
    assert_eq!(function.captures[0].from, CaptureFrom::Local(LocalRef { i: 0, comptime: false }));
    let irs = main_statements(&module);
    match &irs[1].node {
        Node::CreateClosure(template, captures) => {
            assert_eq!(template.i, 0);
            assert_eq!(captures.len(), 1);
        }
        other => panic!("not a closure: {:?}", other),
    }
    match &function.body.node {
        Node::Call(name, target, args) => {
            assert_eq!(name, "+");
            assert!(matches!(target.node, Node::ParamRef(ParamRef { i: 0, comptime: false })));
            assert_eq!(args.len(), 1);
            assert!(matches!(args[0].node, Node::CaptureRef(_)));
        }
        other => panic!("not a call: {:?}", other),
    }
}

#[test]
fn builder_wraps_comptime_expressions() {
    let module = build("@Int");
    let irs = main_statements(&module);
    match &irs[0].node {
        Node::Comptime(inner) => assert!(matches!(inner.node, Node::GlobalRef(_))),
        other => panic!("not compile-time: {:?}", other),
    }
}

#[test]
fn builder_lowers_param_types_at_compile_time() {
    let module = build("(x: Int) x");
    let function = &module.functions[0];
    let typ = function.params[0].typ.as_ref().expect("param type");
    assert!(matches!(typ.node, Node::Comptime(_)));
}

fn from_ok(from: &CaptureFrom, np: usize, nc: usize, nl: usize) -> bool {
    match from {
        CaptureFrom::Capture(c) => c.i < nc,
        CaptureFrom::Param(p) => p.i < np,
        CaptureFrom::Local(l) => l.i < nl,
    }
}

fn refs_ok(ir: &photon::ir::IR, np: usize, nc: usize, nl: usize) -> bool {
    match &ir.node {
        Node::ParamRef(p) => p.i < np,
        Node::CaptureRef(c) => c.i < nc,
        Node::LocalRef(l) => l.i < nl,
        Node::LocalSet(l, v) => l.i < nl && refs_ok(v, np, nc, nl),
        Node::Block(irs) => irs.iter().all(|x| refs_ok(x, np, nc, nl)),
        Node::Comptime(v) => refs_ok(v, np, nc, nl),
        Node::Call(_, t, args) => refs_ok(t, np, nc, nl) && args.iter().all(|x| refs_ok(x, np, nc, nl)),
        Node::CreateClosure(_, froms) => froms.iter().all(|f| from_ok(f, np, nc, nl)),
        Node::If(c, t, e) => {
            refs_ok(c, np, nc, nl) && refs_ok(t, np, nc, nl) && e.as_ref().map_or(true, |x| refs_ok(x, np, nc, nl))
        }
        _ => true,
    }
}

fn closures_ok(ir: &photon::ir::IR, n: usize) -> bool {
    match &ir.node {
        Node::LocalSet(_, v) | Node::Comptime(v) => closures_ok(v, n),
        Node::Block(irs) => irs.iter().all(|x| closures_ok(x, n)),
        Node::Call(_, t, args) => closures_ok(t, n) && args.iter().all(|x| closures_ok(x, n)),
        Node::CreateClosure(f, _) => f.i < n,
        Node::If(c, t, e) => closures_ok(c, n) && closures_ok(t, n) && e.as_ref().map_or(true, |x| closures_ok(x, n)),
        _ => true,
    }
}

fn function_ok(f: &photon::ir::Function) -> bool {
    let (np, nc, nl) = (f.params.len(), f.captures.len(), f.locals.len());
    refs_ok(&f.body, np, nc, nl)
        && f.params.iter().all(|p| p.typ.as_ref().map_or(true, |t| refs_ok(t, np, nc, nl)))
        && f.return_type.as_ref().map_or(true, |t| refs_ok(t, np, nc, nl))
}

const NESTED: &str = "val a = 1\nval f = (x) { val y = x\n(z) { a + y + z } }\nval g = { f(a) }";

#[test]
fn builder_code_names_only_own_slots() {
    let module = build(NESTED);
    assert_eq!(module.functions.len(), 3);
    assert!(function_ok(&module.main));
    assert!(module.functions.iter().all(function_ok));
    // The innermost lambda captures `a` through `f` and `y` from `f`.
    assert_eq!(module.functions[0].captures.len(), 2);
}

#[test]
fn builder_lists_inner_templates_first() {
    let module = build(NESTED);
    assert!(closures_ok(&module.main.body, module.functions.len()));
    for (k, function) in module.functions.iter().enumerate() {
        assert!(closures_ok(&function.body, k));
    }
}
