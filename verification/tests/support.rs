use photon::arena::Arena;
use photon::runtime::{Any, AnyT};
use photon::backend::anon_id::AnonCounter;
use photon::backend::symbol_name_counter::SymbolNameCounter;
use photon::ir::lexical_scope::block_scope::BlockScope;
use photon::ir::lexical_scope::root_scope::RootScope;
use photon::ir::lexical_scope::scope_stack::{NameAccessError, NameRef, ScopeStack};
use photon::ir::lexical_scope::stack_frame::Param;
use photon::ir::{CaptureRef, Globals, GlobalRef, IntrinsicFn, LocalRef, ParamRef, Type, Value};

#[test]
fn arena_reads_back_what_was_written() {
    let mut arena: Arena<i32> = Arena::new();
    let a = arena.allocate(10);
    let b = arena.allocate(20);
    assert_eq!(arena.len(), 2);
    assert_eq!(*arena.get(a), 10);
    assert_eq!(*arena.get(b), 20);
    arena.set(a, 11);
    assert_eq!(*arena.get(a), 11);
    assert_eq!(*arena.get(b), 20);
    assert_eq!(a.slot(), 0);
    assert_eq!(b.slot(), 1);
    assert!(a.same_as(&a));
    assert!(!a.same_as(&b));
}

#[test]
fn arena_map_keeps_slots() {
    let mut arena: Arena<i32> = Arena::new();
    let a = arena.allocate(1);
    arena.allocate(2);
    arena.allocate(3);
    let doubled = arena.map(|v| v * 2);
    assert_eq!(doubled.len(), 3);
    assert_eq!(*doubled.get(a), 2);
}

#[test]
fn anon_counter_counts_from_one() {
    let mut counter = AnonCounter::new();
    assert_eq!(counter.next_str(), "anon.1");
    assert_eq!(counter.next_str(), "anon.2");
    assert_ne!(counter.next_str(), "anon.2");
}

#[test]
fn symbol_name_counter_appends_numbers() {
    let mut counter = SymbolNameCounter::new();
    assert_eq!(counter.next("main"), "main.1");
    assert_eq!(counter.next("main"), "main.2");
    assert_eq!(counter.next("f"), "f.3");
}

#[test]
fn intrinsic_add_takes_two_ints() {
    let signature = IntrinsicFn::AddInt.signature(&[]);
    assert_eq!(signature.params, vec![Type::Int, Type::Int]);
    assert_eq!(signature.returns, Type::Int);
}

#[test]
fn values_report_their_types() {
    assert_eq!(Value::NoneValue.type_of(), Type::NoneType);
    assert_eq!(Value::Bool(true).type_of(), Type::Bool);
    assert_eq!(Value::Int(3).type_of(), Type::Int);
    assert_eq!(Value::Float("1.5".to_string()).type_of(), Type::Float);
    assert_eq!(Value::Type(Type::Int).type_of(), Type::Type);
    assert_eq!(Value::Int(3).assert_int(), 3);
    assert!(Value::Bool(true).assert_bool());
    assert_eq!(Value::Float("2.5".to_string()).assert_float(), "2.5");
    assert_eq!(*Value::Type(Type::Bool).assert_type(), Type::Bool);
    let closure = Value::StaticClosure(vec![Value::Int(1)]);
    let copy = closure.deep_clone();
    assert_eq!(copy.assert_static_closure().len(), 1);
    assert_eq!(copy.into_static_closure()[0].assert_int(), 1);
}

#[test]
fn root_scope_finds_globals() {
    let root = RootScope::new(Globals::new().globals);
    assert_eq!(root.find_global("Int"), Some(GlobalRef { i: 4, comptime: true }));
    assert_eq!(root.find_global("Nope"), None);
}

#[test]
fn block_scope_keeps_latest_binding() {
    let mut block = BlockScope::new();
    block.set_name("a".to_string(), LocalRef { i: 0, comptime: false });
    block.set_name("a".to_string(), LocalRef { i: 1, comptime: false });
    assert_eq!(block.find_name("a"), Some(LocalRef { i: 1, comptime: false }));
    assert_eq!(block.find_name("b"), None);
}

fn stack() -> ScopeStack {
    ScopeStack::new(RootScope::new(Globals::new().globals))
}

#[test]
fn scope_stack_finds_locals_params_and_globals() {
    let mut scopes = stack();
    scopes.push_stack_frame(vec![Param { name: "p".to_string(), comptime: false }]);
    scopes.push_block();
    let x = scopes.define_local("x".to_string(), false);
    assert_eq!(x, LocalRef { i: 0, comptime: false });
    assert_eq!(scopes.lookup("x"), Ok(NameRef::Local(x)));
    assert_eq!(scopes.lookup("p"), Ok(NameRef::Param(ParamRef { i: 0, comptime: false })));
    assert_eq!(scopes.lookup("Int"), Ok(NameRef::Global(GlobalRef { i: 4, comptime: true })));
    assert_eq!(scopes.lookup("missing"), Err(NameAccessError::NameNotFound));
}

#[test]
fn scope_stack_captures_from_outer_frames() {
    let mut scopes = stack();
    scopes.push_stack_frame(Vec::new());
    scopes.push_block();
    let x = scopes.define_local("x".to_string(), false);
    scopes.push_stack_frame(Vec::new());
    scopes.push_block();
    let found = scopes.lookup("x");
    assert_eq!(found, Ok(NameRef::Capture(CaptureRef { i: 0, comptime: false })));
    // A second lookup reuses the capture.
    assert_eq!(scopes.lookup("x"), found);
    scopes.pop_block();
    let frame = scopes.pop_stack_frame();
    assert_eq!(frame.captures.len(), 1);
    assert_eq!(frame.captures[0].name, "x");
    assert_eq!(frame.captures[0].from, photon::ir::CaptureFrom::Local(x));
}

#[test]
fn scope_stack_hides_runtime_names_from_comptime() {
    let mut scopes = stack();
    scopes.push_stack_frame(Vec::new());
    scopes.push_block();
    scopes.define_local("x".to_string(), false);
    scopes.push_comptime_portal();
    scopes.push_block();
    assert_eq!(scopes.lookup("x"), Err(NameAccessError::CannotReferenceRuntimeNameFromComptime));
    assert_eq!(scopes.lookup("Int"), Ok(NameRef::Global(GlobalRef { i: 4, comptime: true })));
}

#[test]
fn scope_stack_locals_under_portal_are_comptime() {
    let mut scopes = stack();
    scopes.push_stack_frame(Vec::new());
    scopes.push_comptime_portal();
    scopes.push_block();
    let t = scopes.define_local("T".to_string(), false);
    assert!(t.comptime);
}

#[test]
fn scope_stack_shadowing_prefers_innermost_block() {
    let mut scopes = stack();
    scopes.push_stack_frame(Vec::new());
    scopes.push_block();
    scopes.define_local("x".to_string(), false);
    scopes.push_block();
    let inner = scopes.define_local("x".to_string(), false);
    assert_eq!(scopes.lookup("x"), Ok(NameRef::Local(inner)));
    scopes.pop_block();
    assert_eq!(scopes.lookup("x"), Ok(NameRef::Local(LocalRef { i: 0, comptime: false })));
}

#[test]
fn runtime_values_round_trip() {
    assert!(Any::bool(true).assert_bool());
    assert!(!Any::bool(false).assert_bool());
    assert_eq!(Any::int_value(-7).assert_int(), -7);
    Any::none().assert_none();
    assert_eq!(Any::none().into_raw(), (0, 0));
    assert_eq!(Any::bool(true).into_raw(), (1, 1));
    assert_eq!(Any::int_value(42).into_raw(), (2, 42));
    assert_eq!(Any::float_from_bits(5).into_raw(), (3, 5));
    assert_eq!(Any::any_type().into_raw(), (4, 0));
    assert_eq!(Any::type_type().into_raw(), (5, 0));
    assert_eq!(Any::none_type().into_raw(), (6, 0));
    assert_eq!(Any::bool_type().into_raw(), (7, 0));
    // The integer type carries the boolean type's tag.
    assert_eq!(Any::int_type().typ, AnyT::BoolT);
    assert_eq!(Any::float_type().into_raw(), (9, 0));
    assert_eq!(AnyT::IntT.into_raw(), 8);
    assert_eq!(AnyT::Closure.into_raw(), 10);
    assert_eq!(AnyT::FunctionPtr.into_raw(), 11);
    let bits = 1.5f64.to_bits() as i64;
    assert_eq!(Any::float_from_bits(bits).assert_float_bits(), bits);
}

#[test]
fn scope_stack_gives_back_its_root() {
    let scopes = stack();
    let root = scopes.consume_root();
    assert_eq!(root.find_global("Float"), Some(GlobalRef { i: 5, comptime: true }));
}

#[test]
fn counter_names_hold_no_nul() {
    let mut counter = SymbolNameCounter::new();
    assert!(!counter.next("fn").contains('\0'));
    let mut anon = AnonCounter::new();
    assert!(!anon.next_str().contains('\0'));
}
