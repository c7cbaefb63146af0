//! What lowering a syntax tree to code gives, as functions of the scopes in
//! effect and of the function templates built so far.
//!
//! Each function of [`crate::ir::builder::Builder`] has here a spec function
//! of the same shape; `None` stands for an input that the builder does not
//! support and on which it panics.
use vstd::prelude::*;
use crate::ast::location::LocationV;
use crate::ast::ast::{ASTV, LiteralV, ValueV as AstValueV, FunctionV as AstFunctionV, ParamV as AstParamV, PatternValueV};
use crate::ir::ir::{Capture, FunctionTemplateRef, FunctionV, IRV, Local, LocalRef, NodeV, ParamV, ModuleV};
use crate::ir::value::ValueV;
use crate::ir::lexical_scope::root_scope::RootScopeV;
use crate::ir::lexical_scope::scope_stack::{
    NameAccessError, NameRef, ScopeV, frame_index_from, spec_define_stack_frame_local, spec_lookup,
};
use crate::ir::lexical_scope::stack_frame::{CaptureV, ParamV as FrameParamV, StackFrameLocal, StackFrameV};

verus! {

/// The builder's state: the scopes in effect and the function templates
/// built so far.
pub struct BState {
    pub scopes: Seq<ScopeV>,
    pub functions: Seq<FunctionV>,
}

/// `st` with `s` entered.
pub open spec fn push_scope(st: BState, s: ScopeV) -> BState {
    BState { scopes: st.scopes.push(s), ..st }
}

/// `st` with its innermost scope left.
pub open spec fn pop_scope(st: BState) -> BState {
    BState { scopes: st.scopes.drop_last(), ..st }
}

/// A block that defines no names yet.
pub open spec fn empty_block() -> ScopeV {
    ScopeV::Block(Seq::empty())
}

/// The code that reads a name, by what the name resolves to.
pub open spec fn name_node(r: NameRef) -> NodeV {
    match r {
        NameRef::Global(g) => NodeV::GlobalRef(g),
        NameRef::Capture(c) => NodeV::CaptureRef(c),
        NameRef::Param(p) => NodeV::ParamRef(p),
        NameRef::Local(l) => NodeV::LocalRef(l),
    }
}

/// Looks up a name: the state after the lookup and the code that reads it.
pub open spec fn b_lookup(st: BState, name: Seq<char>) -> (BState, Result<NodeV, NameAccessError>) {
    let (scopes, r) = spec_lookup(st.scopes, name);
    (BState { scopes, ..st }, match r {
        Ok(n) => Ok(name_node(n)),
        Err(e) => Err(e),
    })
}

/// Defines `name` in the innermost scope, which must be a block inside a
/// stack frame.
pub open spec fn b_define_local(st: BState, name: Seq<char>, comptime: bool) -> Option<(BState, LocalRef)> {
    if st.scopes.len() > 0 && st.scopes.last() is Block && frame_index_from(st.scopes, st.scopes.len() - 1) != -1 {
        let (s, r) = spec_define_stack_frame_local(st.scopes, comptime);
        Some((BState { scopes: s.update(s.len() - 1, ScopeV::Block(s.last()->Block_0.push((name, r)))), ..st }, r))
    } else {
        None
    }
}

/// Code at `location`.
pub open spec fn at(node: NodeV, location: LocationV) -> IRV {
    IRV { node, location }
}

/// Lowers an expression.
pub open spec fn b_ir(st: BState, ast: ASTV) -> (BState, Option<IRV>)
    decreases ast, 0int,
{
    let loc = ast.location;
    match ast.value {
        AstValueV::Literal(l) => match l {
            LiteralV::Bool(b) => (st, Some(at(NodeV::Constant(ValueV::Bool(b)), loc))),
            LiteralV::Int(i) => (st, Some(at(NodeV::Constant(ValueV::Int(i)), loc))),
            LiteralV::Float(text) => (st, Some(at(NodeV::Constant(ValueV::Float(text)), loc))),
            LiteralV::String(_) => (st, None),
        },
        AstValueV::Block(asts) => {
            let (s1, r) = b_block(push_scope(st, empty_block()), asts, 0, Seq::empty());
            match r {
                None => (s1, None),
                Some(irs) => (pop_scope(s1), Some(at(if irs.len() == 0 { NodeV::Nop } else { NodeV::Block(irs) }, loc))),
            }
        },
        AstValueV::Let { name, value, recursive, comptime } => if recursive {
            (st, None)
        } else {
            let s1 = if comptime { push_scope(st, ScopeV::Portal) } else { st };
            let (s2, r) = b_ir(push_scope(s1, empty_block()), *value);
            match r {
                None => (s2, None),
                Some(v) => {
                    let s3 = pop_scope(s2);
                    let s4 = if comptime { pop_scope(s3) } else { s3 };
                    match b_define_local(s4, name, comptime) {
                        None => (s4, None),
                        Some((s5, local_ref)) => (s5, Some(at(NodeV::LocalSet(local_ref, Box::new(v)), loc))),
                    }
                },
            }
        },
        AstValueV::NameRef(name) => {
            let (s1, r) = b_lookup(st, name);
            match r {
                Ok(n) => (s1, Some(at(n, loc))),
                Err(_) => (s1, None),
            }
        },
        AstValueV::Function(f) => {
            let (s1, r) = b_function(st, f);
            match r {
                None => (s1, None),
                Some(fv) => (
                    BState { functions: s1.functions.push(fv), ..s1 },
                    Some(at(NodeV::CreateClosure(
                        FunctionTemplateRef { i: s1.functions.len() as usize },
                        fv.captures.map_values(|c: Capture| c.from),
                    ), loc)),
                ),
            }
        },
        AstValueV::Call { target, name, args } => {
            let (s1, tr): (BState, Option<(IRV, Seq<char>)>) = match target {
                None => {
                    let (sa, ra) = b_lookup(st, name);
                    match ra {
                        Ok(n) => (sa, Some((at(n, loc), "call"@))),
                        Err(NameAccessError::NameNotFound) => {
                            let (sb, rb) = b_lookup(sa, "self"@);
                            match rb {
                                Ok(n) => (sb, Some((at(n, loc), name))),
                                Err(_) => (sb, None),
                            }
                        },
                        Err(_) => (sa, None),
                    }
                },
                Some(t) => {
                    let (sa, ra) = b_ir(st, *t);
                    match ra {
                        None => (sa, None),
                        Some(tir) => (sa, Some((tir, name))),
                    }
                },
            };
            match tr {
                None => (s1, None),
                Some((tir, nm)) => {
                    let (s2, ra) = b_args(s1, args, 0, Seq::empty());
                    match ra {
                        None => (s2, None),
                        Some(irs) => (s2, Some(at(NodeV::Call(nm, Box::new(tir), irs), loc))),
                    }
                },
            }
        },
        AstValueV::If { condition, on_true, on_false } => {
            let (s1, rc) = b_ir(st, *condition);
            match rc {
                None => (s1, None),
                Some(c) => {
                    let (s2, rt) = b_ir(push_scope(s1, empty_block()), *on_true);
                    match rt {
                        None => (s2, None),
                        Some(t) => {
                            let s3 = push_scope(pop_scope(s2), empty_block());
                            let (s4, rf): (BState, Option<Option<Box<IRV>>>) = match on_false {
                                None => (s3, Some(None)),
                                Some(e) => {
                                    let (sx, rx) = b_ir(s3, *e);
                                    match rx {
                                        None => (sx, None),
                                        Some(x) => (sx, Some(Some(Box::new(x)))),
                                    }
                                },
                            };
                            match rf {
                                None => (s4, None),
                                Some(f) => (pop_scope(s4), Some(at(NodeV::If(Box::new(c), Box::new(t), f), loc))),
                            }
                        },
                    }
                },
            }
        },
        AstValueV::FnType { .. } => (st, None),
        AstValueV::TypeAssert { .. } => (st, None),
        AstValueV::CompileTimeExpr(e) => {
            let (s1, r) = b_comptime(st, *e);
            match r {
                None => (s1, None),
                Some(n) => (s1, Some(at(n, loc))),
            }
        },
    }
}

/// Lowering a literal keeps its value and its location, and changes no
/// state: a boolean gives the same boolean, an integer the same integer, a
/// decimal the same decimal text. String literals are not lowered.
pub proof fn lemma_literal_keeps_value(st: BState, l: LiteralV, loc: LocationV)
    ensures
        ({
            let (s1, r) = b_ir(st, ASTV { value: AstValueV::Literal(l), location: loc });
            &&& s1 == st
            &&& match l {
                LiteralV::Bool(b) => r == Some(IRV { node: NodeV::Constant(ValueV::Bool(b)), location: loc }),
                LiteralV::Int(i) => r == Some(IRV { node: NodeV::Constant(ValueV::Int(i)), location: loc }),
                LiteralV::Float(t) => r == Some(IRV { node: NodeV::Constant(ValueV::Float(t)), location: loc }),
                LiteralV::String(_) => r is None,
            }
        }),
{
}

/// Lowers the expressions of a block from index `i`, after `acc`; code
/// that does nothing is left out.
pub open spec fn b_block(st: BState, asts: Seq<ASTV>, i: int, acc: Seq<IRV>) -> (BState, Option<Seq<IRV>>)
    decreases asts, asts.len() - i,
{
    if i < 0 || i >= asts.len() {
        (st, Some(acc))
    } else {
        let (s1, r) = b_ir(st, asts[i]);
        match r {
            None => (s1, None),
            Some(ir) => b_block(s1, asts, i + 1, if ir.node is Nop { acc } else { acc.push(ir) }),
        }
    }
}

/// Lowers the arguments of a call from index `i`, after `acc`.
pub open spec fn b_args(st: BState, args: Seq<ASTV>, i: int, acc: Seq<IRV>) -> (BState, Option<Seq<IRV>>)
    decreases args, args.len() - i,
{
    if i < 0 || i >= args.len() {
        (st, Some(acc))
    } else {
        let (s1, r) = b_ir(st, args[i]);
        match r {
            None => (s1, None),
            Some(ir) => b_args(s1, args, i + 1, acc.push(ir)),
        }
    }
}

/// Lowers code that runs at compile time.
pub open spec fn b_comptime(st: BState, ast: ASTV) -> (BState, Option<NodeV>)
    decreases ast, 1int,
{
    let (s1, r) = b_ir(push_scope(st, ScopeV::Portal), ast);
    match r {
        None => (s1, None),
        Some(ir) => (pop_scope(s1), Some(NodeV::Comptime(Box::new(ir)))),
    }
}

/// The parameters a lambda's stack frame starts with.
pub open spec fn frame_params(params: Seq<AstParamV>) -> Seq<FrameParamV> {
    params.map_values(|p: AstParamV| FrameParamV { name: p.name, comptime: p.comptime })
}

/// Lowers the parameter types of a lambda from index `i`, after `acc`, each
/// in a block of its own; a type must be a plain value.
pub open spec fn b_params(st: BState, params: Seq<AstParamV>, i: int, acc: Seq<ParamV>) -> (BState, Option<Seq<ParamV>>)
    decreases params, params.len() - i,
{
    if i < 0 || i >= params.len() {
        (st, Some(acc))
    } else {
        let p = params[i];
        let s1 = push_scope(st, empty_block());
        let (s2, rt): (BState, Option<Option<IRV>>) = match p.typ {
            None => (s1, Some(None)),
            Some(pat) => match pat.value {
                PatternValueV::SpecificValue(a) => {
                    let (sx, rx) = b_comptime(s1, a);
                    match rx {
                        None => (sx, None),
                        Some(n) => (sx, Some(Some(at(n, a.location)))),
                    }
                },
                _ => (s1, None),
            },
        };
        match rt {
            None => (s2, None),
            Some(t) => b_params(pop_scope(s2), params, i + 1, acc.push(ParamV { typ: t, comptime: p.comptime })),
        }
    }
}

/// The captures of a function template, from its stack frame.
pub open spec fn frame_captures(frame: StackFrameV) -> Seq<Capture> {
    frame.captures.map_values(|c: CaptureV| Capture { from: c.from, comptime: c.comptime })
}

/// The locals of a function template, from its stack frame.
pub open spec fn frame_locals(frame: StackFrameV) -> Seq<Local> {
    frame.locals.map_values(|l: StackFrameLocal| Local { comptime: l.comptime })
}

/// Lowers a lambda to a function template, in a stack frame of its own.
pub open spec fn b_function(st: BState, f: AstFunctionV) -> (BState, Option<FunctionV>)
    decreases f, 0int,
{
    let s1 = push_scope(st, ScopeV::Frame(StackFrameV {
        captures: Seq::empty(),
        params: frame_params(f.params),
        locals: Seq::empty(),
    }));
    let (s2, rp) = b_params(s1, f.params, 0, Seq::empty());
    match rp {
        None => (s2, None),
        Some(params) => {
            let (s3, rr): (BState, Option<Option<IRV>>) = match f.return_type {
                None => (s2, Some(None)),
                Some(t) => {
                    let (sx, rx) = b_comptime(s2, *t);
                    match rx {
                        None => (sx, None),
                        Some(n) => (sx, Some(Some(at(n, t.location)))),
                    }
                },
            };
            match rr {
                None => (s3, None),
                Some(return_type) => {
                    let (s4, rb) = b_ir(push_scope(s3, empty_block()), *f.body);
                    match rb {
                        None => (s4, None),
                        Some(body) => {
                            let s5 = pop_scope(s4);
                            let frame = s5.scopes.last()->Frame_0;
                            (pop_scope(s5), Some(FunctionV {
                                captures: frame_captures(frame),
                                params,
                                locals: frame_locals(frame),
                                return_type,
                                body,
                            }))
                        },
                    }
                },
            }
        },
    }
}

/// Lowers a whole program, read as the body of a main function with no
/// parameters, under a root of the given globals.
pub open spec fn b_module(root: RootScopeV, ast: ASTV) -> Option<ModuleV> {
    let st = BState { scopes: seq![ScopeV::Root(root)], functions: Seq::empty() };
    let main = AstFunctionV { params: Seq::empty(), body: Box::new(ast), return_type: None };
    let (s1, r) = b_function(st, main);
    match r {
        None => None,
        Some(m) => Some(ModuleV { functions: s1.functions, main: m }),
    }
}


// ---------------------------------------------------------------------------
// Which function templates lowered code refers to.

/// Every closure that `ir` creates names one of the first `n` function
/// templates.
pub open spec fn closures_within(ir: IRV, n: nat) -> bool
    decreases ir,
{
    match ir.node {
        NodeV::LocalSet(_, v) => closures_within(*v, n),
        NodeV::Block(irs) => forall|k: int| 0 <= k < irs.len() ==> closures_within(#[trigger] irs[k], n),
        NodeV::Comptime(v) => closures_within(*v, n),
        NodeV::Call(_, t, args) => closures_within(*t, n) && forall|k: int| 0 <= k < args.len() ==> closures_within(#[trigger] args[k], n),
        NodeV::CreateClosure(f, _) => f.i < n,
        NodeV::If(c, t, e) => closures_within(*c, n) && closures_within(*t, n) && match e {
            Some(x) => closures_within(*x, n),
            None => true,
        },
        _ => true,
    }
}

/// Every closure that optional code creates names one of the first `n`
/// templates.
pub open spec fn opt_closures_within(t: Option<IRV>, n: nat) -> bool {
    match t {
        Some(t) => closures_within(t, n),
        None => true,
    }
}

/// Every closure that the code of `f` creates, in its parameter types, its
/// return type or its body, names one of the first `n` templates.
pub open spec fn function_closures_within(f: FunctionV, n: nat) -> bool {
    &&& closures_within(f.body, n)
    &&& forall|k: int| 0 <= k < f.params.len() ==> opt_closures_within((#[trigger] f.params[k]).typ, n)
    &&& opt_closures_within(f.return_type, n)
}

/// Each template's code creates closures only of templates listed before it.
pub open spec fn templates_ordered(fs: Seq<FunctionV>) -> bool {
    forall|k: int| 0 <= k < fs.len() ==> function_closures_within(#[trigger] fs[k], k as nat)
}

proof fn lemma_closures_mono(ir: IRV, n: nat, m: nat)
    requires
        closures_within(ir, n),
        n <= m,
    ensures
        closures_within(ir, m),
    decreases ir,
{
    match ir.node {
        NodeV::LocalSet(_, v) => lemma_closures_mono(*v, n, m),
        NodeV::Block(irs) => {
            assert forall|k: int| 0 <= k < irs.len() implies closures_within(#[trigger] irs[k], m) by {
                lemma_closures_mono(irs[k], n, m);
            }
        },
        NodeV::Comptime(v) => lemma_closures_mono(*v, n, m),
        NodeV::Call(_, t, args) => {
            lemma_closures_mono(*t, n, m);
            assert forall|k: int| 0 <= k < args.len() implies closures_within(#[trigger] args[k], m) by {
                lemma_closures_mono(args[k], n, m);
            }
        },
        NodeV::If(c, t, e) => {
            lemma_closures_mono(*c, n, m);
            lemma_closures_mono(*t, n, m);
            match e {
                Some(x) => lemma_closures_mono(*x, n, m),
                None => {},
            }
        },
        _ => {},
    }
}

proof fn lemma_ir_closures(st: BState, ast: ASTV)
    requires
        templates_ordered(st.functions),
    ensures
        templates_ordered(b_ir(st, ast).0.functions),
        st.functions.len() <= b_ir(st, ast).0.functions.len(),
        b_ir(st, ast).1 matches Some(ir) ==> closures_within(ir, b_ir(st, ast).0.functions.len()),
    decreases ast, 0int,
{
    match ast.value {
        AstValueV::Literal(_) => {},
        AstValueV::Block(asts) => {
            lemma_block_closures(push_scope(st, empty_block()), asts, 0, Seq::empty());
        },
        AstValueV::Let { name, value, recursive, comptime } => if !recursive {
            let s1 = if comptime { push_scope(st, ScopeV::Portal) } else { st };
            lemma_ir_closures(push_scope(s1, empty_block()), *value);
        },
        AstValueV::NameRef(_) => {},
        AstValueV::Function(f) => {
            lemma_function_closures(st, f);
            let (s1, r) = b_function(st, f);
            match r {
                None => {},
                Some(fv) => {
                    let fs = s1.functions.push(fv);
                    assert forall|k: int| 0 <= k < fs.len() implies function_closures_within(#[trigger] fs[k], k as nat) by {
                        if k < s1.functions.len() {
                            assert(fs[k] == s1.functions[k]);
                        }
                    }
                },
            }
        },
        AstValueV::Call { target, name, args } => {
            let (s1, tr): (BState, Option<(IRV, Seq<char>)>) = match target {
                None => {
                    let (sa, ra) = b_lookup(st, name);
                    match ra {
                        Ok(n) => (sa, Some((at(n, ast.location), "call"@))),
                        Err(NameAccessError::NameNotFound) => {
                            let (sb, rb) = b_lookup(sa, "self"@);
                            match rb {
                                Ok(n) => (sb, Some((at(n, ast.location), name))),
                                Err(_) => (sb, None),
                            }
                        },
                        Err(_) => (sa, None),
                    }
                },
                Some(t) => {
                    lemma_ir_closures(st, *t);
                    let (sa, ra) = b_ir(st, *t);
                    match ra {
                        None => (sa, None),
                        Some(tir) => (sa, Some((tir, name))),
                    }
                },
            };
            match tr {
                None => {},
                Some((tir, nm)) => {
                    lemma_args_closures(s1, args, 0, Seq::empty());
                    let (s2, ra) = b_args(s1, args, 0, Seq::empty());
                    lemma_closures_mono(tir, s1.functions.len(), s2.functions.len());
                },
            }
        },
        AstValueV::If { condition, on_true, on_false } => {
            lemma_ir_closures(st, *condition);
            let (s1, rc) = b_ir(st, *condition);
            match rc {
                None => {},
                Some(c) => {
                    lemma_ir_closures(push_scope(s1, empty_block()), *on_true);
                    let (s2, rt) = b_ir(push_scope(s1, empty_block()), *on_true);
                    match rt {
                        None => {},
                        Some(t) => {
                            let s3 = push_scope(pop_scope(s2), empty_block());
                            match on_false {
                                None => {
                                    lemma_closures_mono(c, s1.functions.len(), s2.functions.len());
                                },
                                Some(e) => {
                                    lemma_ir_closures(s3, *e);
                                    let (sx, rx) = b_ir(s3, *e);
                                    lemma_closures_mono(c, s1.functions.len(), sx.functions.len());
                                    lemma_closures_mono(t, s2.functions.len(), sx.functions.len());
                                },
                            }
                        },
                    }
                },
            }
        },
        AstValueV::FnType { .. } => {},
        AstValueV::TypeAssert { .. } => {},
        AstValueV::CompileTimeExpr(e) => {
            lemma_comptime_closures(st, *e);
        },
    }
}

proof fn lemma_block_closures(st: BState, asts: Seq<ASTV>, i: int, acc: Seq<IRV>)
    requires
        templates_ordered(st.functions),
        forall|k: int| 0 <= k < acc.len() ==> closures_within(#[trigger] acc[k], st.functions.len()),
    ensures
        templates_ordered(b_block(st, asts, i, acc).0.functions),
        st.functions.len() <= b_block(st, asts, i, acc).0.functions.len(),
        b_block(st, asts, i, acc).1 matches Some(irs) ==> forall|k: int| 0 <= k < irs.len() ==> closures_within(#[trigger] irs[k], b_block(st, asts, i, acc).0.functions.len()),
    decreases asts, asts.len() - i,
{
    if 0 <= i < asts.len() {
        lemma_ir_closures(st, asts[i]);
        let (s1, r) = b_ir(st, asts[i]);
        match r {
            None => {},
            Some(ir) => {
                let next = if ir.node is Nop { acc } else { acc.push(ir) };
                assert forall|k: int| 0 <= k < next.len() implies closures_within(#[trigger] next[k], s1.functions.len()) by {
                    if k < acc.len() {
                        lemma_closures_mono(acc[k], st.functions.len(), s1.functions.len());
                    }
                }
                lemma_block_closures(s1, asts, i + 1, next);
            },
        }
    }
}

proof fn lemma_args_closures(st: BState, args: Seq<ASTV>, i: int, acc: Seq<IRV>)
    requires
        templates_ordered(st.functions),
        forall|k: int| 0 <= k < acc.len() ==> closures_within(#[trigger] acc[k], st.functions.len()),
    ensures
        templates_ordered(b_args(st, args, i, acc).0.functions),
        st.functions.len() <= b_args(st, args, i, acc).0.functions.len(),
        b_args(st, args, i, acc).1 matches Some(irs) ==> forall|k: int| 0 <= k < irs.len() ==> closures_within(#[trigger] irs[k], b_args(st, args, i, acc).0.functions.len()),
    decreases args, args.len() - i,
{
    if 0 <= i < args.len() {
        lemma_ir_closures(st, args[i]);
        let (s1, r) = b_ir(st, args[i]);
        match r {
            None => {},
            Some(ir) => {
                let next = acc.push(ir);
                assert forall|k: int| 0 <= k < next.len() implies closures_within(#[trigger] next[k], s1.functions.len()) by {
                    if k < acc.len() {
                        lemma_closures_mono(acc[k], st.functions.len(), s1.functions.len());
                    }
                }
                lemma_args_closures(s1, args, i + 1, next);
            },
        }
    }
}

proof fn lemma_comptime_closures(st: BState, ast: ASTV)
    requires
        templates_ordered(st.functions),
    ensures
        templates_ordered(b_comptime(st, ast).0.functions),
        st.functions.len() <= b_comptime(st, ast).0.functions.len(),
        b_comptime(st, ast).1 matches Some(n) ==> closures_within(at(n, ast.location), b_comptime(st, ast).0.functions.len()),
    decreases ast, 1int,
{
    lemma_ir_closures(push_scope(st, ScopeV::Portal), ast);
}

proof fn lemma_params_closures(st: BState, params: Seq<AstParamV>, i: int, acc: Seq<ParamV>)
    requires
        templates_ordered(st.functions),
        forall|k: int| 0 <= k < acc.len() ==> opt_closures_within((#[trigger] acc[k]).typ, st.functions.len()),
    ensures
        templates_ordered(b_params(st, params, i, acc).0.functions),
        st.functions.len() <= b_params(st, params, i, acc).0.functions.len(),
        b_params(st, params, i, acc).1 matches Some(ps) ==> forall|k: int| 0 <= k < ps.len() ==> opt_closures_within((#[trigger] ps[k]).typ, b_params(st, params, i, acc).0.functions.len()),
    decreases params, params.len() - i,
{
    if 0 <= i < params.len() {
        let p = params[i];
        let s1 = push_scope(st, empty_block());
        match p.typ {
            None => {
                let next = acc.push(ParamV { typ: None, comptime: p.comptime });
                assert forall|k: int| 0 <= k < next.len() implies opt_closures_within((#[trigger] next[k]).typ, st.functions.len()) by {
                    if k < acc.len() {
                        assert(next[k] == acc[k]);
                    }
                }
                lemma_params_closures(pop_scope(s1), params, i + 1, next);
            },
            Some(pat) => match pat.value {
                PatternValueV::SpecificValue(a) => {
                    lemma_comptime_closures(s1, a);
                    let (sx, rx) = b_comptime(s1, a);
                    match rx {
                        None => {},
                        Some(n) => {
                            let next = acc.push(ParamV { typ: Some(at(n, a.location)), comptime: p.comptime });
                            assert forall|k: int| 0 <= k < next.len() implies opt_closures_within((#[trigger] next[k]).typ, sx.functions.len()) by {
                                if k < acc.len() {
                                    assert(next[k] == acc[k]);
                                    match acc[k].typ {
                                        Some(t) => lemma_closures_mono(t, st.functions.len(), sx.functions.len()),
                                        None => {},
                                    }
                                }
                            }
                            lemma_params_closures(pop_scope(sx), params, i + 1, next);
                        },
                    }
                },
                _ => {},
            },
        }
    }
}

proof fn lemma_function_closures(st: BState, f: AstFunctionV)
    requires
        templates_ordered(st.functions),
    ensures
        templates_ordered(b_function(st, f).0.functions),
        st.functions.len() <= b_function(st, f).0.functions.len(),
        b_function(st, f).1 matches Some(fv) ==> function_closures_within(fv, b_function(st, f).0.functions.len()),
    decreases f, 0int,
{
    let s1 = push_scope(st, ScopeV::Frame(StackFrameV {
        captures: Seq::empty(),
        params: frame_params(f.params),
        locals: Seq::empty(),
    }));
    lemma_params_closures(s1, f.params, 0, Seq::empty());
    let (s2, rp) = b_params(s1, f.params, 0, Seq::empty());
    match rp {
        None => {},
        Some(params) => {
            let (s3, rr): (BState, Option<Option<IRV>>) = match f.return_type {
                None => (s2, Some(None)),
                Some(t) => {
                    lemma_comptime_closures(s2, *t);
                    let (sx, rx) = b_comptime(s2, *t);
                    match rx {
                        None => (sx, None),
                        Some(n) => (sx, Some(Some(at(n, t.location)))),
                    }
                },
            };
            match rr {
                None => {},
                Some(return_type) => {
                    lemma_ir_closures(push_scope(s3, empty_block()), *f.body);
                    let (s4, rb) = b_ir(push_scope(s3, empty_block()), *f.body);
                    match rb {
                        None => {},
                        Some(body) => {
                            let n4 = s4.functions.len();
                            assert forall|k: int| 0 <= k < params.len() implies opt_closures_within((#[trigger] params[k]).typ, n4) by {
                                match params[k].typ {
                                    Some(t) => lemma_closures_mono(t, s2.functions.len(), n4),
                                    None => {},
                                }
                            }
                            match return_type {
                                Some(t) => lemma_closures_mono(t, s3.functions.len(), n4),
                                None => {},
                            }
                        },
                    }
                },
            }
        },
    }
}

/// Every closure that lowered code creates names a function template built
/// before it: the main function's code names templates of the module, and
/// the code of each template only templates listed before it.
pub proof fn lemma_module_templates_ordered(root: RootScopeV, ast: ASTV)
    requires
        b_module(root, ast) is Some,
    ensures
        function_closures_within(b_module(root, ast)->Some_0.main, b_module(root, ast)->Some_0.functions.len()),
        templates_ordered(b_module(root, ast)->Some_0.functions),
{
    let st = BState { scopes: seq![ScopeV::Root(root)], functions: Seq::empty() };
    let main = AstFunctionV { params: Seq::empty(), body: Box::new(ast), return_type: None };
    lemma_function_closures(st, main);
}

} // verus!
