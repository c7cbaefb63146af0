use vstd::prelude::*;
use crate::ast::ast::{
    AST, ASTV, Value as AstValue, Literal, Function as AstFunction, Param as AstParam, Pattern, PatternValue,
    ast_seq_view, function_view, param_view, ParamV as AstParamV,
};
use crate::ir::ir::{
    Capture, Function, FunctionTemplateRef, FunctionV, IR, IRV, Local, Module, Node, NodeV, Param, ParamV,
    CaptureFrom, ir_seq_view, node_view,
};
use crate::ir::value::ValueV;
use crate::ir::{Global, Globals, Value};
use crate::ir::lowering::{
    BState, b_args, b_block, b_comptime, b_define_local, b_function, b_ir, b_lookup, b_module, b_params,
    empty_block, frame_captures, frame_locals, frame_params, name_node, pop_scope, push_scope, at,
};
use crate::ir::lexical_scope::root_scope::{RootScope, RootScopeV};
use crate::ir::ref_bounds::{grows, scopes_refs_ok, templates_own, lemma_lowering_only_adds};
use crate::ir::lexical_scope::scope_stack::{
    NameAccessError, NameRef, ScopeStack, ScopeV, frame_index_from, lemma_define_shape, lemma_frame_index_same_shape,
    lemma_lookup_shape, same_shape, scope_kind, lemma_same_shape_trans, lemma_push_pop_shape,
};
use crate::ir::lexical_scope::stack_frame::{Param as FrameParam, StackFrame, StackFrameV};

verus! {

/// Lowers syntax trees to code, collecting the function templates it meets.
pub struct Builder {
    pub functions: Vec<Function>,
}

/// The templates of a sequence of functions.
pub open spec fn fn_views(fs: Seq<Function>) -> Seq<FunctionV> {
    fs.map_values(|f: Function| f@)
}

/// The builder's state for scopes `scopes` and templates `fs`.
pub open spec fn bstate(scopes: Seq<ScopeV>, fs: Seq<Function>) -> BState {
    BState { scopes, functions: fn_views(fs) }
}

/// The root scope of a set of globals.
pub open spec fn root_of(gs: Seq<Global>) -> RootScopeV {
    RootScopeV {
        global_names: gs.map_values(|g: Global| g.name@),
        global_comptime: gs.map_values(|g: Global| g.comptime),
        global_values: gs.map_values(|g: Global| g.value@),
        exports: 0,
    }
}

/// The parameters of a sequence of lambda parameters.
pub open spec fn ast_params_view(ps: Seq<AstParam>) -> Seq<AstParamV> {
    Seq::new(ps.len(), |i: int| if 0 <= i < ps.len() { param_view(&ps[i]) } else { arbitrary() })
}

/// A sequence of parameters taken by content.
pub open spec fn ir_params_view(ps: Seq<Param>) -> Seq<ParamV> {
    ps.map_values(|p: Param| p@)
}

/// A stack whose kinds of scopes are fit for the builder: a root, then no
/// other root.
pub open spec fn scopes_ok(scopes: Seq<ScopeV>) -> bool {
    scopes.len() > 0
}

impl Builder {
    /// Lowers a whole program, read as the body of a main function with no
    /// parameters, under a root scope of `globals`.
    pub fn build_module(ast: AST, globals: &Globals) -> (r: Module)
        requires
            b_module(root_of(globals.globals@), ast@) is Some,
        ensures
            r@ == b_module(root_of(globals.globals@), ast@)->Some_0,
    {
        let main_fn_ast = AstFunction { params: Vec::new(), body: Box::new(ast), return_type: None };
        proof {
            assert(function_view(&main_fn_ast).params =~= Seq::<AstParamV>::empty());
        }
        let mut copies: Vec<Global> = Vec::new();
        let mut i: usize = 0;
        while i < globals.globals.len()
            invariant
                i <= globals.globals@.len(),
                copies@.len() == i,
                forall|k: int| 0 <= k < i ==> (#[trigger] copies@[k]).name@ == globals.globals@[k].name@
                    && copies@[k].comptime == globals.globals@[k].comptime
                    && copies@[k].value@ == globals.globals@[k].value@,
            decreases globals.globals@.len() - i,
        {
            copies.push(globals.globals[i].clone());
            i += 1;
        }
        let root = RootScope::new(copies);
        proof {
            assert(root@.global_names =~= root_of(globals.globals@).global_names);
            assert(root@.global_comptime =~= root_of(globals.globals@).global_comptime);
            assert(root@.global_values =~= root_of(globals.globals@).global_values);
        }
        let mut scope = ScopeStack::new(root);
        let mut builder = Builder { functions: Vec::new() };
        proof {
            assert(fn_views(builder.functions@) =~= Seq::<FunctionV>::empty());
        }
        let main = builder.build_function(&mut scope, main_fn_ast);
        let r = Module { functions: builder.functions, main };
        proof {
            assert(r@.functions =~= fn_views(builder.functions@));
        }
        r
    }

    /// Lowers a lambda to a function template, in a stack frame of its own.
    #[verifier::spinoff_prover]
    fn build_function(&mut self, scope: &mut ScopeStack, ast: AstFunction) -> (r: Function)
        requires
            old(scope).wf(),
            scopes_ok(old(scope)@),
            b_function(bstate(old(scope)@, old(self).functions@), ast@).1 is Some,
        ensures
            final(scope).wf(),
            same_shape(old(scope)@, final(scope)@),
            (bstate(final(scope)@, final(self).functions@), Some(r@)) == b_function(bstate(old(scope)@, old(self).functions@), ast@),
        decreases ast@, 0int,
    {
        let ghost fv = ast@;
        let ghost st = bstate(scope@, self.functions@);
        let AstFunction { params: ast_params, body, return_type } = ast;
        let mut scope_params: Vec<FrameParam> = Vec::new();
        let mut i: usize = 0;
        while i < ast_params.len()
            invariant
                i <= ast_params@.len(),
                fv.params == ast_params_view(ast_params@),
                scope_params@.len() == i,
                forall|k: int| 0 <= k < i ==> (#[trigger] scope_params@[k])@ == frame_params(fv.params)[k],
            decreases ast_params@.len() - i,
        {
            scope_params.push(FrameParam { name: ast_params[i].name.clone(), comptime: ast_params[i].comptime });
            i += 1;
        }
        proof {
            assert(scope_params@.map_values(|p: FrameParam| p@) =~= frame_params(fv.params));
        }
        let ghost o = scope@;
        scope.push_stack_frame(scope_params);
        let ghost p1 = scope@;
        let ghost s1 = bstate(scope@, self.functions@);
        proof {
            assert(s1 == push_scope(st, ScopeV::Frame(StackFrameV {
                captures: Seq::empty(),
                params: frame_params(fv.params),
                locals: Seq::empty(),
            })));
        }
        let params = self.build_params(scope, ast_params);
        let ghost p2 = scope@;
        let ghost s2 = bstate(scope@, self.functions@);
        let return_type = match return_type {
            None => None,
            Some(t) => {
                proof {
                    assert(decreases_to!(fv => fv.return_type));
                    assert(decreases_to!(fv.return_type => fv.return_type->Some_0));
                }
                Some(self.compile_implicit_comptime_ast(scope, *t))
            },
        };
        let ghost p3 = scope@;
        proof {
            lemma_same_shape_trans(p1, p2, p3);
        }
        scope.push_block();
        proof {
            assert(decreases_to!(fv => fv.body));
        }
        let body = self.build_ir(scope, *body);
        proof {
            lemma_push_pop_shape(p3, empty_block(), scope@);
        }
        let _ = scope.pop_block();
        proof {
            lemma_same_shape_trans(p1, p3, scope@);
            lemma_push_pop_shape(o, ScopeV::Frame(StackFrameV {
                captures: Seq::empty(),
                params: frame_params(fv.params),
                locals: Seq::empty(),
            }), scope@);
        }
        let stack_frame = scope.pop_stack_frame();
        let ghost frame_v = stack_frame@;
        let StackFrame { captures: frame_caps, params: _, locals: frame_locs } = stack_frame;
        let mut captures: Vec<Capture> = Vec::new();
        let mut k: usize = 0;
        while k < frame_caps.len()
            invariant
                k <= frame_caps@.len(),
                captures@.len() == k,
                forall|j: int| 0 <= j < k ==> #[trigger] captures@[j] == (Capture { from: frame_caps@[j].from, comptime: frame_caps@[j].comptime }),
            decreases frame_caps@.len() - k,
        {
            captures.push(Capture { from: frame_caps[k].from, comptime: frame_caps[k].comptime });
            k += 1;
        }
        let mut locals: Vec<Local> = Vec::new();
        let mut k: usize = 0;
        while k < frame_locs.len()
            invariant
                k <= frame_locs@.len(),
                locals@.len() == k,
                forall|j: int| 0 <= j < k ==> #[trigger] locals@[j] == (Local { comptime: frame_locs@[j].comptime }),
            decreases frame_locs@.len() - k,
        {
            locals.push(Local { comptime: frame_locs[k].comptime });
            k += 1;
        }
        let r = Function { captures, params, locals, return_type, body };
        proof {
            assert(r@.captures =~= frame_captures(frame_v));
            assert(r@.locals =~= frame_locals(frame_v));
        }
        r
    }

    /// Lowers the parameter types of a lambda, each in a block of its own;
    /// a type must be a plain value.
    #[verifier::spinoff_prover]
    fn build_params(&mut self, scope: &mut ScopeStack, params: Vec<AstParam>) -> (r: Vec<Param>)
        requires
            old(scope).wf(),
            scopes_ok(old(scope)@),
            b_params(bstate(old(scope)@, old(self).functions@), ast_params_view(params@), 0, Seq::empty()).1 is Some,
        ensures
            final(scope).wf(),
            same_shape(old(scope)@, final(scope)@),
            (bstate(final(scope)@, final(self).functions@), Some(ir_params_view(r@)))
                == b_params(bstate(old(scope)@, old(self).functions@), ast_params_view(params@), 0, Seq::empty()),
        decreases ast_params_view(params@), params@.len(),
    {
        let ghost pv = ast_params_view(params@);
        let ghost s0 = bstate(scope@, self.functions@);
        let mut rest = params;
        let mut out: Vec<Param> = Vec::new();
        proof {
            assert(ir_params_view(out@) =~= Seq::<ParamV>::empty());
        }
        while rest.len() > 0
            invariant
                scope.wf(),
                scopes_ok(scope@),
                same_shape(old(scope)@, scope@),
                pv == ast_params_view(params@),
                out@.len() + rest@.len() == pv.len(),
                forall|k: int| 0 <= k < rest@.len() ==> param_view(&#[trigger] rest@[k]) == pv[out@.len() + k],
                b_params(s0, pv, 0, Seq::empty()) == b_params(bstate(scope@, self.functions@), pv, out@.len() as int, ir_params_view(out@)),
                b_params(s0, pv, 0, Seq::empty()).1 is Some,
                s0 == bstate(old(scope)@, old(self).functions@),
            decreases rest@.len(),
        {
            let ghost i = out@.len() as int;
            let ghost before = scope@;
            let p = rest.remove(0);
            proof {
                assert(param_view(&p) == pv[i]);
            }
            scope.push_block();
            let AstParam { name: _, comptime, typ, location: _ } = p;
            let t = match typ {
                None => None,
                Some(Pattern { value: PatternValue::SpecificValue(ast), location: _ }) => {
                    proof {
                        assert(decreases_to!(pv => pv[i]));
                        assert(decreases_to!(pv[i] => pv[i].typ));
                        assert(decreases_to!(pv[i].typ => pv[i].typ->Some_0));
                        assert(decreases_to!(pv[i].typ->Some_0 => pv[i].typ->Some_0.value));
                        assert(decreases_to!(pv[i].typ->Some_0.value => pv[i].typ->Some_0.value->SpecificValue_0));
                    }
                    let ir = self.compile_implicit_comptime_ast(scope, ast);
                    Some(Box::new(ir))
                },
                Some(_) => vstd::pervasive::unreached(),
            };
            proof {
                lemma_push_pop_shape(before, empty_block(), scope@);
            }
            let _ = scope.pop_block();
            proof {
                lemma_same_shape_trans(old(scope)@, before, scope@);
            }
            let ghost ov = ir_params_view(out@);
            let param = Param { typ: t, comptime };
            let ghost new_v = param@;
            out.push(param);
            proof {
                assert(ir_params_view(out@) =~= ov.push(new_v));
            }
        }
        out
    }

    /// Lowers the expressions of a block; code that does nothing is left out.
    #[verifier::spinoff_prover]
    fn build_block(&mut self, scope: &mut ScopeStack, asts: Vec<AST>) -> (r: Vec<IR>)
        requires
            old(scope).wf(),
            scopes_ok(old(scope)@),
            b_block(bstate(old(scope)@, old(self).functions@), ast_seq_view(asts@), 0, Seq::empty()).1 is Some,
        ensures
            final(scope).wf(),
            same_shape(old(scope)@, final(scope)@),
            (bstate(final(scope)@, final(self).functions@), Some(ir_seq_view(r@)))
                == b_block(bstate(old(scope)@, old(self).functions@), ast_seq_view(asts@), 0, Seq::empty()),
        decreases ast_seq_view(asts@), asts@.len(),
    {
        let ghost av = ast_seq_view(asts@);
        let ghost s0 = bstate(scope@, self.functions@);
        let n = asts.len();
        let mut rest = asts;
        let mut out: Vec<IR> = Vec::new();
        let mut i: usize = 0;
        proof {
            assert(ir_seq_view(out@) =~= Seq::<IRV>::empty());
        }
        while rest.len() > 0
            invariant
                scope.wf(),
                scopes_ok(scope@),
                same_shape(old(scope)@, scope@),
                av == ast_seq_view(asts@),
                av.len() == n,
                i + rest@.len() == av.len(),
                forall|k: int| 0 <= k < rest@.len() ==> (#[trigger] rest@[k])@ == av[i + k],
                b_block(s0, av, 0, Seq::empty()) == b_block(bstate(scope@, self.functions@), av, i as int, ir_seq_view(out@)),
                b_block(s0, av, 0, Seq::empty()).1 is Some,
                s0 == bstate(old(scope)@, old(self).functions@),
            decreases rest@.len(),
        {
            let a = rest.remove(0);
            let ghost before = scope@;
            proof {
                assert(a@ == av[i as int]);
                assert(decreases_to!(av => av[i as int]));
            }
            let ghost ov = ir_seq_view(out@);
            let ir = self.build_ir(scope, a);
            proof {
                lemma_same_shape_trans(old(scope)@, before, scope@);
            }
            if !matches!(ir.node, Node::Nop) {
                let ghost iv = ir@;
                out.push(ir);
                proof {
                    assert(ir_seq_view(out@) =~= ov.push(iv));
                }
            }
            i += 1;
        }
        out
    }

    /// Lowers the arguments of a call.
    #[verifier::spinoff_prover]
    fn build_args(&mut self, scope: &mut ScopeStack, args: Vec<AST>) -> (r: Vec<IR>)
        requires
            old(scope).wf(),
            scopes_ok(old(scope)@),
            b_args(bstate(old(scope)@, old(self).functions@), ast_seq_view(args@), 0, Seq::empty()).1 is Some,
        ensures
            final(scope).wf(),
            same_shape(old(scope)@, final(scope)@),
            (bstate(final(scope)@, final(self).functions@), Some(ir_seq_view(r@)))
                == b_args(bstate(old(scope)@, old(self).functions@), ast_seq_view(args@), 0, Seq::empty()),
        decreases ast_seq_view(args@), args@.len(),
    {
        let ghost av = ast_seq_view(args@);
        let ghost s0 = bstate(scope@, self.functions@);
        let n = args.len();
        let mut rest = args;
        let mut out: Vec<IR> = Vec::new();
        let mut i: usize = 0;
        proof {
            assert(ir_seq_view(out@) =~= Seq::<IRV>::empty());
        }
        while rest.len() > 0
            invariant
                scope.wf(),
                scopes_ok(scope@),
                same_shape(old(scope)@, scope@),
                av == ast_seq_view(args@),
                av.len() == n,
                i + rest@.len() == av.len(),
                forall|k: int| 0 <= k < rest@.len() ==> (#[trigger] rest@[k])@ == av[i + k],
                b_args(s0, av, 0, Seq::empty()) == b_args(bstate(scope@, self.functions@), av, i as int, ir_seq_view(out@)),
                b_args(s0, av, 0, Seq::empty()).1 is Some,
                s0 == bstate(old(scope)@, old(self).functions@),
            decreases rest@.len(),
        {
            let a = rest.remove(0);
            let ghost before = scope@;
            proof {
                assert(a@ == av[i as int]);
                assert(decreases_to!(av => av[i as int]));
            }
            let ghost ov = ir_seq_view(out@);
            let ir = self.build_ir(scope, a);
            proof {
                lemma_same_shape_trans(old(scope)@, before, scope@);
            }
            let ghost iv = ir@;
            out.push(ir);
            proof {
                assert(ir_seq_view(out@) =~= ov.push(iv));
            }
            i += 1;
        }
        out
    }

    /// Lowers code that runs at compile time, with its location.
    #[verifier::spinoff_prover]
    fn compile_implicit_comptime_ast(&mut self, scope: &mut ScopeStack, ast: AST) -> (r: IR)
        requires
            old(scope).wf(),
            scopes_ok(old(scope)@),
            b_comptime(bstate(old(scope)@, old(self).functions@), ast@).1 is Some,
        ensures
            final(scope).wf(),
            same_shape(old(scope)@, final(scope)@),
            bstate(final(scope)@, final(self).functions@) == b_comptime(bstate(old(scope)@, old(self).functions@), ast@).0,
            r@ == at(b_comptime(bstate(old(scope)@, old(self).functions@), ast@).1->Some_0, ast@.location),
        decreases ast@, 2int,
    {
        let location = ast.location.clone();
        let node = self.compile_comptime_ast(scope, ast);
        IR { node, location }
    }

    /// Lowers code that runs at compile time: the code inside a
    /// compile-time portal.
    #[verifier::spinoff_prover]
    fn compile_comptime_ast(&mut self, scope: &mut ScopeStack, ast: AST) -> (r: Node)
        requires
            old(scope).wf(),
            scopes_ok(old(scope)@),
            b_comptime(bstate(old(scope)@, old(self).functions@), ast@).1 is Some,
        ensures
            final(scope).wf(),
            same_shape(old(scope)@, final(scope)@),
            (bstate(final(scope)@, final(self).functions@), Some(node_view(&r)))
                == b_comptime(bstate(old(scope)@, old(self).functions@), ast@),
        decreases ast@, 1int,
    {
        let ghost o = scope@;
        scope.push_comptime_portal();
        let ir = self.build_ir(scope, ast);
        proof {
            lemma_push_pop_shape(o, ScopeV::Portal, scope@);
        }
        let _ = scope.pop_comptime_portal();
        Node::Comptime(Box::new(ir))
    }

    /// The code that reads `name`.
    fn lookup_ir(&mut self, scope: &mut ScopeStack, name: &str) -> (r: Result<Node, NameAccessError>)
        requires
            old(scope).wf(),
            scopes_ok(old(scope)@),
        ensures
            final(scope).wf(),
            same_shape(old(scope)@, final(scope)@),
            final(self).functions == old(self).functions,
            bstate(final(scope)@, final(self).functions@) == b_lookup(bstate(old(scope)@, old(self).functions@), name@).0,
            match r {
                Ok(n) => b_lookup(bstate(old(scope)@, old(self).functions@), name@).1 == Ok::<NodeV, NameAccessError>(node_view(&n)),
                Err(e) => b_lookup(bstate(old(scope)@, old(self).functions@), name@).1 == Err::<NodeV, NameAccessError>(e),
            },
    {
        proof {
            lemma_lookup_shape(scope@, name@);
        }
        Ok(match scope.lookup(name)? {
            NameRef::Global(global_ref) => Node::GlobalRef(global_ref),
            NameRef::Capture(capture_ref) => Node::CaptureRef(capture_ref),
            NameRef::Param(param_ref) => Node::ParamRef(param_ref),
            NameRef::Local(local_ref) => Node::LocalRef(local_ref),
        })
    }
}


impl Builder {
    /// Lowers an expression to code at its location. From every state the
    /// builder reaches inside a stack frame, building only adds to the
    /// scopes: names to blocks, captures and locals to frames.
    #[verifier::spinoff_prover]
    #[verifier::rlimit(50)]
    fn build_ir(&mut self, scope: &mut ScopeStack, ast: AST) -> (r: IR)
        requires
            old(scope).wf(),
            scopes_ok(old(scope)@),
            b_ir(bstate(old(scope)@, old(self).functions@), ast@).1 is Some,
        ensures
            final(scope).wf(),
            same_shape(old(scope)@, final(scope)@),
            (bstate(final(scope)@, final(self).functions@), Some(r@)) == b_ir(bstate(old(scope)@, old(self).functions@), ast@),
            scopes_refs_ok(old(scope)@) && templates_own(fn_views(old(self).functions@))
                && frame_index_from(old(scope)@, old(scope)@.len() - 1) != -1
                ==> grows(old(scope)@, final(scope)@),
        decreases ast@, 0int,
    {
        let ghost av = ast@;
        let ghost st = bstate(scope@, self.functions@);
        let location = ast.location.clone();
        let AST { value, location: _ } = ast;
        let node = match value {
            AstValue::Literal(Literal::Bool(value)) => Node::Constant(Value::Bool(value)),
            AstValue::Literal(Literal::Int(value)) => Node::Constant(Value::Int(value)),
            AstValue::Literal(Literal::Float(value)) => Node::Constant(Value::Float(value)),
            AstValue::Literal(Literal::String(_)) => vstd::pervasive::unreached(),
            AstValue::Block(asts) => {
                proof {
                    assert(decreases_to!(av => av.value));
                    assert(decreases_to!(av.value => av.value->Block_0));
                }
                let ghost o = scope@;
                scope.push_block();
                let irs = self.build_block(scope, asts);
                proof {
                    lemma_push_pop_shape(o, empty_block(), scope@);
                }
                let _ = scope.pop_block();
                if irs.len() == 0 {
                    Node::Nop
                } else {
                    Node::Block(irs)
                }
            },
            AstValue::Let { name, value, recursive, comptime } => {
                if recursive {
                    vstd::pervasive::unreached::<()>();
                }
                let ghost o = scope@;
                if comptime {
                    scope.push_comptime_portal();
                }
                let ghost q = scope@;
                scope.push_block();
                proof {
                    assert(decreases_to!(av => av.value));
                    assert(decreases_to!(av.value => av.value->Let_value));
                }
                let ir = self.build_ir(scope, *value);
                proof {
                    lemma_push_pop_shape(q, empty_block(), scope@);
                }
                let _ = scope.pop_block();
                if comptime {
                    proof {
                        lemma_push_pop_shape(o, ScopeV::Portal, scope@);
                    }
                    let _ = scope.pop_comptime_portal();
                }
                let ghost d = scope@;
                proof {
                    lemma_define_shape(scope@, comptime, name@);
                }
                let local_ref = scope.define_local(name, comptime);
                proof {
                    lemma_same_shape_trans(o, d, scope@);
                }
                Node::LocalSet(local_ref, Box::new(ir))
            },
            AstValue::NameRef(name) => match self.lookup_ir(scope, name.as_str()) {
                Ok(node) => node,
                Err(_) => vstd::pervasive::unreached(),
            },
            AstValue::Function(func) => {
                proof {
                    assert(decreases_to!(av => av.value));
                    assert(decreases_to!(av.value => av.value->Function_0));
                }
                let func_ir = self.build_function(scope, func);
                let func_ref = FunctionTemplateRef { i: self.functions.len() };
                let mut to_capture: Vec<CaptureFrom> = Vec::new();
                let mut k: usize = 0;
                while k < func_ir.captures.len()
                    invariant
                        k <= func_ir.captures@.len(),
                        to_capture@.len() == k,
                        forall|j: int| 0 <= j < k ==> #[trigger] to_capture@[j] == func_ir.captures@[j].from,
                    decreases func_ir.captures@.len() - k,
                {
                    to_capture.push(func_ir.captures[k].from);
                    k += 1;
                }
                proof {
                    assert(to_capture@ =~= func_ir@.captures.map_values(|c: Capture| c.from));
                }
                let ghost fs = self.functions@;
                let ghost fiv = func_ir@;
                self.functions.push(func_ir);
                proof {
                    assert(fn_views(self.functions@) =~= fn_views(fs).push(fiv));
                }
                Node::CreateClosure(func_ref, to_capture)
            },
            AstValue::Call { target, name, args } => {
                let ghost o = scope@;
                let (target_ir, name) = match target {
                    None => match self.lookup_ir(scope, name.as_str()) {
                        Ok(t) => (IR { node: t, location: location.clone() }, "call".to_string()),
                        Err(NameAccessError::NameNotFound) => match {
                            let ghost m = scope@;
                            let r = self.lookup_ir(scope, "self");
                            proof {
                                lemma_same_shape_trans(o, m, scope@);
                            }
                            r
                        } {
                            Ok(ts) => (IR { node: ts, location: location.clone() }, name),
                            Err(_) => vstd::pervasive::unreached(),
                        },
                        Err(_) => vstd::pervasive::unreached(),
                    },
                    Some(target) => {
                        proof {
                            assert(decreases_to!(av => av.value));
                            assert(decreases_to!(av.value => av.value->Call_target));
                            assert(decreases_to!(av.value->Call_target => av.value->Call_target->Some_0));
                        }
                        (self.build_ir(scope, *target), name)
                    },
                };
                proof {
                    assert(decreases_to!(av => av.value));
                    assert(decreases_to!(av.value => av.value->Call_args));
                }
                let ghost m2 = scope@;
                let args_ir = self.build_args(scope, args);
                proof {
                    lemma_same_shape_trans(o, m2, scope@);
                }
                Node::Call(name, Box::new(target_ir), args_ir)
            },
            AstValue::If { condition, on_true, on_false } => {
                proof {
                    assert(decreases_to!(av => av.value));
                    assert(decreases_to!(av.value => av.value->If_condition));
                    assert(decreases_to!(av.value => av.value->If_on_true));
                    assert(decreases_to!(av.value => av.value->If_on_false));
                }
                let ghost o = scope@;
                let condition_ir = self.build_ir(scope, *condition);
                let ghost c1 = scope@;
                scope.push_block();
                let on_true_ir = self.build_ir(scope, *on_true);
                proof {
                    lemma_push_pop_shape(c1, empty_block(), scope@);
                }
                let _ = scope.pop_block();
                proof {
                    lemma_same_shape_trans(o, c1, scope@);
                }
                let ghost c2 = scope@;
                scope.push_block();
                let on_false_ir = match on_false {
                    None => None,
                    Some(on_false) => {
                        proof {
                            assert(decreases_to!(av.value->If_on_false => av.value->If_on_false->Some_0));
                        }
                        Some(Box::new(self.build_ir(scope, *on_false)))
                    },
                };
                proof {
                    lemma_push_pop_shape(c2, empty_block(), scope@);
                }
                let _ = scope.pop_block();
                proof {
                    lemma_same_shape_trans(o, c2, scope@);
                }
                Node::If(Box::new(condition_ir), Box::new(on_true_ir), on_false_ir)
            },
            AstValue::FnType { .. } => vstd::pervasive::unreached(),
            AstValue::TypeAssert { .. } => vstd::pervasive::unreached(),
            AstValue::CompileTimeExpr(e) => {
                proof {
                    assert(decreases_to!(av => av.value));
                    assert(decreases_to!(av.value => av.value->CompileTimeExpr_0));
                }
                self.compile_comptime_ast(scope, *e)
            },
        };
        proof {
            if scopes_refs_ok(st.scopes) && templates_own(st.functions) && frame_index_from(st.scopes, st.scopes.len() - 1) != -1 {
                lemma_lowering_only_adds(st, av);
            }
        }
        IR { node, location }
    }
}

} // verus!
