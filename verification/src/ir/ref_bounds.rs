//! Which slots lowered code reads and writes: every parameter, capture and
//! local that a function's code names is one of that function's own.
use vstd::prelude::*;
use crate::ir::ir::{CaptureFrom, FunctionV, IRV, LocalRef, NodeV};
use crate::ir::lowering::{
    BState, b_define_local, push_scope, pop_scope, b_ir, b_block, b_args, b_comptime, b_params, b_function, b_module,
    b_lookup, at, name_node, empty_block, frame_captures, frame_locals, frame_params,
};
use crate::ast::location::LocationV;
use crate::ast::ast::{ASTV, ValueV as AstValueV, FunctionV as AstFunctionV, ParamV as AstParamV, PatternValueV};
use crate::ir::ir::{Capture, ParamV};
use crate::ir::lexical_scope::root_scope::RootScopeV;
use crate::ir::lexical_scope::names::{lemma_first_index_of, lemma_last_index_of};
use crate::ir::lexical_scope::block_scope::block_find;
use crate::ir::lexical_scope::scope_stack::{
    NameAccessError, NameRef, ScopeV, capture_source, find_from, frame_index_from, resolve, scope_find, spec_lookup, name_ref_comptime,
    spec_define_stack_frame_local,
    same_shape, scope_kind, lemma_frame_index_bounds, lemma_frame_index_same_shape, lemma_find_from_above,
};
use crate::ir::lexical_scope::stack_frame::StackFrameV;

verus! {

/// Whether a captured value's source is a slot of a frame with `np`
/// parameters, `nc` captures and `nl` locals.
pub open spec fn from_within(from: CaptureFrom, np: nat, nc: nat, nl: nat) -> bool {
    match from {
        CaptureFrom::Capture(c) => c.i < nc,
        CaptureFrom::Param(p) => p.i < np,
        CaptureFrom::Local(l) => l.i < nl,
    }
}

/// Whether every parameter, capture and local that `ir` names is below
/// `np`, `nc` and `nl` respectively.
pub open spec fn refs_within(ir: IRV, np: nat, nc: nat, nl: nat) -> bool
    decreases ir,
{
    match ir.node {
        NodeV::ParamRef(p) => p.i < np,
        NodeV::CaptureRef(c) => c.i < nc,
        NodeV::LocalRef(l) => l.i < nl,
        NodeV::LocalSet(l, v) => l.i < nl && refs_within(*v, np, nc, nl),
        NodeV::Block(irs) => forall|k: int| 0 <= k < irs.len() ==> refs_within(#[trigger] irs[k], np, nc, nl),
        NodeV::Comptime(v) => refs_within(*v, np, nc, nl),
        NodeV::Call(_, t, args) => refs_within(*t, np, nc, nl)
            && forall|k: int| 0 <= k < args.len() ==> refs_within(#[trigger] args[k], np, nc, nl),
        NodeV::CreateClosure(_, froms) => forall|k: int| 0 <= k < froms.len() ==> from_within(#[trigger] froms[k], np, nc, nl),
        NodeV::If(c, t, e) => refs_within(*c, np, nc, nl) && refs_within(*t, np, nc, nl) && match e {
            Some(x) => refs_within(*x, np, nc, nl),
            None => true,
        },
        _ => true,
    }
}

/// `refs_within` for optional code.
pub open spec fn opt_refs_within(t: Option<IRV>, np: nat, nc: nat, nl: nat) -> bool {
    match t {
        Some(t) => refs_within(t, np, nc, nl),
        None => true,
    }
}

/// Whether the code of a function template, in its parameter types, its
/// return type and its body, names only its own parameters, captures and
/// locals.
pub open spec fn function_refs_own(f: FunctionV) -> bool {
    let np = f.params.len();
    let nc = f.captures.len();
    let nl = f.locals.len();
    &&& refs_within(f.body, np, nc, nl)
    &&& forall|k: int| 0 <= k < f.params.len() ==> opt_refs_within((#[trigger] f.params[k]).typ, np, nc, nl)
    &&& opt_refs_within(f.return_type, np, nc, nl)
}

// ---------------------------------------------------------------------------
// The same, measured against a stack frame of the builder.

/// `from_within`, measured against the slots of a builder's frame.
pub open spec fn from_in_frame(from: CaptureFrom, fr: StackFrameV) -> bool {
    from_within(from, fr.params.len(), fr.captures.len(), fr.locals.len())
}

/// Whether what a name resolves to is a slot of the frame, when it is not
/// a global.
spec fn name_in_frame(r: NameRef, fr: StackFrameV) -> bool {
    match capture_source(r) {
        Some(from) => from_in_frame(from, fr),
        None => true,
    }
}

/// `refs_within`, measured against the slots of a builder's frame.
spec fn refs_in_frame(ir: IRV, fr: StackFrameV) -> bool {
    refs_within(ir, fr.params.len(), fr.captures.len(), fr.locals.len())
}

/// A frame that has at most grown: the same parameters, and no fewer
/// captures or locals.
pub open spec fn frame_le(a: StackFrameV, b: StackFrameV) -> bool {
    &&& a.params.len() == b.params.len()
    &&& a.captures.len() <= b.captures.len()
    &&& a.locals.len() <= b.locals.len()
}

/// `b` starts with `a`.
pub open spec fn seq_extends<T>(a: Seq<T>, b: Seq<T>) -> bool {
    &&& a.len() <= b.len()
    &&& forall|k: int| 0 <= k < a.len() ==> #[trigger] b[k] == a[k]
}

/// `y` is the scope `x` with at most names added to a block, or captures
/// and locals added to a frame.
pub open spec fn scope_extends(x: ScopeV, y: ScopeV) -> bool {
    match (x, y) {
        (ScopeV::Frame(f), ScopeV::Frame(g)) => {
            &&& f.params == g.params
            &&& seq_extends(f.captures, g.captures)
            &&& seq_extends(f.locals, g.locals)
        },
        (ScopeV::Block(n), ScopeV::Block(m)) => seq_extends(n, m),
        _ => x == y,
    }
}

/// Two stacks of the same kinds of scopes, where the later one only adds
/// names to blocks and captures and locals to frames.
pub open spec fn grows(a: Seq<ScopeV>, b: Seq<ScopeV>) -> bool {
    &&& same_shape(a, b)
    &&& forall|i: int| 0 <= i < a.len() && #[trigger] a[i] is Frame ==> frame_le(a[i]->Frame_0, b[i]->Frame_0)
    &&& forall|i: int| 0 <= i < a.len() ==> #[trigger] scope_extends(a[i], b[i])
}

proof fn lemma_scope_extends_refl(x: ScopeV)
    ensures
        scope_extends(x, x),
{
    match x {
        ScopeV::Frame(f) => {
            assert(seq_extends(f.captures, f.captures));
            assert(seq_extends(f.locals, f.locals));
        },
        ScopeV::Block(n) => assert(seq_extends(n, n)),
        _ => {},
    }
}

proof fn lemma_scope_extends_trans(x: ScopeV, y: ScopeV, z: ScopeV)
    requires
        scope_extends(x, y),
        scope_extends(y, z),
    ensures
        scope_extends(x, z),
{
    match (x, y, z) {
        (ScopeV::Frame(f), ScopeV::Frame(g), ScopeV::Frame(h)) => {
            assert forall|k: int| 0 <= k < f.captures.len() implies #[trigger] h.captures[k] == f.captures[k] by {
                assert(g.captures[k] == f.captures[k]);
            }
            assert forall|k: int| 0 <= k < f.locals.len() implies #[trigger] h.locals[k] == f.locals[k] by {
                assert(g.locals[k] == f.locals[k]);
            }
        },
        (ScopeV::Block(n), ScopeV::Block(m), ScopeV::Block(o)) => {
            assert forall|k: int| 0 <= k < n.len() implies #[trigger] o[k] == n[k] by {
                assert(m[k] == n[k]);
            }
        },
        _ => {},
    }
}

/// The slots that the bindings of a block and the captures of a frame name
/// belong to the enclosing stack frame of the block, and to the frame
/// around the frame.
pub open spec fn scope_refs_ok(stack: Seq<ScopeV>, b: int) -> bool {
    match stack[b] {
        ScopeV::Block(names) => names.len() == 0 || {
            &&& frame_index_from(stack, b) != -1
            &&& forall|k: int| 0 <= k < names.len() ==>
                (#[trigger] names[k]).1.i < stack[frame_index_from(stack, b)]->Frame_0.locals.len()
        },
        ScopeV::Frame(fr) => fr.captures.len() == 0 || {
            &&& frame_index_from(stack, b - 1) != -1
            &&& forall|k: int| 0 <= k < fr.captures.len() ==>
                from_in_frame((#[trigger] fr.captures[k]).from, stack[frame_index_from(stack, b - 1)]->Frame_0)
        },
        _ => true,
    }
}

/// `scope_refs_ok` for every scope of the stack.
pub open spec fn scopes_refs_ok(stack: Seq<ScopeV>) -> bool {
    forall|b: int| 0 <= b < stack.len() ==> #[trigger] scope_refs_ok(stack, b)
}

proof fn lemma_from_mono(from: CaptureFrom, a: StackFrameV, b: StackFrameV)
    requires
        from_in_frame(from, a),
        frame_le(a, b),
    ensures
        from_in_frame(from, b),
{
}

proof fn lemma_refs_mono(ir: IRV, np: nat, nc: nat, nl: nat, np2: nat, nc2: nat, nl2: nat)
    requires
        refs_within(ir, np, nc, nl),
        np <= np2,
        nc <= nc2,
        nl <= nl2,
    ensures
        refs_within(ir, np2, nc2, nl2),
    decreases ir,
{
    match ir.node {
        NodeV::LocalSet(_, v) => lemma_refs_mono(*v, np, nc, nl, np2, nc2, nl2),
        NodeV::Block(irs) => {
            assert forall|k: int| 0 <= k < irs.len() implies refs_within(#[trigger] irs[k], np2, nc2, nl2) by {
                lemma_refs_mono(irs[k], np, nc, nl, np2, nc2, nl2);
            }
        },
        NodeV::Comptime(v) => lemma_refs_mono(*v, np, nc, nl, np2, nc2, nl2),
        NodeV::Call(_, t, args) => {
            lemma_refs_mono(*t, np, nc, nl, np2, nc2, nl2);
            assert forall|k: int| 0 <= k < args.len() implies refs_within(#[trigger] args[k], np2, nc2, nl2) by {
                lemma_refs_mono(args[k], np, nc, nl, np2, nc2, nl2);
            }
        },
        NodeV::CreateClosure(_, froms) => {
            assert forall|k: int| 0 <= k < froms.len() implies from_within(#[trigger] froms[k], np2, nc2, nl2) by {
                assert(from_within(froms[k], np, nc, nl));
            }
        },
        NodeV::If(c, t, e) => {
            lemma_refs_mono(*c, np, nc, nl, np2, nc2, nl2);
            lemma_refs_mono(*t, np, nc, nl, np2, nc2, nl2);
            match e {
                Some(x) => lemma_refs_mono(*x, np, nc, nl, np2, nc2, nl2),
                None => {},
            }
        },
        _ => {},
    }
}

proof fn lemma_refs_frame_mono(ir: IRV, a: StackFrameV, b: StackFrameV)
    requires
        refs_in_frame(ir, a),
        frame_le(a, b),
    ensures
        refs_in_frame(ir, b),
{
    lemma_refs_mono(ir, a.params.len(), a.captures.len(), a.locals.len(), b.params.len(), b.captures.len(), b.locals.len());
}

proof fn lemma_grows_refl(a: Seq<ScopeV>)
    ensures
        grows(a, a),
{
    assert forall|i: int| 0 <= i < a.len() implies #[trigger] scope_extends(a[i], a[i]) by {
        match a[i] {
            ScopeV::Frame(f) => {
                assert(seq_extends(f.captures, f.captures));
                assert(seq_extends(f.locals, f.locals));
            },
            ScopeV::Block(n) => assert(seq_extends(n, n)),
            _ => {},
        }
    }
}

proof fn lemma_grows_trans(a: Seq<ScopeV>, b: Seq<ScopeV>, c: Seq<ScopeV>)
    requires
        grows(a, b),
        grows(b, c),
    ensures
        grows(a, c),
{
    assert forall|i: int| 0 <= i < a.len() implies scope_kind(#[trigger] a[i]) == scope_kind(c[i]) by {
        assert(scope_kind(a[i]) == scope_kind(b[i]));
        assert(scope_kind(b[i]) == scope_kind(c[i]));
    }
    assert forall|i: int| 0 <= i < a.len() && #[trigger] a[i] is Frame implies frame_le(a[i]->Frame_0, c[i]->Frame_0) by {
        assert(scope_kind(a[i]) == scope_kind(b[i]));
        assert(b[i] is Frame);
    }
    assert forall|i: int| 0 <= i < a.len() implies #[trigger] scope_extends(a[i], c[i]) by {
        assert(scope_extends(a[i], b[i]));
        assert(scope_extends(b[i], c[i]));
        lemma_scope_extends_trans(a[i], b[i], c[i]);
    }
}

/// Entering a scope, growing, and leaving it again has grown the stack
/// from before.
proof fn lemma_grows_push_pop(a: Seq<ScopeV>, x: ScopeV, c: Seq<ScopeV>)
    requires
        grows(a.push(x), c),
    ensures
        grows(a, c.drop_last()),
        c.len() == a.len() + 1,
        scope_kind(c.last()) == scope_kind(x),
{
    let p = a.push(x);
    assert(scope_kind(p[a.len() as int]) == scope_kind(c[a.len() as int]));
    assert forall|i: int| 0 <= i < a.len() implies scope_kind(#[trigger] a[i]) == scope_kind(c.drop_last()[i]) by {
        assert(p[i] == a[i]);
        assert(scope_kind(p[i]) == scope_kind(c[i]));
    }
    assert forall|i: int| 0 <= i < a.len() && #[trigger] a[i] is Frame implies frame_le(a[i]->Frame_0, c.drop_last()[i]->Frame_0) by {
        assert(p[i] == a[i]);
    }
    assert forall|i: int| 0 <= i < a.len() implies #[trigger] scope_extends(a[i], c.drop_last()[i]) by {
        assert(p[i] == a[i]);
        assert(scope_extends(p[i], c[i]));
    }
}

/// Leaving the innermost scope keeps the slots of the rest in order.
proof fn lemma_refs_ok_pop(stack: Seq<ScopeV>)
    requires
        scopes_refs_ok(stack),
        stack.len() > 0,
    ensures
        scopes_refs_ok(stack.drop_last()),
{
    let s = stack.drop_last();
    assert forall|b: int| 0 <= b < s.len() implies #[trigger] scope_refs_ok(s, b) by {
        lemma_refs_ok_prefix(stack, s, b);
    }
}

/// A scope's slots stay in order in any stack that agrees with this one up
/// to that scope.
proof fn lemma_refs_ok_prefix(stack: Seq<ScopeV>, s: Seq<ScopeV>, b: int)
    requires
        scopes_refs_ok(stack),
        0 <= b < s.len(),
        b < stack.len(),
        forall|k: int| 0 <= k <= b ==> s[k] == stack[k],
    ensures
        scope_refs_ok(s, b),
{
    assert(scope_refs_ok(stack, b));
    lemma_frame_index_prefix(stack, s, b);
    lemma_frame_index_prefix(stack, s, b - 1);
    lemma_frame_index_bounds(stack, b);
    lemma_frame_index_bounds(stack, b - 1);
    match stack[b] {
        ScopeV::Block(names) => {
            let f = frame_index_from(stack, b);
            if names.len() > 0 {
                assert(f != -1);
                assert(s[f] == stack[f]);
            }
        },
        ScopeV::Frame(fr) => {
            let f = frame_index_from(stack, b - 1);
            if fr.captures.len() > 0 {
                assert(f != -1);
                assert(s[f] == stack[f]);
            }
        },
        _ => {},
    }
}

/// Entering a block, a portal, or a frame that captures nothing keeps the
/// slots in order.
proof fn lemma_refs_ok_push(stack: Seq<ScopeV>, x: ScopeV)
    requires
        scopes_refs_ok(stack),
        x is Block ==> x->Block_0.len() == 0,
        x is Frame ==> x->Frame_0.captures.len() == 0,
    ensures
        scopes_refs_ok(stack.push(x)),
{
    let s = stack.push(x);
    assert forall|b: int| 0 <= b < s.len() implies #[trigger] scope_refs_ok(s, b) by {
        if b < stack.len() {
            lemma_refs_ok_prefix(stack, s, b);
        }
    }
}

/// Where the innermost frame at or below `i` is depends only on the scopes
/// up to `i`.
proof fn lemma_frame_index_prefix(a: Seq<ScopeV>, b: Seq<ScopeV>, i: int)
    requires
        i < a.len(),
        i < b.len(),
        forall|k: int| 0 <= k <= i ==> a[k] == b[k],
    ensures
        frame_index_from(a, i) == frame_index_from(b, i),
    decreases i + 1,
{
    if i >= 0 {
        lemma_frame_index_prefix(a, b, i - 1);
    }
}


/// Where the innermost frame of a stack with one more scope is.
proof fn lemma_frame_index_push(stack: Seq<ScopeV>, x: ScopeV)
    ensures
        frame_index_from(stack.push(x), stack.len() as int) == if x is Frame {
            stack.len() as int
        } else {
            frame_index_from(stack, stack.len() - 1)
        },
{
    let s = stack.push(x);
    assert(s[stack.len() as int] == x);
    if !(x is Frame) {
        lemma_frame_index_prefix(s, stack, stack.len() - 1);
    }
}

/// Growing one frame, with any new captures taken from the frame around
/// it, keeps the slots in order.
proof fn lemma_refs_ok_update_frame(stack: Seq<ScopeV>, j: int, fr2: StackFrameV)
    requires
        scopes_refs_ok(stack),
        0 <= j < stack.len(),
        stack[j] is Frame,
        frame_le(stack[j]->Frame_0, fr2),
        forall|k: int| 0 <= k < stack[j]->Frame_0.captures.len() ==> fr2.captures[k] == stack[j]->Frame_0.captures[k],
        fr2.params == stack[j]->Frame_0.params,
        seq_extends(stack[j]->Frame_0.locals, fr2.locals),
        stack[j]->Frame_0.captures.len() < fr2.captures.len() ==> frame_index_from(stack, j - 1) != -1,
        forall|k: int| stack[j]->Frame_0.captures.len() <= k < fr2.captures.len() ==>
            from_in_frame((#[trigger] fr2.captures[k]).from, stack[frame_index_from(stack, j - 1)]->Frame_0),
    ensures
        scopes_refs_ok(stack.update(j, ScopeV::Frame(fr2))),
        grows(stack, stack.update(j, ScopeV::Frame(fr2))),
{
    let s = stack.update(j, ScopeV::Frame(fr2));
    let fr = stack[j]->Frame_0;
    assert(same_shape(stack, s)) by {
        assert forall|i: int| 0 <= i < stack.len() implies scope_kind(#[trigger] stack[i]) == scope_kind(s[i]) by {}
    }
    assert forall|i: int| 0 <= i < stack.len() implies #[trigger] scope_extends(stack[i], s[i]) by {
        if i == j {
            assert(s[j] == ScopeV::Frame(fr2));
            assert(seq_extends(fr.captures, fr2.captures));
        } else {
            assert(s[i] == stack[i]);
            lemma_scope_extends_refl(stack[i]);
        }
    }
    assert forall|b: int| 0 <= b < s.len() implies #[trigger] scope_refs_ok(s, b) by {
        assert(scope_refs_ok(stack, b));
        lemma_frame_index_same_shape(stack, s, b);
        lemma_frame_index_same_shape(stack, s, b - 1);
        lemma_frame_index_bounds(stack, b);
        lemma_frame_index_bounds(stack, b - 1);
        if b == j {
            let p = frame_index_from(stack, j - 1);
            if fr2.captures.len() > 0 {
                assert(p != -1);
                assert(p != j);
                assert(s[p] == stack[p]);
                assert(s[j] == ScopeV::Frame(fr2));
                assert forall|k: int| 0 <= k < fr2.captures.len() implies
                    from_in_frame((#[trigger] fr2.captures[k]).from, s[frame_index_from(s, b - 1)]->Frame_0) by {
                    if k < fr.captures.len() {
                        assert(fr2.captures[k] == fr.captures[k]);
                    }
                }
            }
        } else {
            match stack[b] {
                ScopeV::Block(names) => {
                    let f = frame_index_from(stack, b);
                    assert(s[b] == stack[b]);
                    if names.len() > 0 {
                        assert(f != -1);
                        if f == j {
                        } else {
                            assert(s[f] == stack[f]);
                        }
                    }
                },
                ScopeV::Frame(fb) => {
                    let f = frame_index_from(stack, b - 1);
                    assert(s[b] == stack[b]);
                    if fb.captures.len() > 0 {
                        assert(f != -1);
                        if f == j {
                            assert forall|k: int| 0 <= k < fb.captures.len() implies
                                from_in_frame((#[trigger] fb.captures[k]).from, s[f]->Frame_0) by {
                                lemma_from_mono(fb.captures[k].from, fr, fr2);
                            }
                        } else {
                            assert(s[f] == stack[f]);
                        }
                    }
                },
                _ => {
                    assert(s[b] == stack[b]);
                },
            }
        }
    }
}

/// Resolving a name keeps the slots in order, only grows frames, and
/// gives a name of the innermost frame.
proof fn lemma_resolve_refs(stack: Seq<ScopeV>, name: Seq<char>, j: int, result: NameRef, c: bool)
    requires
        scopes_refs_ok(stack),
        1 <= j <= stack.len(),
        capture_source(result) is Some ==> {
            &&& frame_index_from(stack, j - 1) != -1
            &&& name_in_frame(result, stack[frame_index_from(stack, j - 1)]->Frame_0)
        },
    ensures
        scopes_refs_ok(resolve(stack, name, j, result, c).0),
        grows(stack, resolve(stack, name, j, result, c).0),
        resolve(stack, name, j, result, c).1 matches Ok(r) ==> (capture_source(r) is Some ==> {
            &&& frame_index_from(stack, stack.len() - 1) != -1
            &&& name_in_frame(r, resolve(stack, name, j, result, c).0[frame_index_from(stack, stack.len() - 1)]->Frame_0)
        }),
    decreases stack.len() - j,
{
    lemma_frame_index_bounds(stack, j - 1);
    if j >= stack.len() {
        lemma_grows_refl(stack);
    } else {
        lemma_frame_index_bounds(stack, j);
        match stack[j] {
            ScopeV::Frame(fr) => match capture_source(result) {
                Some(from) => {
                    let fr2 = fr.with_capture(from, name);
                    let s2 = stack.update(j, ScopeV::Frame(fr2));
                    let r2 = NameRef::Capture(crate::ir::ir::CaptureRef { i: fr.captures.len() as usize, comptime: from.spec_comptime() });
                    lemma_refs_ok_update_frame(stack, j, fr2);
                    lemma_frame_index_prefix(stack, s2, j - 1);
                    assert(frame_index_from(s2, j) == j);
                    lemma_resolve_refs(s2, name, j + 1, r2, c);
                    let out = resolve(s2, name, j + 1, r2, c);
                    lemma_grows_trans(stack, s2, out.0);
                    lemma_frame_index_same_shape(stack, s2, stack.len() - 1);
                },
                None => {
                    lemma_resolve_refs(stack, name, j + 1, result, c);
                },
            },
            ScopeV::Portal => if capture_source(result) is Some && !c {
                lemma_grows_refl(stack);
            } else {
                lemma_resolve_refs(stack, name, j + 1, result, c);
            },
            _ => {
                lemma_resolve_refs(stack, name, j + 1, result, c);
            },
        }
    }
}

/// Looking a name up keeps the slots in order, only grows frames, and gives
/// a name of the innermost frame.
proof fn lemma_lookup_refs(stack: Seq<ScopeV>, name: Seq<char>)
    requires
        scopes_refs_ok(stack),
        stack.len() > 0,
    ensures
        scopes_refs_ok(spec_lookup(stack, name).0),
        grows(stack, spec_lookup(stack, name).0),
        spec_lookup(stack, name).1 matches Ok(r) ==> (capture_source(r) is Some ==> {
            &&& frame_index_from(stack, stack.len() - 1) != -1
            &&& name_in_frame(r, spec_lookup(stack, name).0[frame_index_from(stack, stack.len() - 1)]->Frame_0)
        }),
{
    let top = stack.len() - 1;
    match find_from(stack, name, top) {
        None => {
            lemma_grows_refl(stack);
        },
        Some((i, r)) => {
            lemma_find_from_above(stack, name, top, i, r);
            lemma_frame_index_bounds(stack, i);
            assert(scope_refs_ok(stack, i));
            match stack[i] {
                ScopeV::Block(names) => {
                    let keys = names.map_values(|p: (Seq<char>, crate::ir::ir::LocalRef)| p.0);
                    lemma_last_index_of(keys, name);
                    let jj = crate::ir::lexical_scope::names::last_index_of(keys, name);
                    assert(block_find(names, name) == Some(names[jj].1));
                    let entry = names[jj];
                },
                ScopeV::Frame(fr) => {
                    lemma_first_index_of(fr.param_names(), name);
                    lemma_first_index_of(fr.capture_names(), name);
                },
                _ => {},
            }
            lemma_resolve_refs(stack, name, i + 1, r, name_ref_comptime(r));
        },
    }
}


/// Adding bindings to a block, each to a local of its frame, keeps the
/// slots in order.
proof fn lemma_refs_ok_update_block(stack: Seq<ScopeV>, t: int, names2: Seq<(Seq<char>, LocalRef)>)
    requires
        scopes_refs_ok(stack),
        0 <= t < stack.len(),
        stack[t] is Block,
        stack[t]->Block_0.len() <= names2.len(),
        forall|k: int| 0 <= k < stack[t]->Block_0.len() ==> names2[k] == stack[t]->Block_0[k],
        stack[t]->Block_0.len() < names2.len() ==> frame_index_from(stack, t) != -1,
        forall|k: int| stack[t]->Block_0.len() <= k < names2.len() ==>
            (#[trigger] names2[k]).1.i < stack[frame_index_from(stack, t)]->Frame_0.locals.len(),
    ensures
        scopes_refs_ok(stack.update(t, ScopeV::Block(names2))),
        grows(stack, stack.update(t, ScopeV::Block(names2))),
{
    let s = stack.update(t, ScopeV::Block(names2));
    let names = stack[t]->Block_0;
    assert(same_shape(stack, s)) by {
        assert forall|i: int| 0 <= i < stack.len() implies scope_kind(#[trigger] stack[i]) == scope_kind(s[i]) by {}
    }
    assert forall|i: int| 0 <= i < stack.len() implies #[trigger] scope_extends(stack[i], s[i]) by {
        if i == t {
            assert(s[t] == ScopeV::Block(names2));
            assert forall|k: int| 0 <= k < names.len() implies #[trigger] names2[k] == names[k] by {}
        } else {
            assert(s[i] == stack[i]);
            lemma_scope_extends_refl(stack[i]);
        }
    }
    assert forall|b: int| 0 <= b < s.len() implies #[trigger] scope_refs_ok(s, b) by {
        assert(scope_refs_ok(stack, b));
        lemma_frame_index_same_shape(stack, s, b);
        lemma_frame_index_same_shape(stack, s, b - 1);
        lemma_frame_index_bounds(stack, b);
        lemma_frame_index_bounds(stack, b - 1);
        if b == t {
            let f = frame_index_from(stack, t);
            assert(s[t] == ScopeV::Block(names2));
            if names2.len() > 0 {
                assert(f != -1);
                assert(f != t);
                assert(s[f] == stack[f]);
                assert forall|k: int| 0 <= k < names2.len() implies
                    (#[trigger] names2[k]).1.i < s[frame_index_from(s, b)]->Frame_0.locals.len() by {
                    if k < names.len() {
                        assert(names2[k] == names[k]);
                    }
                }
            }
        } else {
            assert(s[b] == stack[b]);
            match stack[b] {
                ScopeV::Block(nb) => {
                    let f = frame_index_from(stack, b);
                    if nb.len() > 0 {
                        assert(f != -1);
                        assert(f != t);
                        assert(s[f] == stack[f]);
                    }
                    assert(scope_refs_ok(s, b));
                },
                ScopeV::Frame(fb) => {
                    let f = frame_index_from(stack, b - 1);
                    if fb.captures.len() > 0 {
                        assert(f != -1);
                        assert(f != t);
                        assert(s[f] == stack[f]);
                    }
                    assert(scope_refs_ok(s, b));
                },
                _ => {
                    assert(scope_refs_ok(s, b));
                },
            }
        }
    }
}

/// Defining a local keeps the slots in order, only grows frames, and gives
/// a local of the innermost frame.
proof fn lemma_define_local_refs(st: BState, name: Seq<char>, comptime: bool)
    requires
        scopes_refs_ok(st.scopes),
    ensures
        b_define_local(st, name, comptime) matches Some((s, r)) ==> {
            &&& scopes_refs_ok(s.scopes)
            &&& grows(st.scopes, s.scopes)
            &&& s.functions == st.functions
            &&& frame_index_from(st.scopes, st.scopes.len() - 1) != -1
            &&& r.i < s.scopes[frame_index_from(st.scopes, st.scopes.len() - 1)]->Frame_0.locals.len()
        },
{
    let stack = st.scopes;
    if stack.len() > 0 && stack.last() is Block && frame_index_from(stack, stack.len() - 1) != -1 {
        let top = stack.len() - 1;
        let f = frame_index_from(stack, top);
        lemma_frame_index_bounds(stack, top);
        let fr = stack[f]->Frame_0;
        let (s1, r) = spec_define_stack_frame_local(stack, comptime);
        let fr2 = s1[f]->Frame_0;
        assert(s1 == stack.update(f, ScopeV::Frame(fr2)));
        assert(fr2.captures =~= fr.captures);
        assert(seq_extends(fr.locals, fr2.locals));
        lemma_refs_ok_update_frame(stack, f, fr2);
        assert(f != top);
        assert(s1[top] == stack[top]);
        let names = s1[top]->Block_0;
        let names2 = names.push((name, r));
        lemma_frame_index_same_shape(stack, s1, top);
        assert(s1[f] == ScopeV::Frame(fr2));
        lemma_refs_ok_update_block(s1, top, names2);
        let s2 = s1.update(top, ScopeV::Block(names2));
        lemma_grows_trans(stack, s1, s2);
        assert(s2[f] == s1[f]);
    }
}

/// The templates built so far name only their own slots.
pub open spec fn templates_own(fs: Seq<FunctionV>) -> bool {
    forall|k: int| 0 <= k < fs.len() ==> function_refs_own(#[trigger] fs[k])
}

/// What lowering from `st` to `s` keeps, measured at the frame `f`.
spec fn lowered_ok(st: BState, s: BState, f: int) -> bool {
    &&& scopes_refs_ok(s.scopes)
    &&& grows(st.scopes, s.scopes)
    &&& templates_own(s.functions)
    &&& 0 <= f < s.scopes.len()
    &&& s.scopes[f] is Frame
}

/// The state a lowering step may start from.
spec fn start_ok(st: BState) -> bool {
    &&& scopes_refs_ok(st.scopes)
    &&& st.scopes.len() > 0
    &&& frame_index_from(st.scopes, st.scopes.len() - 1) != -1
    &&& templates_own(st.functions)
}

/// The innermost stack frame of the builder's scopes.
spec fn top_frame(st: BState) -> int {
    frame_index_from(st.scopes, st.scopes.len() - 1)
}

proof fn lemma_start_push(st: BState, x: ScopeV)
    requires
        start_ok(st),
        x is Block ==> x->Block_0.len() == 0,
        !(x is Frame),
    ensures
        start_ok(push_scope(st, x)),
        top_frame(push_scope(st, x)) == top_frame(st),
{
    lemma_refs_ok_push(st.scopes, x);
    lemma_frame_index_push(st.scopes, x);
}

/// Leaving a scope entered before a lowering step that went well.
proof fn lemma_lowered_pop(st: BState, x: ScopeV, s: BState, f: int)
    requires
        start_ok(st),
        f == top_frame(st),
        lowered_ok(push_scope(st, x), s, f),
    ensures
        lowered_ok(st, pop_scope(s), f),
        pop_scope(s).scopes[f] == s.scopes[f],
{
    lemma_grows_push_pop(st.scopes, x, s.scopes);
    lemma_refs_ok_pop(s.scopes);
    lemma_frame_index_bounds(st.scopes, st.scopes.len() - 1);
}

/// A frame index keeps pointing at a frame that has at most grown.
proof fn lemma_grows_frame(a: Seq<ScopeV>, b: Seq<ScopeV>, f: int)
    requires
        grows(a, b),
        0 <= f < a.len(),
        a[f] is Frame,
    ensures
        b[f] is Frame,
        frame_le(a[f]->Frame_0, b[f]->Frame_0),
{
    assert(scope_kind(a[f]) == scope_kind(b[f]));
}


/// `opt_refs_within`, measured against the slots of a builder's frame.
spec fn opt_refs_in_frame(t: Option<IRV>, fr: StackFrameV) -> bool {
    opt_refs_within(t, fr.params.len(), fr.captures.len(), fr.locals.len())
}

proof fn lemma_lowered_refl(st: BState)
    requires
        start_ok(st),
    ensures
        lowered_ok(st, st, top_frame(st)),
{
    lemma_grows_refl(st.scopes);
    lemma_frame_index_bounds(st.scopes, st.scopes.len() - 1);
}

proof fn lemma_lowered_start(st: BState, s: BState)
    requires
        start_ok(st),
        lowered_ok(st, s, top_frame(st)),
    ensures
        start_ok(s),
        top_frame(s) == top_frame(st),
{
    lemma_frame_index_same_shape(st.scopes, s.scopes, st.scopes.len() - 1);
}

proof fn lemma_lowered_trans(a: BState, b: BState, c: BState, f: int)
    requires
        lowered_ok(a, b, f),
        lowered_ok(b, c, f),
    ensures
        lowered_ok(a, c, f),
{
    lemma_grows_trans(a.scopes, b.scopes, c.scopes);
}

proof fn lemma_refs_carry(ir: IRV, a: BState, b: BState, f: int)
    requires
        lowered_ok(a, b, f),
        0 <= f < a.scopes.len(),
        a.scopes[f] is Frame,
        refs_in_frame(ir, a.scopes[f]->Frame_0),
    ensures
        refs_in_frame(ir, b.scopes[f]->Frame_0),
{
    lemma_grows_frame(a.scopes, b.scopes, f);
    lemma_refs_frame_mono(ir, a.scopes[f]->Frame_0, b.scopes[f]->Frame_0);
}

proof fn lemma_opt_refs_carry(t: Option<IRV>, a: BState, b: BState, f: int)
    requires
        lowered_ok(a, b, f),
        0 <= f < a.scopes.len(),
        a.scopes[f] is Frame,
        opt_refs_in_frame(t, a.scopes[f]->Frame_0),
    ensures
        opt_refs_in_frame(t, b.scopes[f]->Frame_0),
{
    match t {
        Some(x) => lemma_refs_carry(x, a, b, f),
        None => {},
    }
}

proof fn lemma_name_node_refs(n: NameRef, loc: LocationV, fr: StackFrameV)
    requires
        name_in_frame(n, fr),
    ensures
        refs_in_frame(at(name_node(n), loc), fr),
{
}

proof fn lemma_ir_refs(st: BState, ast: ASTV)
    requires
        start_ok(st),
    ensures
        b_ir(st, ast).1 matches Some(ir) ==> {
            &&& lowered_ok(st, b_ir(st, ast).0, top_frame(st))
            &&& refs_in_frame(ir, b_ir(st, ast).0.scopes[top_frame(st)]->Frame_0)
        },
    decreases ast, 0int,
{
    let f = top_frame(st);
    lemma_frame_index_bounds(st.scopes, st.scopes.len() - 1);
    let loc = ast.location;
    match ast.value {
        AstValueV::Literal(_) => {
            lemma_lowered_refl(st);
        },
        AstValueV::Block(asts) => {
            let s0 = push_scope(st, empty_block());
            lemma_start_push(st, empty_block());
            lemma_block_refs(s0, asts, 0, Seq::empty());
            let (s1, r) = b_block(s0, asts, 0, Seq::empty());
            match r {
                None => {},
                Some(irs) => {
                    lemma_lowered_pop(st, empty_block(), s1, f);
                },
            }
        },
        AstValueV::Let { name, value, recursive, comptime } => if !recursive {
            let s1 = if comptime { push_scope(st, ScopeV::Portal) } else { st };
            if comptime {
                lemma_start_push(st, ScopeV::Portal);
            }
            let s1b = push_scope(s1, empty_block());
            lemma_start_push(s1, empty_block());
            lemma_ir_refs(s1b, *value);
            let (s2, r) = b_ir(s1b, *value);
            match r {
                None => {},
                Some(v) => {
                    lemma_lowered_pop(s1, empty_block(), s2, f);
                    let s3 = pop_scope(s2);
                    let s4 = if comptime { pop_scope(s3) } else { s3 };
                    if comptime {
                        lemma_lowered_pop(st, ScopeV::Portal, s3, f);
                    }
                    assert(lowered_ok(st, s4, f));
                    assert(refs_in_frame(v, s4.scopes[f]->Frame_0));
                    lemma_lowered_start(st, s4);
                    lemma_define_local_refs(s4, name, comptime);
                    match b_define_local(s4, name, comptime) {
                        None => {},
                        Some((s5, local_ref)) => {
                            lemma_grows_frame(s4.scopes, s5.scopes, f);
                            assert(lowered_ok(s4, s5, f));
                            lemma_lowered_trans(st, s4, s5, f);
                            lemma_refs_carry(v, s4, s5, f);
                        },
                    }
                },
            }
        },
        AstValueV::NameRef(name) => {
            lemma_lookup_refs(st.scopes, name);
            let (s1, r) = b_lookup(st, name);
            lemma_grows_frame(st.scopes, s1.scopes, f);
            match spec_lookup(st.scopes, name).1 {
                Ok(n) => lemma_name_node_refs(n, loc, s1.scopes[f]->Frame_0),
                Err(_) => {},
            }
        },
        AstValueV::Function(fa) => {
            lemma_function_refs(st, fa);
            let (s1, r) = b_function(st, fa);
            match r {
                None => {},
                Some(fv) => {
                    let s2 = BState { functions: s1.functions.push(fv), ..s1 };
                    lemma_grows_frame(st.scopes, s1.scopes, f);
                    assert forall|k: int| 0 <= k < s2.functions.len() implies function_refs_own(#[trigger] s2.functions[k]) by {
                        if k < s1.functions.len() {
                            assert(s2.functions[k] == s1.functions[k]);
                        }
                    }
                    let froms = fv.captures.map_values(|c: Capture| c.from);
                    let fr = s2.scopes[f]->Frame_0;
                    assert forall|k: int| 0 <= k < froms.len() implies from_within(#[trigger] froms[k], fr.params.len(), fr.captures.len(), fr.locals.len()) by {
                        assert(froms[k] == fv.captures[k].from);
                    }
                },
            }
        },
        AstValueV::Call { target, name, args } => {
            let (s1, tr): (BState, Option<(IRV, Seq<char>)>) = match target {
                None => {
                    lemma_lookup_refs(st.scopes, name);
                    let (sa, ra) = b_lookup(st, name);
                    lemma_grows_frame(st.scopes, sa.scopes, f);
                    match ra {
                        Ok(n) => {
                            match spec_lookup(st.scopes, name).1 {
                                Ok(nr) => lemma_name_node_refs(nr, loc, sa.scopes[f]->Frame_0),
                                Err(_) => {},
                            }
                            (sa, Some((at(n, loc), "call"@)))
                        },
                        Err(NameAccessError::NameNotFound) => {
                            lemma_lowered_start(st, sa);
                            lemma_lookup_refs(sa.scopes, "self"@);
                            let (sb, rb) = b_lookup(sa, "self"@);
                            lemma_grows_frame(sa.scopes, sb.scopes, f);
                            lemma_lowered_trans(st, sa, sb, f);
                            match rb {
                                Ok(n) => {
                                    match spec_lookup(sa.scopes, "self"@).1 {
                                        Ok(nr) => lemma_name_node_refs(nr, loc, sb.scopes[f]->Frame_0),
                                        Err(_) => {},
                                    }
                                    (sb, Some((at(n, loc), name)))
                                },
                                Err(_) => (sb, None),
                            }
                        },
                        Err(_) => (sa, None),
                    }
                },
                Some(t) => {
                    lemma_ir_refs(st, *t);
                    let (sa, ra) = b_ir(st, *t);
                    match ra {
                        None => (sa, None),
                        Some(tir) => (sa, Some((tir, name))),
                    }
                },
            };
            match tr {
                None => {},
                Some((tir, nm)) => {
                    assert(lowered_ok(st, s1, f));
                    assert(refs_in_frame(tir, s1.scopes[f]->Frame_0));
                    lemma_lowered_start(st, s1);
                    lemma_args_refs(s1, args, 0, Seq::empty());
                    let (s2, ra) = b_args(s1, args, 0, Seq::empty());
                    match ra {
                        None => {},
                        Some(irs) => {
                            lemma_lowered_trans(st, s1, s2, f);
                            lemma_refs_carry(tir, s1, s2, f);
                        },
                    }
                },
            }
        },
        AstValueV::If { condition, on_true, on_false } => {
            lemma_ir_refs(st, *condition);
            let (s1, rc) = b_ir(st, *condition);
            match rc {
                None => {},
                Some(c) => {
                    lemma_lowered_start(st, s1);
                    lemma_start_push(s1, empty_block());
                    lemma_ir_refs(push_scope(s1, empty_block()), *on_true);
                    let (s2, rt) = b_ir(push_scope(s1, empty_block()), *on_true);
                    match rt {
                        None => {},
                        Some(t) => {
                            lemma_lowered_pop(s1, empty_block(), s2, f);
                            let s2p = pop_scope(s2);
                            lemma_lowered_trans(st, s1, s2p, f);
                            lemma_refs_carry(c, s1, s2p, f);
                            lemma_lowered_start(st, s2p);
                            let s3 = push_scope(s2p, empty_block());
                            lemma_start_push(s2p, empty_block());
                            match on_false {
                                None => {
                                    lemma_lowered_refl(s3);
                                    lemma_lowered_pop(s2p, empty_block(), s3, f);
                                    assert(pop_scope(s3).scopes =~= s2p.scopes);
                                },
                                Some(e) => {
                                    lemma_ir_refs(s3, *e);
                                    let (sx, rx) = b_ir(s3, *e);
                                    match rx {
                                        None => {},
                                        Some(x) => {
                                            lemma_lowered_pop(s2p, empty_block(), sx, f);
                                            let s4 = pop_scope(sx);
                                            lemma_lowered_trans(st, s2p, s4, f);
                                            lemma_refs_carry(c, s2p, s4, f);
                                            lemma_refs_carry(t, s2p, s4, f);
                                        },
                                    }
                                },
                            }
                        },
                    }
                },
            }
        },
        AstValueV::FnType { .. } => {},
        AstValueV::TypeAssert { .. } => {},
        AstValueV::CompileTimeExpr(e) => {
            lemma_comptime_refs(st, *e);
        },
    }
}

proof fn lemma_block_refs(st: BState, asts: Seq<ASTV>, i: int, acc: Seq<IRV>)
    requires
        start_ok(st),
        forall|k: int| 0 <= k < acc.len() ==> refs_in_frame(#[trigger] acc[k], st.scopes[top_frame(st)]->Frame_0),
    ensures
        b_block(st, asts, i, acc).1 matches Some(irs) ==> {
            &&& lowered_ok(st, b_block(st, asts, i, acc).0, top_frame(st))
            &&& forall|k: int| 0 <= k < irs.len() ==> refs_in_frame(#[trigger] irs[k], b_block(st, asts, i, acc).0.scopes[top_frame(st)]->Frame_0)
        },
    decreases asts, asts.len() - i,
{
    let f = top_frame(st);
    lemma_frame_index_bounds(st.scopes, st.scopes.len() - 1);
    if i < 0 || i >= asts.len() {
        lemma_lowered_refl(st);
    } else {
        lemma_ir_refs(st, asts[i]);
        let (s1, r) = b_ir(st, asts[i]);
        match r {
            None => {},
            Some(ir) => {
                lemma_lowered_start(st, s1);
                let next = if ir.node is Nop { acc } else { acc.push(ir) };
                assert forall|k: int| 0 <= k < next.len() implies refs_in_frame(#[trigger] next[k], s1.scopes[f]->Frame_0) by {
                    if k < acc.len() {
                        lemma_refs_carry(acc[k], st, s1, f);
                    }
                }
                lemma_block_refs(s1, asts, i + 1, next);
                match b_block(s1, asts, i + 1, next).1 {
                    None => {},
                    Some(_) => lemma_lowered_trans(st, s1, b_block(s1, asts, i + 1, next).0, f),
                }
            },
        }
    }
}

proof fn lemma_args_refs(st: BState, args: Seq<ASTV>, i: int, acc: Seq<IRV>)
    requires
        start_ok(st),
        forall|k: int| 0 <= k < acc.len() ==> refs_in_frame(#[trigger] acc[k], st.scopes[top_frame(st)]->Frame_0),
    ensures
        b_args(st, args, i, acc).1 matches Some(irs) ==> {
            &&& lowered_ok(st, b_args(st, args, i, acc).0, top_frame(st))
            &&& forall|k: int| 0 <= k < irs.len() ==> refs_in_frame(#[trigger] irs[k], b_args(st, args, i, acc).0.scopes[top_frame(st)]->Frame_0)
        },
    decreases args, args.len() - i,
{
    let f = top_frame(st);
    lemma_frame_index_bounds(st.scopes, st.scopes.len() - 1);
    if i < 0 || i >= args.len() {
        lemma_lowered_refl(st);
    } else {
        lemma_ir_refs(st, args[i]);
        let (s1, r) = b_ir(st, args[i]);
        match r {
            None => {},
            Some(ir) => {
                lemma_lowered_start(st, s1);
                let next = acc.push(ir);
                assert forall|k: int| 0 <= k < next.len() implies refs_in_frame(#[trigger] next[k], s1.scopes[f]->Frame_0) by {
                    if k < acc.len() {
                        lemma_refs_carry(acc[k], st, s1, f);
                    }
                }
                lemma_args_refs(s1, args, i + 1, next);
                match b_args(s1, args, i + 1, next).1 {
                    None => {},
                    Some(_) => lemma_lowered_trans(st, s1, b_args(s1, args, i + 1, next).0, f),
                }
            },
        }
    }
}

proof fn lemma_comptime_refs(st: BState, ast: ASTV)
    requires
        start_ok(st),
    ensures
        b_comptime(st, ast).1 matches Some(n) ==> {
            &&& lowered_ok(st, b_comptime(st, ast).0, top_frame(st))
            &&& refs_in_frame(at(n, ast.location), b_comptime(st, ast).0.scopes[top_frame(st)]->Frame_0)
        },
    decreases ast, 1int,
{
    let f = top_frame(st);
    lemma_start_push(st, ScopeV::Portal);
    lemma_ir_refs(push_scope(st, ScopeV::Portal), ast);
    let (s1, r) = b_ir(push_scope(st, ScopeV::Portal), ast);
    match r {
        None => {},
        Some(ir) => {
            lemma_lowered_pop(st, ScopeV::Portal, s1, f);
        },
    }
}

proof fn lemma_params_refs(st: BState, params: Seq<AstParamV>, i: int, acc: Seq<ParamV>)
    requires
        start_ok(st),
        0 <= i <= params.len(),
        forall|k: int| 0 <= k < acc.len() ==> opt_refs_in_frame((#[trigger] acc[k]).typ, st.scopes[top_frame(st)]->Frame_0),
    ensures
        b_params(st, params, i, acc).1 matches Some(ps) ==> {
            &&& lowered_ok(st, b_params(st, params, i, acc).0, top_frame(st))
            &&& ps.len() == acc.len() + params.len() - i
            &&& forall|k: int| 0 <= k < ps.len() ==> opt_refs_in_frame((#[trigger] ps[k]).typ, b_params(st, params, i, acc).0.scopes[top_frame(st)]->Frame_0)
        },
    decreases params, params.len() - i,
{
    let f = top_frame(st);
    lemma_frame_index_bounds(st.scopes, st.scopes.len() - 1);
    if i >= params.len() {
        lemma_lowered_refl(st);
    } else {
        let p = params[i];
        let s1 = push_scope(st, empty_block());
        lemma_start_push(st, empty_block());
        match p.typ {
            None => {
                let next = acc.push(ParamV { typ: None, comptime: p.comptime });
                let s1p = pop_scope(s1);
                assert(s1p.scopes =~= st.scopes);
                assert(s1p == st);
                assert forall|k: int| 0 <= k < next.len() implies opt_refs_in_frame((#[trigger] next[k]).typ, st.scopes[f]->Frame_0) by {
                    if k < acc.len() {
                        assert(next[k] == acc[k]);
                    }
                }
                lemma_params_refs(st, params, i + 1, next);
            },
            Some(pat) => match pat.value {
                PatternValueV::SpecificValue(a) => {
                    lemma_comptime_refs(s1, a);
                    let (sx, rx) = b_comptime(s1, a);
                    match rx {
                        None => {},
                        Some(n) => {
                            lemma_lowered_pop(st, empty_block(), sx, f);
                            let s2 = pop_scope(sx);
                            lemma_lowered_start(st, s2);
                            let next = acc.push(ParamV { typ: Some(at(n, a.location)), comptime: p.comptime });
                            assert forall|k: int| 0 <= k < next.len() implies opt_refs_in_frame((#[trigger] next[k]).typ, s2.scopes[f]->Frame_0) by {
                                if k < acc.len() {
                                    assert(next[k] == acc[k]);
                                    lemma_opt_refs_carry(acc[k].typ, st, s2, f);
                                }
                            }
                            lemma_params_refs(s2, params, i + 1, next);
                            match b_params(s2, params, i + 1, next).1 {
                                None => {},
                                Some(_) => lemma_lowered_trans(st, s2, b_params(s2, params, i + 1, next).0, f),
                            }
                        },
                    }
                },
                _ => {},
            },
        }
    }
}

proof fn lemma_function_refs(st: BState, fa: AstFunctionV)
    requires
        scopes_refs_ok(st.scopes),
        st.scopes.len() > 0,
        templates_own(st.functions),
    ensures
        b_function(st, fa).1 matches Some(fv) ==> {
            &&& function_refs_own(fv)
            &&& scopes_refs_ok(b_function(st, fa).0.scopes)
            &&& grows(st.scopes, b_function(st, fa).0.scopes)
            &&& templates_own(b_function(st, fa).0.functions)
            &&& fv.captures.len() > 0 ==> top_frame(st) != -1
            &&& forall|k: int| 0 <= k < fv.captures.len() ==>
                from_in_frame((#[trigger] fv.captures[k]).from, b_function(st, fa).0.scopes[top_frame(st)]->Frame_0)
        },
    decreases fa, 0int,
{
    let fr0 = StackFrameV { captures: Seq::empty(), params: frame_params(fa.params), locals: Seq::empty() };
    let s1 = push_scope(st, ScopeV::Frame(fr0));
    let g = st.scopes.len() as int;
    lemma_refs_ok_push(st.scopes, ScopeV::Frame(fr0));
    lemma_frame_index_push(st.scopes, ScopeV::Frame(fr0));
    assert(top_frame(s1) == g);
    assert(start_ok(s1));
    lemma_params_refs(s1, fa.params, 0, Seq::empty());
    let (s2, rp) = b_params(s1, fa.params, 0, Seq::empty());
    match rp {
        None => {},
        Some(params) => {
            lemma_lowered_start(s1, s2);
            let (s3, rr): (BState, Option<Option<IRV>>) = match fa.return_type {
                None => {
                    lemma_lowered_refl(s2);
                    (s2, Some(None))
                },
                Some(t) => {
                    lemma_comptime_refs(s2, *t);
                    let (sx, rx) = b_comptime(s2, *t);
                    match rx {
                        None => (sx, None),
                        Some(n) => (sx, Some(Some(at(n, t.location)))),
                    }
                },
            };
            match rr {
                None => {},
                Some(return_type) => {
                    assert(lowered_ok(s2, s3, g));
                    assert(opt_refs_in_frame(return_type, s3.scopes[g]->Frame_0));
                    lemma_lowered_start(s2, s3);
                    let s3b = push_scope(s3, empty_block());
                    lemma_start_push(s3, empty_block());
                    lemma_ir_refs(s3b, *fa.body);
                    let (s4, rb) = b_ir(s3b, *fa.body);
                    match rb {
                        None => {},
                        Some(body) => {
                            lemma_lowered_pop(s3, empty_block(), s4, g);
                            let s5 = pop_scope(s4);
                            lemma_lowered_trans(s1, s2, s3, g);
                            lemma_lowered_trans(s1, s3, s5, g);
                            lemma_lowered_trans(s2, s3, s5, g);
                            let frame = s5.scopes.last()->Frame_0;
                            assert(s5.scopes.len() == g + 1);
                            assert(frame == s5.scopes[g]->Frame_0);
                            lemma_grows_frame(s1.scopes, s5.scopes, g);
                            assert(s1.scopes[g] == ScopeV::Frame(fr0));
                            assert(frame.params.len() == fa.params.len());
                            let fv = FunctionV {
                                captures: frame_captures(frame),
                                params,
                                locals: frame_locals(frame),
                                return_type,
                                body,
                            };
                            assert(b_function(st, fa) == (pop_scope(s5), Some(fv)));
                            assert(s5.scopes[g] == s4.scopes[g]);
                            lemma_opt_refs_carry(return_type, s3, s5, g);
                            assert forall|k: int| 0 <= k < params.len() implies opt_refs_in_frame((#[trigger] params[k]).typ, frame) by {
                                lemma_opt_refs_carry(params[k].typ, s2, s5, g);
                            }
                            assert(function_refs_own(fv));
                            // The frame's captures come from the frame around it.
                            assert(scope_refs_ok(s5.scopes, g));
                            lemma_frame_index_same_shape(s1.scopes, s5.scopes, g - 1);
                            lemma_frame_index_prefix(s1.scopes, st.scopes, g - 1);
                            let s6 = pop_scope(s5);
                            lemma_grows_push_pop(st.scopes, ScopeV::Frame(fr0), s5.scopes);
                            lemma_refs_ok_pop(s5.scopes);
                            let pf = top_frame(st);
                            if fv.captures.len() > 0 {
                                assert(frame.captures.len() > 0);
                                assert(pf != -1);
                                lemma_frame_index_bounds(st.scopes, st.scopes.len() - 1);
                                assert(s6.scopes[pf] == s5.scopes[pf]);
                                assert forall|k: int| 0 <= k < fv.captures.len() implies
                                    from_in_frame((#[trigger] fv.captures[k]).from, s6.scopes[pf]->Frame_0) by {
                                    assert(fv.captures[k].from == frame.captures[k].from);
                                }
                            }
                        },
                    }
                },
            }
        },
    }
}

/// Lowered code touches only slots of its own function: every parameter,
/// capture and local that the code of the main function or of a function
/// template names, and every slot a closure it creates captures from, is
/// one that function has.
pub proof fn lemma_module_refs_own(root: RootScopeV, ast: ASTV)
    requires
        b_module(root, ast) is Some,
    ensures
        function_refs_own(b_module(root, ast)->Some_0.main),
        forall|k: int| 0 <= k < b_module(root, ast)->Some_0.functions.len() ==>
            function_refs_own(#[trigger] b_module(root, ast)->Some_0.functions[k]),
{
    let st = BState { scopes: seq![ScopeV::Root(root)], functions: Seq::empty() };
    let main = AstFunctionV { params: Seq::empty(), body: Box::new(ast), return_type: None };
    assert(scope_refs_ok(st.scopes, 0));
    lemma_function_refs(st, main);
}


/// Lowering an expression only adds to the scopes: the stack keeps its
/// length and its kinds of scopes, blocks only gain names, frames only gain
/// captures and locals, and the root and the portals stay as they were. It
/// holds from any state the builder reaches whose innermost scopes lie in a
/// stack frame.
pub proof fn lemma_lowering_only_adds(st: BState, ast: ASTV)
    requires
        scopes_refs_ok(st.scopes),
        templates_own(st.functions),
        st.scopes.len() > 0,
        frame_index_from(st.scopes, st.scopes.len() - 1) != -1,
    ensures
        b_ir(st, ast).1 is Some ==> grows(st.scopes, b_ir(st, ast).0.scopes),
{
    lemma_ir_refs(st, ast);
}

} // verus!
