use vstd::prelude::*;
use crate::ir::{CaptureFrom, CaptureRef, GlobalRef, LocalRef, ParamRef};
use crate::ir::lexical_scope::block_scope::{BlockScope, block_find};
use crate::ir::lexical_scope::names::{first_index_of, last_index_of, lemma_first_index_of};
use crate::ir::lexical_scope::comptime_portal::ComptimePortal;
use crate::ir::lexical_scope::root_scope::{RootScope, RootScopeV};
use crate::ir::lexical_scope::stack_frame::{Param, ParamOrCapture, StackFrame, StackFrameLocal, StackFrameV};

verus! {

/// The scopes in effect at a point of the program, outermost first.
pub struct ScopeStack {
    stack: Vec<Scope>,
}

/// One scope of a [`ScopeStack`].
pub enum Scope {
    RootScope(RootScope),
    ComptimePortal(ComptimePortal),
    StackFrame(StackFrame),
    BlockScope(BlockScope),
}

/// The content of a [`Scope`].
pub enum ScopeV {
    Root(RootScopeV),
    Portal,
    Frame(StackFrameV),
    Block(Seq<(Seq<char>, LocalRef)>),
}

impl View for Scope {
    type V = ScopeV;

    open spec fn view(&self) -> ScopeV {
        match self {
            Scope::RootScope(r) => ScopeV::Root(r@),
            Scope::ComptimePortal(_) => ScopeV::Portal,
            Scope::StackFrame(f) => ScopeV::Frame(f@),
            Scope::BlockScope(b) => ScopeV::Block(b@),
        }
    }
}

impl View for ScopeStack {
    type V = Seq<ScopeV>;

    closed spec fn view(&self) -> Seq<ScopeV> {
        self.stack@.map_values(|s: Scope| s@)
    }
}

/// What a name resolves to.
#[derive(Debug, Clone, Copy, PartialEq, Eq, Structural)]
pub enum NameRef {
    /// The name is a global which can be loaded directly from the globals
    Global(GlobalRef),
    /// The name is accessed from a parent scope in a closure
    Capture(CaptureRef),
    /// The name is a function parameter of the currently-executing function
    /// If we're in a closure, and we're referencing a parent function's arguments, then that would
    /// be a [NameRef::Capture], not [NameRef::Param].
    Param(ParamRef),
    /// The name is defined in a parent stack frame
    Local(LocalRef),
}

/// Why a name could not be resolved.
#[derive(Debug, Clone, Copy, PartialEq, Eq, Structural)]
pub enum NameAccessError {
    NameNotFound,
    CannotReferenceRuntimeNameFromComptime,
}

/// Whether the named value is only available at compile time.
pub open spec fn name_ref_comptime(r: NameRef) -> bool {
    match r {
        NameRef::Global(g) => g.comptime,
        NameRef::Capture(c) => c.comptime,
        NameRef::Param(p) => p.comptime,
        NameRef::Local(l) => l.comptime,
    }
}

/// Where a stack frame captures a name from, for a name that is not global.
pub open spec fn capture_source(r: NameRef) -> Option<CaptureFrom> {
    match r {
        NameRef::Global(_) => None,
        NameRef::Capture(c) => Some(CaptureFrom::Capture(c)),
        NameRef::Param(p) => Some(CaptureFrom::Param(p)),
        NameRef::Local(l) => Some(CaptureFrom::Local(l)),
    }
}

/// What a name means in one scope, if the scope defines it.
pub open spec fn scope_find(s: ScopeV, name: Seq<char>) -> Option<NameRef> {
    match s {
        ScopeV::Root(root) => match root.find(name) {
            Some(g) => Some(NameRef::Global(g)),
            None => None,
        },
        ScopeV::Frame(frame) => match frame.find(name) {
            Some(ParamOrCapture::Param(p)) => Some(NameRef::Param(p)),
            Some(ParamOrCapture::Capture(c)) => Some(NameRef::Capture(c)),
            None => None,
        },
        ScopeV::Block(names) => match block_find(names, name) {
            Some(l) => Some(NameRef::Local(l)),
            None => None,
        },
        ScopeV::Portal => None,
    }
}

/// The innermost scope at or below index `i` that defines `name`, with
/// what the name means there.
pub open spec fn find_from(stack: Seq<ScopeV>, name: Seq<char>, i: int) -> Option<(int, NameRef)>
    decreases i + 1,
{
    if i < 0 {
        None
    } else {
        match scope_find(stack[i], name) {
            Some(r) => Some((i, r)),
            None => find_from(stack, name, i - 1),
        }
    }
}

/// Carries a name found below index `j` up through the scopes from `j`
/// on: each stack frame passed captures a non-global name and the result
/// becomes that capture; a compile-time portal passed refuses a run-time
/// name that is not global.
pub open spec fn resolve(stack: Seq<ScopeV>, name: Seq<char>, j: int, result: NameRef, comptime: bool) -> (Seq<ScopeV>, Result<NameRef, NameAccessError>)
    decreases stack.len() - j,
{
    if j >= stack.len() || j < 0 {
        (stack, Ok(result))
    } else {
        match stack[j] {
            ScopeV::Frame(frame) => match capture_source(result) {
                Some(from) => resolve(
                    stack.update(j, ScopeV::Frame(frame.with_capture(from, name))),
                    name,
                    j + 1,
                    NameRef::Capture(CaptureRef { i: frame.captures.len() as usize, comptime: from.spec_comptime() }),
                    comptime,
                ),
                None => resolve(stack, name, j + 1, result, comptime),
            },
            ScopeV::Portal => if capture_source(result) is Some && !comptime {
                (stack, Err(NameAccessError::CannotReferenceRuntimeNameFromComptime))
            } else {
                resolve(stack, name, j + 1, result, comptime)
            },
            _ => resolve(stack, name, j + 1, result, comptime),
        }
    }
}

/// The scopes after looking up `name`, and what it resolves to.
pub open spec fn spec_lookup(stack: Seq<ScopeV>, name: Seq<char>) -> (Seq<ScopeV>, Result<NameRef, NameAccessError>) {
    match find_from(stack, name, stack.len() - 1) {
        None => (stack, Err(NameAccessError::NameNotFound)),
        Some((i, r)) => resolve(stack, name, i + 1, r, name_ref_comptime(r)),
    }
}

/// Only the outermost scope may be a root.
pub open spec fn scopes_wf(stack: Seq<ScopeV>) -> bool {
    forall|i: int| 1 <= i < stack.len() ==> !(#[trigger] stack[i] is Root)
}

/// The innermost stack frame at or below index `i`, or -1.
pub open spec fn frame_index_from(stack: Seq<ScopeV>, i: int) -> int
    decreases i + 1,
{
    if i < 0 {
        -1
    } else if stack[i] is Frame {
        i
    } else {
        frame_index_from(stack, i - 1)
    }
}

/// Whether a compile-time portal lies strictly above index `i`.
pub open spec fn portal_above(stack: Seq<ScopeV>, i: int) -> bool {
    exists|j: int| i < j < stack.len() && #[trigger] stack[j] is Portal
}

/// The scopes after adding a local slot to the innermost stack frame; the
/// slot is compile-time when asked so or when a portal lies above that frame.
pub open spec fn spec_define_stack_frame_local(stack: Seq<ScopeV>, comptime: bool) -> (Seq<ScopeV>, LocalRef) {
    let i = frame_index_from(stack, stack.len() - 1);
    let frame = stack[i]->Frame_0;
    let c = comptime || portal_above(stack, i);
    (
        stack.update(i, ScopeV::Frame(StackFrameV { locals: frame.locals.push(StackFrameLocal { comptime: c }), ..frame })),
        LocalRef { i: frame.locals.len() as usize, comptime: c },
    )
}

pub(crate) proof fn lemma_find_from_bounds(stack: Seq<ScopeV>, name: Seq<char>, i: int)
    requires
        i < stack.len(),
    ensures
        find_from(stack, name, i) matches Some((k, r)) ==> 0 <= k <= i && scope_find(stack[k], name) == Some(r),
    decreases i + 1,
{
    if i >= 0 && scope_find(stack[i], name) is None {
        lemma_find_from_bounds(stack, name, i - 1);
    }
}

proof fn lemma_find_from_skip(stack: Seq<ScopeV>, name: Seq<char>, i: int, top: int)
    requires
        -1 <= i <= top < stack.len(),
        forall|j: int| i < j <= top ==> scope_find(#[trigger] stack[j], name) is None,
    ensures
        find_from(stack, name, top) == find_from(stack, name, i),
    decreases top - i,
{
    if top > i {
        lemma_find_from_skip(stack, name, i, top - 1);
    }
}

pub(crate) proof fn lemma_frame_index_bounds(stack: Seq<ScopeV>, i: int)
    requires
        i < stack.len(),
    ensures
        frame_index_from(stack, i) == -1 || (0 <= frame_index_from(stack, i) <= i && stack[frame_index_from(stack, i)] is Frame),
    decreases i + 1,
{
    if i >= 0 && !(stack[i] is Frame) {
        lemma_frame_index_bounds(stack, i - 1);
    }
}

pub(crate) proof fn lemma_frame_index_skip(stack: Seq<ScopeV>, i: int, top: int)
    requires
        -1 <= i <= top < stack.len(),
        forall|j: int| i < j <= top ==> !(#[trigger] stack[j] is Frame),
    ensures
        frame_index_from(stack, top) == frame_index_from(stack, i),
    decreases top - i,
{
    if top > i {
        lemma_frame_index_skip(stack, i, top - 1);
    }
}

impl ScopeStack {
    /// Only the outermost scope may be a root.
    pub open spec fn wf(&self) -> bool {
        scopes_wf(self@)
    }

    /// A stack holding just `root`.
    pub fn new(root: RootScope) -> (r: Self)
        ensures
            r@ == seq![ScopeV::Root(root@)],
            r.wf(),
    {
        let r = ScopeStack { stack: vec![Scope::RootScope(root)] };
        proof {
            assert(r@ =~= seq![ScopeV::Root(root@)]);
        }
        r
    }

    /// Takes the root off a stack that holds nothing else.
    pub fn consume_root(self) -> (r: RootScope)
        requires
            self@.len() > 0,
            self@.last() is Root,
        ensures
            ScopeV::Root(r@) == self@.last(),
    {
        let mut this = self;
        let root = this.pop_root();
        root
    }

    fn push_scope(&mut self, scope: Scope)
        requires
            !(scope@ is Root),
            old(self).wf(),
        ensures
            final(self)@ == old(self)@.push(scope@),
            final(self).wf(),
    {
        self.stack.push(scope);
        proof {
            assert(self@ =~= old(self)@.push(scope@));
        }
    }

    /// Enters a block that defines no names yet.
    pub fn push_block(&mut self)
        requires
            old(self).wf(),
        ensures
            final(self)@ == old(self)@.push(ScopeV::Block(Seq::empty())),
            final(self).wf(),
    {
        let scope = BlockScope::new();
        self.push_scope(Scope::BlockScope(scope))
    }

    /// Enters a function with the given parameters.
    pub fn push_stack_frame(&mut self, params: Vec<Param>)
        requires
            old(self).wf(),
        ensures
            final(self)@ == old(self)@.push(ScopeV::Frame(StackFrameV {
                captures: Seq::empty(),
                params: params@.map_values(|p: Param| p@),
                locals: Seq::empty(),
            })),
            final(self).wf(),
    {
        let scope = StackFrame::new(params);
        proof {
            assert(scope@.captures =~= Seq::empty());
            assert(scope@.locals =~= Seq::empty());
        }
        self.push_scope(Scope::StackFrame(scope))
    }

    /// Enters compile-time code.
    pub fn push_comptime_portal(&mut self)
        requires
            old(self).wf(),
        ensures
            final(self)@ == old(self)@.push(ScopeV::Portal),
            final(self).wf(),
    {
        let portal = ComptimePortal::new();
        self.push_scope(Scope::ComptimePortal(portal))
    }

    /// Leaves the innermost scope and returns it.
    pub fn pop(&mut self) -> (r: Scope)
        requires
            old(self)@.len() > 0,
        ensures
            final(self)@ == old(self)@.drop_last(),
            r@ == old(self)@.last(),
            old(self).wf() ==> final(self).wf(),
    {
        let r = self.stack.pop().unwrap();
        proof {
            assert(self@ =~= old(self)@.drop_last());
        }
        r
    }

    /// Leaves the innermost scope, which must be the root.
    pub fn pop_root(&mut self) -> (r: RootScope)
        requires
            old(self)@.len() > 0,
            old(self)@.last() is Root,
        ensures
            final(self)@ == old(self)@.drop_last(),
            ScopeV::Root(r@) == old(self)@.last(),
    {
        match self.pop() {
            Scope::RootScope(root) => root,
            _ => vstd::pervasive::unreached(),
        }
    }

    /// Leaves the innermost scope, which must be a compile-time portal.
    pub fn pop_comptime_portal(&mut self) -> (r: ComptimePortal)
        requires
            old(self)@.len() > 0,
            old(self)@.last() is Portal,
        ensures
            final(self)@ == old(self)@.drop_last(),
            old(self).wf() ==> final(self).wf(),
    {
        match self.pop() {
            Scope::ComptimePortal(portal) => portal,
            _ => vstd::pervasive::unreached(),
        }
    }

    /// Leaves the innermost scope, which must be a stack frame.
    pub fn pop_stack_frame(&mut self) -> (r: StackFrame)
        requires
            old(self)@.len() > 0,
            old(self)@.last() is Frame,
        ensures
            final(self)@ == old(self)@.drop_last(),
            ScopeV::Frame(r@) == old(self)@.last(),
            old(self).wf() ==> final(self).wf(),
    {
        match self.pop() {
            Scope::StackFrame(frame) => frame,
            _ => vstd::pervasive::unreached(),
        }
    }

    /// Leaves the innermost scope, which must be a block.
    pub fn pop_block(&mut self) -> (r: BlockScope)
        requires
            old(self)@.len() > 0,
            old(self)@.last() is Block,
        ensures
            final(self)@ == old(self)@.drop_last(),
            ScopeV::Block(r@) == old(self)@.last(),
            old(self).wf() ==> final(self).wf(),
    {
        match self.pop() {
            Scope::BlockScope(block) => block,
            _ => vstd::pervasive::unreached(),
        }
    }

    /// Adds a capture of `name` from `from` to the stack frame at index
    /// `i` and returns the capture's reference.
    fn capture_in_frame(&mut self, i: usize, from: CaptureFrom, name: String) -> (r: CaptureRef)
        requires
            i < old(self)@.len(),
            old(self)@[i as int] is Frame,
            old(self).wf(),
        ensures
            final(self)@ == old(self)@.update(i as int, ScopeV::Frame(old(self)@[i as int]->Frame_0.with_capture(from, name@))),
            r == (CaptureRef { i: old(self)@[i as int]->Frame_0.captures.len() as usize, comptime: from.spec_comptime() }),
            final(self).wf(),
    {
        let scope = self.stack.remove(i);
        match scope {
            Scope::StackFrame(mut frame) => {
                let r = frame.define_capture(from, name);
                self.stack.insert(i, Scope::StackFrame(frame));
                proof {
                    assert(self@ =~= old(self)@.update(i as int, ScopeV::Frame(old(self)@[i as int]->Frame_0.with_capture(from, name@))));
                }
                r
            },
            _ => vstd::pervasive::unreached(),
        }
    }

    /// Adds a local slot to the stack frame at index `i`.
    fn local_in_frame(&mut self, i: usize, comptime: bool) -> (r: LocalRef)
        requires
            i < old(self)@.len(),
            old(self)@[i as int] is Frame,
            old(self).wf(),
        ensures
            final(self)@ == old(self)@.update(i as int, ScopeV::Frame(StackFrameV {
                locals: old(self)@[i as int]->Frame_0.locals.push(StackFrameLocal { comptime }),
                ..old(self)@[i as int]->Frame_0
            })),
            r == (LocalRef { i: old(self)@[i as int]->Frame_0.locals.len() as usize, comptime }),
            final(self).wf(),
    {
        let scope = self.stack.remove(i);
        match scope {
            Scope::StackFrame(mut frame) => {
                let r = frame.define_stack_frame_local(comptime);
                self.stack.insert(i, Scope::StackFrame(frame));
                proof {
                    assert(self@ =~= old(self)@.update(i as int, ScopeV::Frame(StackFrameV {
                        locals: old(self)@[i as int]->Frame_0.locals.push(StackFrameLocal { comptime }),
                        ..old(self)@[i as int]->Frame_0
                    })));
                }
                r
            },
            _ => vstd::pervasive::unreached(),
        }
    }

    /// Adds a local slot to the innermost stack frame. The slot is
    /// compile-time when `comptime` is set or when a compile-time portal
    /// lies above that frame.
    pub fn define_stack_frame_local(&mut self, comptime: bool) -> (r: LocalRef)
        requires
            old(self).wf(),
            frame_index_from(old(self)@, old(self)@.len() - 1) != -1,
        ensures
            (final(self)@, r) == spec_define_stack_frame_local(old(self)@, comptime),
            final(self).wf(),
    {
        let ghost old_stack = self@;
        let mut i: usize = self.stack.len();
        let mut c = comptime;
        while i > 0
            invariant
                self@ == old_stack,
                old_stack == old(self)@,
                self.wf(),
                i <= old_stack.len(),
                frame_index_from(old_stack, old_stack.len() - 1) == frame_index_from(old_stack, i - 1),
                frame_index_from(old_stack, old_stack.len() - 1) != -1,
                c == (comptime || exists|j: int| i <= j < old_stack.len() && #[trigger] old_stack[j] is Portal),
            decreases i,
        {
            i -= 1;
            if matches!(self.stack[i], Scope::StackFrame(_)) {
                proof {
                    assert(frame_index_from(old_stack, old_stack.len() - 1) == i);
                    assert(c == (comptime || portal_above(old_stack, i as int)));
                }
                let r = self.local_in_frame(i, c);
                proof {
                    let sp = spec_define_stack_frame_local(old_stack, comptime);
                    assert(sp.1 == r);
                    assert(sp.0 =~= self@);
                }
                return r;
            }
            if matches!(self.stack[i], Scope::ComptimePortal(_)) {
                c = true;
            }
            proof {
                if c != (comptime || exists|j: int| i <= j < old_stack.len() && #[trigger] old_stack[j] is Portal) {
                    if c {
                        assert(old_stack[i as int] is Portal || comptime || exists|j: int| i + 1 <= j < old_stack.len() && #[trigger] old_stack[j] is Portal);
                    }
                }
            }
        }
        vstd::pervasive::unreached()
    }

    /// Defines `name` in the innermost scope, which must be a block, bound
    /// to a new slot of the innermost stack frame.
    pub fn define_local(&mut self, name: String, comptime: bool) -> (r: LocalRef)
        requires
            old(self).wf(),
            frame_index_from(old(self)@, old(self)@.len() - 1) != -1,
            old(self)@.last() is Block,
        ensures
            final(self).wf(),
            r == spec_define_stack_frame_local(old(self)@, comptime).1,
            final(self)@ == ({
                let s = spec_define_stack_frame_local(old(self)@, comptime).0;
                s.update(s.len() - 1, ScopeV::Block(s.last()->Block_0.push((name@, r))))
            }),
    {
        proof {
            lemma_frame_index_bounds(old(self)@, old(self)@.len() - 1);
        }
        let local_ref = self.define_stack_frame_local(comptime);
        let last = self.stack.len() - 1;
        let scope = self.stack.remove(last);
        match scope {
            Scope::BlockScope(mut block) => {
                block.set_name(name, local_ref);
                self.stack.push(Scope::BlockScope(block));
                proof {
                    let s = spec_define_stack_frame_local(old(self)@, comptime).0;
                    assert(self@ =~= s.update(s.len() - 1, ScopeV::Block(s.last()->Block_0.push((name@, local_ref)))));
                }
                local_ref
            },
            _ => vstd::pervasive::unreached(),
        }
    }

    /// What `name` means in the scope at index `i` alone.
    fn find_in_scope(&self, i: usize, name: &str) -> (r: Option<NameRef>)
        requires
            i < self@.len(),
        ensures
            r == scope_find(self@[i as int], name@),
    {
        match &self.stack[i] {
            Scope::RootScope(root) => match root.find_global(name) {
                Some(g) => Some(NameRef::Global(g)),
                None => None,
            },
            Scope::StackFrame(frame) => match frame.find_param_or_capture(name) {
                Some(ParamOrCapture::Param(p)) => Some(NameRef::Param(p)),
                Some(ParamOrCapture::Capture(c)) => Some(NameRef::Capture(c)),
                None => None,
            },
            Scope::BlockScope(block) => match block.find_name(name) {
                Some(l) => Some(NameRef::Local(l)),
                None => None,
            },
            Scope::ComptimePortal(_) => None,
        }
    }

    /// The innermost scope defining `name`, with what the name means there.
    fn find_innermost(&self, name: &str) -> (r: Option<(usize, NameRef)>)
        requires
            self@.len() > 0,
        ensures
            match r {
                Some((i, n)) => i < self@.len() && find_from(self@, name@, self@.len() - 1) == Some((i as int, n)),
                None => find_from(self@, name@, self@.len() - 1) is None,
            },
    {
        let mut i: usize = self.stack.len();
        while i > 0
            invariant
                i <= self@.len(),
                self@.len() > 0,
                forall|j: int| i <= j < self@.len() ==> scope_find(#[trigger] self@[j], name@) is None,
            decreases i,
        {
            i -= 1;
            match self.find_in_scope(i, name) {
                Some(n) => {
                    proof {
                        lemma_find_from_skip(self@, name@, i as int, self@.len() - 1);
                    }
                    return Some((i, n));
                },
                None => {},
            }
        }
        proof {
            lemma_find_from_skip(self@, name@, -1, self@.len() - 1);
        }
        None
    }

    /// Resolves `name`: finds the innermost scope defining it, then makes
    /// every stack frame between that scope and the innermost scope capture
    /// it; fails when no scope defines it, or when a compile-time portal
    /// lies between the definition and the use of a run-time name.
    pub fn lookup(&mut self, name: &str) -> (r: Result<NameRef, NameAccessError>)
        requires
            old(self).wf(),
            old(self)@.len() > 0,
        ensures
            final(self).wf(),
            (final(self)@, r) == spec_lookup(old(self)@, name@),
    {
        let (i, mut result) = match self.find_innermost(name) {
            None => return Err(NameAccessError::NameNotFound),
            Some(found) => found,
        };
        let comptime = match result {
            NameRef::Global(global_ref) => global_ref.comptime,
            NameRef::Capture(capture_ref) => capture_ref.comptime,
            NameRef::Param(param_ref) => param_ref.comptime,
            NameRef::Local(local_ref) => local_ref.comptime,
        };
        let n = self.stack.len();
        assert(self@.len() == n);
        let mut j = i + 1;
        while j < self.stack.len()
            invariant
                self.wf(),
                i < j <= self@.len(),
                self@.len() == old(self)@.len(),
                spec_lookup(old(self)@, name@) == resolve(self@, name@, j as int, result, comptime),
            decreases self@.len() - j,
        {
            if matches!(self.stack[j], Scope::StackFrame(_)) {
                let from = match result {
                    NameRef::Capture(capture_ref) => Some(CaptureFrom::Capture(capture_ref)),
                    NameRef::Param(param_ref) => Some(CaptureFrom::Param(param_ref)),
                    NameRef::Local(local_ref) => Some(CaptureFrom::Local(local_ref)),
                    NameRef::Global(_) => None,
                };
                match from {
                    None => {},
                    Some(capture_from) => {
                        let capture_ref = self.capture_in_frame(j, capture_from, name.to_string());
                        result = NameRef::Capture(capture_ref);
                    },
                }
            } else if matches!(self.stack[j], Scope::ComptimePortal(_)) {
                match result {
                    NameRef::Capture(_) | NameRef::Param(_) | NameRef::Local(_) => {
                        if !comptime {
                            return Err(NameAccessError::CannotReferenceRuntimeNameFromComptime);
                        }
                    },
                    _ => {},
                }
            }
            j += 1;
        }
        Ok(result)
    }
}

} // verus!
verus! {

/// A name defined by `define_local` in the innermost block is found by the
/// next `lookup` as that very local, and the lookup changes no scope.
pub proof fn lemma_define_local_then_lookup(stack: Seq<ScopeV>, name: Seq<char>, comptime: bool)
    requires
        scopes_wf(stack),
        frame_index_from(stack, stack.len() - 1) != -1,
        stack.last() is Block,
    ensures
        ({
            let (s1, r) = spec_define_stack_frame_local(stack, comptime);
            let s2 = s1.update(s1.len() - 1, ScopeV::Block(s1.last()->Block_0.push((name, r))));
            spec_lookup(s2, name) == (s2, Ok::<NameRef, NameAccessError>(NameRef::Local(r)))
        }),
{
    lemma_frame_index_bounds(stack, stack.len() - 1);
    let (s1, r) = spec_define_stack_frame_local(stack, comptime);
    let names = s1.last()->Block_0.push((name, r));
    let s2 = s1.update(s1.len() - 1, ScopeV::Block(names));
    let keys = names.map_values(|p: (Seq<char>, LocalRef)| p.0);
    assert(keys.last() == name);
    assert(last_index_of(keys, name) == keys.len() - 1);
    assert(block_find(names, name) == Some(r));
    assert(find_from(s2, name, s2.len() - 1) == Some((s2.len() - 1, NameRef::Local(r))));
}

/// A name that no scope defines is not found, and looking it up changes no
/// scope.
pub proof fn lemma_lookup_undefined(stack: Seq<ScopeV>, name: Seq<char>)
    requires
        stack.len() > 0,
        forall|i: int| 0 <= i < stack.len() ==> scope_find(#[trigger] stack[i], name) is None,
    ensures
        spec_lookup(stack, name) == (stack, Err::<NameRef, NameAccessError>(NameAccessError::NameNotFound)),
{
    lemma_find_from_skip(stack, name, -1, stack.len() - 1);
}

proof fn lemma_resolve_global(stack: Seq<ScopeV>, name: Seq<char>, j: int, g: GlobalRef, comptime: bool)
    requires
        0 <= j,
    ensures
        resolve(stack, name, j, NameRef::Global(g), comptime) == (stack, Ok::<NameRef, NameAccessError>(NameRef::Global(g))),
    decreases stack.len() - j,
{
    if j < stack.len() {
        lemma_resolve_global(stack, name, j + 1, g, comptime);
    }
}

/// A global is found as that global from any depth, through functions and
/// compile-time portals alike, and looking it up changes no scope.
pub proof fn lemma_lookup_global(stack: Seq<ScopeV>, name: Seq<char>, g: GlobalRef)
    requires
        stack.len() > 0,
        find_from(stack, name, stack.len() - 1) == Some((0int, NameRef::Global(g))),
    ensures
        spec_lookup(stack, name) == (stack, Ok::<NameRef, NameAccessError>(NameRef::Global(g))),
{
    lemma_resolve_global(stack, name, 1, g, g.comptime);
}

proof fn lemma_resolve_portal_refuses(stack: Seq<ScopeV>, name: Seq<char>, j: int, k: int, result: NameRef)
    requires
        0 <= j <= k < stack.len(),
        stack[k] is Portal,
        capture_source(result) is Some,
    ensures
        resolve(stack, name, j, result, false).1 == Err::<NameRef, NameAccessError>(NameAccessError::CannotReferenceRuntimeNameFromComptime),
    decreases stack.len() - j,
{
    if j < k {
        match stack[j] {
            ScopeV::Frame(frame) => {
                let from = capture_source(result)->0;
                let next = stack.update(j, ScopeV::Frame(frame.with_capture(from, name)));
                lemma_resolve_portal_refuses(next, name, j + 1, k, NameRef::Capture(CaptureRef { i: frame.captures.len() as usize, comptime: from.spec_comptime() }));
            },
            ScopeV::Portal => {},
            _ => {
                lemma_resolve_portal_refuses(stack, name, j + 1, k, result);
            },
        }
    }
}

/// Run-time code and compile-time code are kept apart: a name that holds
/// a run-time value cannot be reached from inside a compile-time portal
/// opened after the name's scope.
pub proof fn lemma_lookup_runtime_through_portal(stack: Seq<ScopeV>, name: Seq<char>, i: int, r: NameRef, k: int)
    requires
        find_from(stack, name, stack.len() - 1) == Some((i, r)),
        capture_source(r) is Some,
        !name_ref_comptime(r),
        i < k < stack.len(),
        stack[k] is Portal,
    ensures
        spec_lookup(stack, name).1 == Err::<NameRef, NameAccessError>(NameAccessError::CannotReferenceRuntimeNameFromComptime),
{
    lemma_find_from_bounds(stack, name, stack.len() - 1);
    lemma_resolve_portal_refuses(stack, name, i + 1, k, r);
}

} // verus!
verus! {

/// Which kind of scope a scope is.
pub open spec fn scope_kind(s: ScopeV) -> int {
    match s {
        ScopeV::Root(_) => 0,
        ScopeV::Portal => 1,
        ScopeV::Frame(_) => 2,
        ScopeV::Block(_) => 3,
    }
}

/// Two stacks hold the same kinds of scopes in the same order.
pub open spec fn same_shape(a: Seq<ScopeV>, b: Seq<ScopeV>) -> bool {
    &&& a.len() == b.len()
    &&& forall|i: int| 0 <= i < a.len() ==> scope_kind(#[trigger] a[i]) == scope_kind(b[i])
}

/// Where the innermost stack frame is depends only on the kinds of scopes.
pub proof fn lemma_frame_index_same_shape(a: Seq<ScopeV>, b: Seq<ScopeV>, i: int)
    requires
        same_shape(a, b),
        i < a.len(),
    ensures
        frame_index_from(a, i) == frame_index_from(b, i),
    decreases i + 1,
{
    if i >= 0 {
        assert(scope_kind(a[i]) == scope_kind(b[i]));
        lemma_frame_index_same_shape(a, b, i - 1);
    }
}

proof fn lemma_resolve_shape(stack: Seq<ScopeV>, name: Seq<char>, j: int, result: NameRef, comptime: bool)
    ensures
        same_shape(stack, resolve(stack, name, j, result, comptime).0),
    decreases stack.len() - j,
{
    if j >= stack.len() || j < 0 {
    } else {
        match stack[j] {
            ScopeV::Frame(frame) => match capture_source(result) {
                Some(from) => {
                    let s2 = stack.update(j, ScopeV::Frame(frame.with_capture(from, name)));
                    lemma_resolve_shape(
                        s2,
                        name,
                        j + 1,
                        NameRef::Capture(CaptureRef { i: frame.captures.len() as usize, comptime: from.spec_comptime() }),
                        comptime,
                    );
                    assert forall|i: int| 0 <= i < stack.len() implies scope_kind(#[trigger] stack[i]) == scope_kind(s2[i]) by {
                        if i == j {
                        }
                    }
                },
                None => lemma_resolve_shape(stack, name, j + 1, result, comptime),
            },
            ScopeV::Portal => if capture_source(result) is Some && !comptime {
            } else {
                lemma_resolve_shape(stack, name, j + 1, result, comptime);
            },
            _ => lemma_resolve_shape(stack, name, j + 1, result, comptime),
        }
    }
}

/// Looking a name up keeps the kinds of scopes.
pub proof fn lemma_lookup_shape(stack: Seq<ScopeV>, name: Seq<char>)
    ensures
        same_shape(stack, spec_lookup(stack, name).0),
{
    match find_from(stack, name, stack.len() - 1) {
        None => {},
        Some((i, r)) => lemma_resolve_shape(stack, name, i + 1, r, name_ref_comptime(r)),
    }
}

/// Defining a local keeps the kinds of scopes.
pub proof fn lemma_define_shape(stack: Seq<ScopeV>, comptime: bool, name: Seq<char>)
    requires
        frame_index_from(stack, stack.len() - 1) != -1,
        stack.len() > 0,
        stack.last() is Block,
    ensures
        ({
            let s = spec_define_stack_frame_local(stack, comptime).0;
            let r = spec_define_stack_frame_local(stack, comptime).1;
            same_shape(stack, s.update(s.len() - 1, ScopeV::Block(s.last()->Block_0.push((name, r)))))
        }),
{
    lemma_frame_index_bounds(stack, stack.len() - 1);
    let i = frame_index_from(stack, stack.len() - 1);
    let s = spec_define_stack_frame_local(stack, comptime).0;
    assert(i != stack.len() - 1);
    assert(s.last() is Block);
}


/// Having the same kinds of scopes is transitive.
pub proof fn lemma_same_shape_trans(a: Seq<ScopeV>, b: Seq<ScopeV>, c: Seq<ScopeV>)
    requires
        same_shape(a, b),
        same_shape(b, c),
    ensures
        same_shape(a, c),
{
    assert forall|i: int| 0 <= i < a.len() implies scope_kind(#[trigger] a[i]) == scope_kind(c[i]) by {
        assert(scope_kind(a[i]) == scope_kind(b[i]));
        assert(scope_kind(b[i]) == scope_kind(c[i]));
    }
}

/// After entering `x` and keeping the kinds of scopes, the innermost
/// scope is of the kind of `x`, and leaving it gives back the kinds of
/// scopes from before.
pub proof fn lemma_push_pop_shape(before: Seq<ScopeV>, x: ScopeV, after: Seq<ScopeV>)
    requires
        same_shape(before.push(x), after),
    ensures
        after.len() == before.len() + 1,
        scope_kind(after.last()) == scope_kind(x),
        same_shape(before, after.drop_last()),
{
    let p = before.push(x);
    assert(scope_kind(p[before.len() as int]) == scope_kind(after[before.len() as int]));
    assert forall|i: int| 0 <= i < before.len() implies scope_kind(#[trigger] before[i]) == scope_kind(after.drop_last()[i]) by {
        assert(p[i] == before[i]);
        assert(scope_kind(p[i]) == scope_kind(after[i]));
    }
}


pub(crate) proof fn lemma_find_from_above(stack: Seq<ScopeV>, name: Seq<char>, top: int, i: int, r: NameRef)
    requires
        top < stack.len(),
        find_from(stack, name, top) == Some((i, r)),
    ensures
        forall|k: int| i < k <= top ==> scope_find(#[trigger] stack[k], name) is None,
        0 <= i <= top,
        scope_find(stack[i], name) == Some(r),
    decreases top + 1,
{
    if top >= 0 && scope_find(stack[top], name) is None {
        lemma_find_from_above(stack, name, top - 1, i, r);
    }
}

proof fn lemma_find_from_prefix(a: Seq<ScopeV>, b: Seq<ScopeV>, name: Seq<char>, i: int)
    requires
        i < a.len(),
        i < b.len(),
        forall|k: int| 0 <= k <= i ==> a[k] == b[k],
    ensures
        find_from(a, name, i) == find_from(b, name, i),
    decreases i + 1,
{
    if i >= 0 {
        lemma_find_from_prefix(a, b, name, i - 1);
    }
}

/// A frame that does not know `name` knows it, after capturing it, as the
/// new capture.
proof fn lemma_find_new_capture(frame: StackFrameV, from: CaptureFrom, name: Seq<char>)
    requires
        frame.find(name) is None,
    ensures
        frame.with_capture(from, name).find(name) == Some(ParamOrCapture::Capture(
            CaptureRef { i: frame.captures.len() as usize, comptime: from.spec_comptime() },
        )),
{
    let f2 = frame.with_capture(from, name);
    lemma_first_index_of(frame.param_names(), name);
    lemma_first_index_of(frame.capture_names(), name);
    assert(f2.param_names() =~= frame.param_names());
    assert(f2.capture_names() =~= frame.capture_names().push(name));
    lemma_first_index_of(f2.capture_names(), name);
    let n = frame.captures.len() as int;
    assert(forall|k: int| 0 <= k < n ==> f2.capture_names()[k] == frame.capture_names()[k]);
    assert(f2.capture_names()[n] == name);
    assert(first_index_of(f2.capture_names(), name) == n);
}

/// What a second lookup meets after `resolve` from `j` gave `out`: either
/// no scope from `j` on knows the name and resolving again from `j` gives
/// `out`, or a scope from `j` on is the innermost to know it and resolving
/// from just above it gives `out`.
spec fn found_again(s: Seq<ScopeV>, name: Seq<char>, j: int, result: NameRef, c: bool, out: (Seq<ScopeV>, Result<NameRef, NameAccessError>)) -> bool {
    ||| {
        &&& forall|k: int| j <= k < s.len() ==> scope_find(#[trigger] s[k], name) is None
        &&& resolve(s, name, j, result, c) == out
    }
    ||| exists|k: int| {
        &&& j <= k < s.len()
        &&& #[trigger] scope_find(s[k], name) is Some
        &&& forall|k2: int| k < k2 < s.len() ==> scope_find(#[trigger] s[k2], name) is None
        &&& resolve(s, name, k + 1, scope_find(s[k], name)->Some_0, name_ref_comptime(scope_find(s[k], name)->Some_0)) == out
    }
}

proof fn lemma_resolve_again(stack: Seq<ScopeV>, name: Seq<char>, j: int, result: NameRef, c: bool)
    requires
        0 <= j,
        forall|k: int| j <= k < stack.len() ==> scope_find(#[trigger] stack[k], name) is None,
        capture_source(result) is Some ==> c == name_ref_comptime(result),
    ensures
        resolve(stack, name, j, result, c).0.len() == stack.len(),
        forall|k: int| 0 <= k < j && k < stack.len() ==> #[trigger] resolve(stack, name, j, result, c).0[k] == stack[k],
        found_again(resolve(stack, name, j, result, c).0, name, j, result, c, resolve(stack, name, j, result, c)),
    decreases stack.len() - j,
{
    let out = resolve(stack, name, j, result, c);
    if j >= stack.len() {
    } else {
        match stack[j] {
            ScopeV::Frame(frame) => match capture_source(result) {
                Some(from) => {
                    let s2 = stack.update(j, ScopeV::Frame(frame.with_capture(from, name)));
                    let r2 = NameRef::Capture(CaptureRef { i: frame.captures.len() as usize, comptime: from.spec_comptime() });
                    assert(from.spec_comptime() == name_ref_comptime(result));
                    assert forall|k: int| j + 1 <= k < s2.len() implies scope_find(#[trigger] s2[k], name) is None by {
                        assert(s2[k] == stack[k]);
                    }
                    lemma_resolve_again(s2, name, j + 1, r2, c);
                    let s3 = out.0;
                    assert(s3[j] == s2[j]);
                    lemma_find_new_capture(frame, from, name);
                    assert(scope_find(s3[j], name) == Some(r2));
                    if forall|k: int| j + 1 <= k < s3.len() ==> scope_find(#[trigger] s3[k], name) is None {
                        assert(resolve(s3, name, j + 1, r2, c) == out);
                        assert(found_again(s3, name, j, result, c, out));
                    } else {
                        let k = choose|k: int| {
                            &&& j + 1 <= k < s3.len()
                            &&& #[trigger] scope_find(s3[k], name) is Some
                            &&& forall|k2: int| k < k2 < s3.len() ==> scope_find(#[trigger] s3[k2], name) is None
                            &&& resolve(s3, name, k + 1, scope_find(s3[k], name)->Some_0, name_ref_comptime(scope_find(s3[k], name)->Some_0)) == out
                        };
                        assert(found_again(s3, name, j, result, c, out));
                    }
                },
                None => {
                    lemma_resolve_again(stack, name, j + 1, result, c);
                    let s3 = out.0;
                    assert(s3[j] == stack[j]);
                    if forall|k: int| j + 1 <= k < s3.len() ==> scope_find(#[trigger] s3[k], name) is None {
                        assert(forall|k: int| j <= k < s3.len() ==> scope_find(#[trigger] s3[k], name) is None);
                        assert(resolve(s3, name, j, result, c) == resolve(s3, name, j + 1, result, c));
                    } else {
                        let k = choose|k: int| {
                            &&& j + 1 <= k < s3.len()
                            &&& #[trigger] scope_find(s3[k], name) is Some
                            &&& forall|k2: int| k < k2 < s3.len() ==> scope_find(#[trigger] s3[k2], name) is None
                            &&& resolve(s3, name, k + 1, scope_find(s3[k], name)->Some_0, name_ref_comptime(scope_find(s3[k], name)->Some_0)) == out
                        };
                        assert(found_again(s3, name, j, result, c, out));
                    }
                },
            },
            ScopeV::Portal => if capture_source(result) is Some && !c {
            } else {
                lemma_resolve_again(stack, name, j + 1, result, c);
                let s3 = out.0;
                assert(s3[j] == stack[j]);
                if forall|k: int| j + 1 <= k < s3.len() ==> scope_find(#[trigger] s3[k], name) is None {
                    assert(forall|k: int| j <= k < s3.len() ==> scope_find(#[trigger] s3[k], name) is None);
                    assert(resolve(s3, name, j, result, c) == resolve(s3, name, j + 1, result, c));
                } else {
                    let k = choose|k: int| {
                        &&& j + 1 <= k < s3.len()
                        &&& #[trigger] scope_find(s3[k], name) is Some
                        &&& forall|k2: int| k < k2 < s3.len() ==> scope_find(#[trigger] s3[k2], name) is None
                        &&& resolve(s3, name, k + 1, scope_find(s3[k], name)->Some_0, name_ref_comptime(scope_find(s3[k], name)->Some_0)) == out
                    };
                    assert(found_again(s3, name, j, result, c, out));
                }
            },
            _ => {
                lemma_resolve_again(stack, name, j + 1, result, c);
                let s3 = out.0;
                assert(s3[j] == stack[j]);
                if forall|k: int| j + 1 <= k < s3.len() ==> scope_find(#[trigger] s3[k], name) is None {
                    assert(forall|k: int| j <= k < s3.len() ==> scope_find(#[trigger] s3[k], name) is None);
                    assert(resolve(s3, name, j, result, c) == resolve(s3, name, j + 1, result, c));
                } else {
                    let k = choose|k: int| {
                        &&& j + 1 <= k < s3.len()
                        &&& #[trigger] scope_find(s3[k], name) is Some
                        &&& forall|k2: int| k < k2 < s3.len() ==> scope_find(#[trigger] s3[k2], name) is None
                        &&& resolve(s3, name, k + 1, scope_find(s3[k], name)->Some_0, name_ref_comptime(scope_find(s3[k], name)->Some_0)) == out
                    };
                    assert(found_again(s3, name, j, result, c, out));
                }
            },
        }
    }
}

/// Looking a name up again gives the answer the first lookup gave, and
/// changes no scope: the second lookup finds the captures the first one
/// made.
pub proof fn lemma_lookup_again(stack: Seq<ScopeV>, name: Seq<char>)
    ensures
        spec_lookup(spec_lookup(stack, name).0, name) == spec_lookup(stack, name),
{
    let top = stack.len() - 1;
    match find_from(stack, name, top) {
        None => {},
        Some((i, r)) => {
            lemma_find_from_above(stack, name, top, i, r);
            let c = name_ref_comptime(r);
            lemma_resolve_again(stack, name, i + 1, r, c);
            let out = resolve(stack, name, i + 1, r, c);
            let s1 = out.0;
            assert(spec_lookup(stack, name) == out);
            if forall|k: int| i + 1 <= k < s1.len() ==> scope_find(#[trigger] s1[k], name) is None {
                lemma_find_from_skip(s1, name, i, top);
                lemma_find_from_prefix(s1, stack, name, i);
                lemma_find_from_prefix(s1, stack, name, i - 1);
                assert(s1[i] == stack[i]);
                assert(find_from(s1, name, i) == Some((i, r)));
            } else {
                let k = choose|k: int| {
                    &&& i + 1 <= k < s1.len()
                    &&& #[trigger] scope_find(s1[k], name) is Some
                    &&& forall|k2: int| k < k2 < s1.len() ==> scope_find(#[trigger] s1[k2], name) is None
                    &&& resolve(s1, name, k + 1, scope_find(s1[k], name)->Some_0, name_ref_comptime(scope_find(s1[k], name)->Some_0)) == out
                };
                lemma_find_from_skip(s1, name, k, top);
                assert(find_from(s1, name, k) == Some((k, scope_find(s1[k], name)->Some_0)));
            }
        },
    }
}


proof fn lemma_resolve_comptime(stack: Seq<ScopeV>, name: Seq<char>, j: int, result: NameRef)
    requires
        0 <= j,
    ensures
        resolve(stack, name, j, result, true).1 is Ok,
        (forall|k: int| j <= k < stack.len() ==> !(#[trigger] stack[k] is Frame))
            ==> resolve(stack, name, j, result, true).1 == Ok::<NameRef, NameAccessError>(result),
    decreases stack.len() - j,
{
    if j < stack.len() {
        match stack[j] {
            ScopeV::Frame(frame) => match capture_source(result) {
                Some(from) => {
                    let next = stack.update(j, ScopeV::Frame(frame.with_capture(from, name)));
                    lemma_resolve_comptime(next, name, j + 1, NameRef::Capture(CaptureRef { i: frame.captures.len() as usize, comptime: from.spec_comptime() }));
                },
                None => lemma_resolve_comptime(stack, name, j + 1, result),
            },
            _ => {
                lemma_resolve_comptime(stack, name, j + 1, result);
                if forall|k: int| j <= k < stack.len() ==> !(#[trigger] stack[k] is Frame) {
                    assert(forall|k: int| j + 1 <= k < stack.len() ==> !(#[trigger] stack[k] is Frame));
                }
            },
        }
    }
}

/// A compile-time name stays reachable from compile-time code: when the
/// innermost scope defining `name` gives a compile-time value, the lookup
/// succeeds through any compile-time portals; with no stack frame between
/// that scope and the innermost one, it gives that very value.
pub proof fn lemma_lookup_comptime_through_portal(stack: Seq<ScopeV>, name: Seq<char>, i: int, r: NameRef)
    requires
        find_from(stack, name, stack.len() - 1) == Some((i, r)),
        name_ref_comptime(r),
    ensures
        spec_lookup(stack, name).1 is Ok,
        (forall|k: int| i < k < stack.len() ==> !(#[trigger] stack[k] is Frame))
            ==> spec_lookup(stack, name).1 == Ok::<NameRef, NameAccessError>(r),
{
    lemma_find_from_bounds(stack, name, stack.len() - 1);
    lemma_resolve_comptime(stack, name, i + 1, r);
    if forall|k: int| i < k < stack.len() ==> !(#[trigger] stack[k] is Frame) {
        assert(forall|k: int| i + 1 <= k < stack.len() ==> !(#[trigger] stack[k] is Frame));
    }
}

} // verus!
