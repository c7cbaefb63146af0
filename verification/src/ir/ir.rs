use vstd::prelude::*;
use crate::ast::{Location, LocationV};
use crate::ir::Value;
use crate::ir::value::ValueV;

verus! {

/// A whole program: the function templates it defines and its main function.
#[derive(Debug)]
pub struct Module {
    pub functions: Vec<Function>,
    pub main: Function,
}

/// A function template: what it captures, its parameters and locals, and
/// its body.
#[derive(Debug)]
pub struct Function {
    pub captures: Vec<Capture>,
    pub params: Vec<Param>,
    pub locals: Vec<Local>,
    pub return_type: Option<IR>,
    pub body: IR,
}

/// A value a function takes from the scope it was created in.
#[derive(Debug, Clone, Copy, PartialEq, Eq, Structural)]
pub struct Capture {
    pub from: CaptureFrom,
    pub comptime: bool,
}

/// A function parameter, with the code computing its declared type.
#[derive(Debug)]
pub struct Param {
    pub typ: Option<Box<IR>>,
    pub comptime: bool,
}

/// A slot of a function's stack frame.
#[derive(Debug, Clone, Copy, PartialEq, Eq, Structural)]
pub struct Local {
    pub comptime: bool,
}

/// A node of code with the source location it came from.
#[derive(Debug)]
pub struct IR {
    pub node: Node,
    pub location: Location,
}

/// The kinds of code in the intermediate representation.
#[derive(Debug)]
pub enum Node {
    Nop,
    Constant(Value),
    GlobalRef(GlobalRef),
    ParamRef(ParamRef),
    LocalRef(LocalRef),
    CaptureRef(CaptureRef),
    LocalSet(LocalRef, Box<IR>),
    Block(Vec<IR>),
    Comptime(Box<IR>),
    Call(String, Box<IR>, Vec<IR>),
    CreateClosure(FunctionTemplateRef, Vec<CaptureFrom>),
    If(Box<IR>, Box<IR>, Option<Box<IR>>),
}

#[derive(Copy, Clone, Debug, Hash, PartialEq, Eq, Structural)]
pub struct FunctionTemplateRef {
    pub i: usize,
}

#[derive(Copy, Clone, Debug, Hash, PartialEq, Eq, Structural)]
pub struct FunctionRef {
    pub i: usize,
}

#[derive(Debug, Copy, Clone, Hash, PartialEq, Eq, Structural)]
pub struct GlobalRef {
    pub i: usize,
    pub comptime: bool,
}

#[derive(Debug, Copy, Clone, Hash, PartialEq, Eq, Structural)]
pub struct CaptureRef {
    pub i: usize,
    pub comptime: bool,
}

#[derive(Debug, Copy, Clone, Hash, PartialEq, Eq, Structural)]
pub struct ParamRef {
    pub i: usize,
    pub comptime: bool,
}

#[derive(Debug, Copy, Clone, Hash, PartialEq, Eq, Structural)]
pub struct LocalRef {
    pub i: usize,
    pub comptime: bool,
}

/// Where a captured value comes from in the enclosing function.
#[derive(Debug, Clone, Copy, PartialEq, Eq, Structural)]
pub enum CaptureFrom {
    Capture(CaptureRef),
    Param(ParamRef),
    Local(LocalRef),
}

impl CaptureFrom {
    /// Whether the captured value is only available at compile time.
    pub open spec fn spec_comptime(self) -> bool {
        match self {
            CaptureFrom::Capture(r) => r.comptime,
            CaptureFrom::Param(r) => r.comptime,
            CaptureFrom::Local(r) => r.comptime,
        }
    }
}

// ---------------------------------------------------------------------------
// The content of code.

/// The content of an [`IR`].
pub struct IRV {
    pub node: NodeV,
    pub location: LocationV,
}

/// The content of a [`Node`].
pub enum NodeV {
    Nop,
    Constant(ValueV),
    GlobalRef(GlobalRef),
    ParamRef(ParamRef),
    LocalRef(LocalRef),
    CaptureRef(CaptureRef),
    LocalSet(LocalRef, Box<IRV>),
    Block(Seq<IRV>),
    Comptime(Box<IRV>),
    Call(Seq<char>, Box<IRV>, Seq<IRV>),
    CreateClosure(FunctionTemplateRef, Seq<CaptureFrom>),
    If(Box<IRV>, Box<IRV>, Option<Box<IRV>>),
}

/// The content of a [`Param`].
pub struct ParamV {
    pub typ: Option<IRV>,
    pub comptime: bool,
}

/// The content of a [`Function`].
pub struct FunctionV {
    pub captures: Seq<Capture>,
    pub params: Seq<ParamV>,
    pub locals: Seq<Local>,
    pub return_type: Option<IRV>,
    pub body: IRV,
}

/// The content of a [`Module`].
pub struct ModuleV {
    pub functions: Seq<FunctionV>,
    pub main: FunctionV,
}

impl View for IR {
    type V = IRV;

    open spec fn view(&self) -> IRV
        decreases self, 0int,
    {
        IRV { node: node_view(&self.node), location: self.location@ }
    }
}

/// The content of a sequence of code.
pub open spec fn ir_seq_view(irs: Seq<IR>) -> Seq<IRV>
    decreases irs, 0int,
{
    Seq::new(irs.len(), |i: int| if 0 <= i < irs.len() { irs[i]@ } else { arbitrary() })
}

/// The content of a node.
pub open spec fn node_view(n: &Node) -> NodeV
    decreases n, 0int,
{
    match n {
        Node::Nop => NodeV::Nop,
        Node::Constant(v) => NodeV::Constant(v@),
        Node::GlobalRef(r) => NodeV::GlobalRef(*r),
        Node::ParamRef(r) => NodeV::ParamRef(*r),
        Node::LocalRef(r) => NodeV::LocalRef(*r),
        Node::CaptureRef(r) => NodeV::CaptureRef(*r),
        Node::LocalSet(r, v) => NodeV::LocalSet(*r, Box::new((**v)@)),
        Node::Block(irs) => NodeV::Block(ir_seq_view(irs@)),
        Node::Comptime(v) => NodeV::Comptime(Box::new((**v)@)),
        Node::Call(name, target, args) => NodeV::Call(
            name@,
            Box::new((**target)@),
            ir_seq_view(args@),
        ),
        Node::CreateClosure(f, froms) => NodeV::CreateClosure(*f, froms@),
        Node::If(c, t, e) => NodeV::If(
            Box::new((**c)@),
            Box::new((**t)@),
            match e {
                Some(e) => Some(Box::new((**e)@)),
                None => None,
            },
        ),
    }
}

impl View for Param {
    type V = ParamV;

    open spec fn view(&self) -> ParamV {
        ParamV {
            typ: match &self.typ {
                Some(t) => Some((**t)@),
                None => None,
            },
            comptime: self.comptime,
        }
    }
}

impl View for Function {
    type V = FunctionV;

    open spec fn view(&self) -> FunctionV {
        FunctionV {
            captures: self.captures@,
            params: self.params@.map_values(|p: Param| p@),
            locals: self.locals@,
            return_type: match &self.return_type {
                Some(t) => Some(t@),
                None => None,
            },
            body: self.body@,
        }
    }
}

impl View for Module {
    type V = ModuleV;

    open spec fn view(&self) -> ModuleV {
        ModuleV { functions: self.functions@.map_values(|f: Function| f@), main: self.main@ }
    }
}

} // verus!
