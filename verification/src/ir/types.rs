use vstd::prelude::*;
use crate::ir::FunctionTemplateRef;

verus! {

/// The type of a value in the intermediate representation.
#[derive(Clone, Copy, Debug, PartialEq, Eq, Structural)]
pub enum Type {
    Any,
    NoneType,
    Bool,
    Int,
    Float,
    Type,
    Closure(FunctionTemplateRef),
}

/// Functions that the compiler implements itself.
#[derive(Debug, Clone, Copy, PartialEq, Eq, Structural)]
pub enum IntrinsicFn {
    AddInt,
}

/// Parameter types and return type of a function.
#[derive(Clone, Debug)]
pub struct FunctionSignature {
    pub params: Vec<Type>,
    pub returns: Type,
}

impl IntrinsicFn {
    /// The signature of the intrinsic; the argument types do not change it.
    pub fn signature(&self, _arg_types: &[Type]) -> (r: FunctionSignature)
        ensures
            match self {
                IntrinsicFn::AddInt => r.params@ == seq![Type::Int, Type::Int] && r.returns == Type::Int,
            },
    {
        match self {
            IntrinsicFn::AddInt => FunctionSignature { params: vec![Type::Int, Type::Int], returns: Type::Int },
        }
    }
}

} // verus!
