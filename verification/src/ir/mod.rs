//! The intermediate representation: types, values, code, and the builder
//! that lowers a syntax tree to it.

pub mod ir;
pub mod value;
pub mod types;
pub mod globals;

pub use ir::{
    Capture, CaptureFrom, CaptureRef, Function, FunctionRef, FunctionTemplateRef, GlobalRef, IR,
    Local, LocalRef, Module, Node, Param, ParamRef,
};
pub use value::{Value, spec_type_of};
pub use types::{FunctionSignature, IntrinsicFn, Type};
pub use globals::{Global, Globals};
pub mod lexical_scope;
pub mod lowering;
pub mod builder;
pub mod ref_bounds;
