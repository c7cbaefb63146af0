use vstd::prelude::*;
use crate::ast::location::{Location, LocationV};

verus! {

/// A node of the syntax tree with its source location.
#[derive(Debug)]
pub struct AST {
    pub value: Value,
    pub location: Location,
}

/// The kinds of syntax tree nodes.
#[derive(Debug)]
pub enum Value {
    Literal(Literal),
    Block(Vec<AST>),
    Function(Function),
    Call {
        // may_be_var_call == this being None
        target: Option<Box<AST>>,
        name: String,
        args: Vec<AST>,
    },
    Let {
        name: String,
        value: Box<AST>,
        recursive: bool,
        comptime: bool,
    },
    NameRef(String),
    If {
        condition: Box<AST>,
        on_true: Box<AST>,
        on_false: Option<Box<AST>>,
    },
    FnType {
        params: Vec<TypeParam>,
        return_type: Box<AST>,
    },
    TypeAssert {
        value: Box<AST>,
        typ: Box<AST>,
    },
    CompileTimeExpr(Box<AST>),
}

/// A function literal.
#[derive(Debug)]
pub struct Function {
    pub params: Vec<Param>,
    pub body: Box<AST>,
    pub return_type: Option<Box<AST>>,
}

/// A literal value. A decimal literal is kept as the text it was written as.
#[derive(Debug)]
pub enum Literal {
    Int(i64),
    Bool(bool),
    Float(String),
    String(String),
}

/// A parameter of a function literal.
#[derive(Debug)]
pub struct Param {
    pub name: String,
    pub comptime: bool,
    pub typ: Option<Pattern>,
    pub location: Location,
}

/// A parameter of a function type.
#[derive(Debug)]
pub struct TypeParam {
    pub name: String,
    pub typ: AST,
    pub location: Location,
}

/// A pattern with its source location.
#[derive(Debug)]
pub struct Pattern {
    pub value: PatternValue,
    pub location: Location,
}

/// The kinds of patterns.
#[derive(Debug)]
pub enum PatternValue {
    SpecificValue(AST),
    Binding(String),
    Call {
        // may_be_var_call == this being None
        target: Option<Box<AST>>,
        name: String,
        args: Vec<Pattern>,
    },
    FunctionType {
        params: Vec<PatternParam>,
        return_type: Box<Pattern>,
    },
}

/// A parameter of a function type pattern.
#[derive(Debug)]
pub struct PatternParam {
    pub name: String,
    pub typ: Pattern,
    pub location: Location,
}

// ---------------------------------------------------------------------------
// The content of the syntax tree.

pub struct ASTV {
    pub value: ValueV,
    pub location: LocationV,
}

pub enum ValueV {
    Literal(LiteralV),
    Block(Seq<ASTV>),
    Function(FunctionV),
    Call { target: Option<Box<ASTV>>, name: Seq<char>, args: Seq<ASTV> },
    Let { name: Seq<char>, value: Box<ASTV>, recursive: bool, comptime: bool },
    NameRef(Seq<char>),
    If { condition: Box<ASTV>, on_true: Box<ASTV>, on_false: Option<Box<ASTV>> },
    FnType { params: Seq<TypeParamV>, return_type: Box<ASTV> },
    TypeAssert { value: Box<ASTV>, typ: Box<ASTV> },
    CompileTimeExpr(Box<ASTV>),
}

pub struct FunctionV {
    pub params: Seq<ParamV>,
    pub body: Box<ASTV>,
    pub return_type: Option<Box<ASTV>>,
}

pub enum LiteralV {
    Int(i64),
    Bool(bool),
    Float(Seq<char>),
    String(Seq<char>),
}

pub struct ParamV {
    pub name: Seq<char>,
    pub comptime: bool,
    pub typ: Option<PatternV>,
    pub location: LocationV,
}

pub struct TypeParamV {
    pub name: Seq<char>,
    pub typ: ASTV,
    pub location: LocationV,
}

pub struct PatternV {
    pub value: PatternValueV,
    pub location: LocationV,
}

pub enum PatternValueV {
    SpecificValue(ASTV),
    Binding(Seq<char>),
    Call { target: Option<Box<ASTV>>, name: Seq<char>, args: Seq<PatternV> },
    FunctionType { params: Seq<PatternParamV>, return_type: Box<PatternV> },
}

pub struct PatternParamV {
    pub name: Seq<char>,
    pub typ: PatternV,
    pub location: LocationV,
}

impl View for AST {
    type V = ASTV;

    open spec fn view(&self) -> ASTV
        decreases self, 0int,
    {
        ASTV { value: value_view(&self.value), location: self.location@ }
    }
}

pub open spec fn value_view(v: &Value) -> ValueV
    decreases v, 0int,
{
    match v {
        Value::Literal(l) => ValueV::Literal(l@),
        Value::Block(asts) => ValueV::Block(ast_seq_view(asts@)),
        Value::Function(f) => ValueV::Function(function_view(f)),
        Value::Call { target, name, args } => ValueV::Call {
            target: match target { Some(t) => Some(Box::new((**t)@)), None => None },
            name: name@,
            args: ast_seq_view(args@),
        },
        Value::Let { name, value, recursive, comptime } => ValueV::Let {
            name: name@,
            value: Box::new((**value)@),
            recursive: *recursive,
            comptime: *comptime,
        },
        Value::NameRef(name) => ValueV::NameRef(name@),
        Value::If { condition, on_true, on_false } => ValueV::If {
            condition: Box::new((**condition)@),
            on_true: Box::new((**on_true)@),
            on_false: match on_false { Some(t) => Some(Box::new((**t)@)), None => None },
        },
        Value::FnType { params, return_type } => ValueV::FnType {
            params: Seq::new(params@.len(), |i: int| if 0 <= i < params@.len() { type_param_view(&params@[i]) } else { arbitrary() }),
            return_type: Box::new((**return_type)@),
        },
        Value::TypeAssert { value, typ } => ValueV::TypeAssert { value: Box::new((**value)@), typ: Box::new((**typ)@) },
        Value::CompileTimeExpr(e) => ValueV::CompileTimeExpr(Box::new((**e)@)),
    }
}

/// The content of a sequence of syntax trees.
pub open spec fn ast_seq_view(asts: Seq<AST>) -> Seq<ASTV>
    decreases asts, 0int,
{
    Seq::new(asts.len(), |i: int| if 0 <= i < asts.len() { asts[i]@ } else { arbitrary() })
}

/// The content of a function literal.
pub open spec fn function_view(f: &Function) -> FunctionV
    decreases f, 0int,
{
    FunctionV {
        params: Seq::new(f.params@.len(), |i: int| if 0 <= i < f.params@.len() { param_view(&f.params@[i]) } else { arbitrary() }),
        body: Box::new((*f.body)@),
        return_type: match &f.return_type { Some(t) => Some(Box::new((**t)@)), None => None },
    }
}

pub open spec fn param_view(p: &Param) -> ParamV
    decreases p, 0int,
{
    ParamV {
        name: p.name@,
        comptime: p.comptime,
        typ: match &p.typ { Some(t) => Some(pattern_view(t)), None => None },
        location: p.location@,
    }
}

pub open spec fn type_param_view(p: &TypeParam) -> TypeParamV
    decreases p, 0int,
{
    TypeParamV { name: p.name@, typ: p.typ@, location: p.location@ }
}

pub open spec fn pattern_view(p: &Pattern) -> PatternV
    decreases p, 0int,
{
    PatternV { value: pattern_value_view(&p.value), location: p.location@ }
}

pub open spec fn pattern_value_view(v: &PatternValue) -> PatternValueV
    decreases v, 0int,
{
    match v {
        PatternValue::SpecificValue(ast) => PatternValueV::SpecificValue(ast@),
        PatternValue::Binding(name) => PatternValueV::Binding(name@),
        PatternValue::Call { target, name, args } => PatternValueV::Call {
            target: match target { Some(t) => Some(Box::new((**t)@)), None => None },
            name: name@,
            args: Seq::new(args@.len(), |i: int| if 0 <= i < args@.len() { pattern_view(&args@[i]) } else { arbitrary() }),
        },
        PatternValue::FunctionType { params, return_type } => PatternValueV::FunctionType {
            params: Seq::new(params@.len(), |i: int| if 0 <= i < params@.len() { pattern_param_view(&params@[i]) } else { arbitrary() }),
            return_type: Box::new(pattern_view(&**return_type)),
        },
    }
}

pub open spec fn pattern_param_view(p: &PatternParam) -> PatternParamV
    decreases p, 0int,
{
    PatternParamV { name: p.name@, typ: pattern_view(&p.typ), location: p.location@ }
}

impl View for Literal {
    type V = LiteralV;

    open spec fn view(&self) -> LiteralV {
        match self {
            Literal::Int(i) => LiteralV::Int(*i),
            Literal::Bool(b) => LiteralV::Bool(*b),
            Literal::Float(s) => LiteralV::Float(s@),
            Literal::String(s) => LiteralV::String(s@),
        }
    }
}

impl View for Function {
    type V = FunctionV;

    open spec fn view(&self) -> FunctionV {
        function_view(self)
    }
}

impl View for Pattern {
    type V = PatternV;

    open spec fn view(&self) -> PatternV {
        pattern_view(self)
    }
}

impl View for Param {
    type V = ParamV;

    open spec fn view(&self) -> ParamV {
        param_view(self)
    }
}

impl View for TypeParam {
    type V = TypeParamV;

    open spec fn view(&self) -> TypeParamV {
        type_param_view(self)
    }
}

impl View for PatternParam {
    type V = PatternParamV;

    open spec fn view(&self) -> PatternParamV {
        pattern_param_view(self)
    }
}

} // verus!
