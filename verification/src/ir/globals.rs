use vstd::prelude::*;
use crate::ir::{Type, Value};

verus! {

/// The names every program can refer to.
pub struct Globals {
    pub globals: Vec<Global>,
}

/// A named value known before the program runs.
#[derive(Debug)]
pub struct Global {
    pub name: String,
    pub value: Value,
    pub comptime: bool,
}

impl Clone for Global {
    fn clone(&self) -> (r: Self)
        ensures
            r.name == self.name,
            r.value@ == self.value@,
            r.comptime == self.comptime,
    {
        Global { name: self.name.clone(), value: self.value.clone(), comptime: self.comptime }
    }
}

/// The names of the built-in globals, in the order `Globals::new` lists them.
pub open spec fn builtin_global_names() -> Seq<Seq<char>> {
    seq![seq!['T', 'y', 'p', 'e'], seq!['A', 'n', 'y'], seq!['N', 'o', 'n', 'e'], seq!['B', 'o', 'o', 'l'], seq!['I', 'n', 't'], seq!['F', 'l', 'o', 'a', 't']]
}

/// The types the built-in globals hold, in the same order.
pub open spec fn builtin_global_types() -> Seq<Type> {
    seq![Type::Type, Type::Any, Type::NoneType, Type::Bool, Type::Int, Type::Float]
}

impl Globals {
    /// The built-in globals: one compile-time type value for each of `Type`,
    /// `Any`, `None`, `Bool`, `Int` and `Float`.
    pub fn new() -> (r: Self)
        ensures
            r.globals@.len() == 6,
            forall|i: int| 0 <= i < 6 ==> {
                &&& (#[trigger] r.globals@[i]).name@ == builtin_global_names()[i]
                &&& r.globals@[i].value == Value::Type(builtin_global_types()[i])
                &&& r.globals@[i].comptime
            },
    {
        let mut globals = Vec::new();
        globals.push(Global { name: "Type".to_string(), value: Value::Type(Type::Type), comptime: true });
        globals.push(Global { name: "Any".to_string(), value: Value::Type(Type::Any), comptime: true });
        globals.push(Global { name: "None".to_string(), value: Value::Type(Type::NoneType), comptime: true });
        globals.push(Global { name: "Bool".to_string(), value: Value::Type(Type::Bool), comptime: true });
        globals.push(Global { name: "Int".to_string(), value: Value::Type(Type::Int), comptime: true });
        globals.push(Global { name: "Float".to_string(), value: Value::Type(Type::Float), comptime: true });
        proof {
            reveal_strlit("Type");
            reveal_strlit("Any");
            reveal_strlit("None");
            reveal_strlit("Bool");
            reveal_strlit("Int");
            reveal_strlit("Float");
        }
        Globals { globals }
    }
}

} // verus!
