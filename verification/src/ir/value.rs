use vstd::prelude::*;
use crate::ir::Type;

verus! {

/// A value computed at compile time. A float is held as the decimal text
/// it was written as.
#[derive(Debug)]
pub enum Value {
    NoneValue,
    Bool(bool),
    Int(i64),
    Float(String),
    Type(Type),
    StaticClosure(Vec<Value>),
}

/// The mathematical content of a [`Value`].
pub enum ValueV {
    NoneValue,
    Bool(bool),
    Int(i64),
    Float(Seq<char>),
    Type(Type),
    StaticClosure(Seq<ValueV>),
}

impl View for Value {
    type V = ValueV;

    open spec fn view(&self) -> ValueV
        decreases self,
    {
        match self {
            Value::NoneValue => ValueV::NoneValue,
            Value::Bool(b) => ValueV::Bool(*b),
            Value::Int(i) => ValueV::Int(*i),
            Value::Float(f) => ValueV::Float(f@),
            Value::Type(t) => ValueV::Type(*t),
            Value::StaticClosure(vs) => ValueV::StaticClosure(
                Seq::new(vs@.len(), |j: int| if 0 <= j < vs@.len() { vs@[j]@ } else { ValueV::NoneValue }),
            ),
        }
    }
}

impl Clone for Value {
    fn clone(&self) -> (r: Self)
        ensures
            r@ == self@,
    {
        self.deep_clone()
    }
}

impl Value {
    /// A copy of the value, closures copied element by element.
    pub fn deep_clone(&self) -> (r: Value)
        ensures
            r@ == self@,
        decreases self,
    {
        match self {
            Value::NoneValue => Value::NoneValue,
            Value::Bool(b) => Value::Bool(*b),
            Value::Int(i) => Value::Int(*i),
            Value::Float(f) => Value::Float(f.clone()),
            Value::Type(t) => Value::Type(*t),
            Value::StaticClosure(vs) => {
                let mut out: Vec<Value> = Vec::new();
                let mut k: usize = 0;
                while k < vs.len()
                    invariant
                        k <= vs@.len(),
                        *self == Value::StaticClosure(*vs),
                        out@.len() == k,
                        forall|j: int| 0 <= j < k ==> out@[j]@ == vs@[j]@,
                    decreases vs@.len() - k,
                {
                    proof {
                        let ghost whole = *self;
                        assert(decreases_to!(whole => whole->StaticClosure_0));
                        assert(decreases_to!(whole->StaticClosure_0 => vs@));
                    }
                    out.push(vs[k].deep_clone());
                    k += 1;
                }
                let r = Value::StaticClosure(out);
                proof {
                    if let ValueV::StaticClosure(a) = r@ {
                        if let ValueV::StaticClosure(b) = self@ {
                            assert(a =~= b);
                        }
                    }
                }
                r
            },
        }
    }

    /// Checks that the value is `None`.
    pub fn assert_none(&self)
        requires
            self is NoneValue,
    {
    }

    /// The boolean held by a `Bool` value.
    pub fn assert_bool(&self) -> (r: bool)
        requires
            self is Bool,
        ensures
            r == self->Bool_0,
    {
        match self {
            Value::Bool(value) => *value,
            _ => vstd::pervasive::unreached(),
        }
    }

    /// The integer held by an `Int` value.
    pub fn assert_int(&self) -> (r: i64)
        requires
            self is Int,
        ensures
            r == self->Int_0,
    {
        match self {
            Value::Int(value) => *value,
            _ => vstd::pervasive::unreached(),
        }
    }

    /// The decimal text held by a `Float` value.
    pub fn assert_float(&self) -> (r: &String)
        requires
            self is Float,
        ensures
            *r == self->Float_0,
    {
        match self {
            Value::Float(value) => value,
            _ => vstd::pervasive::unreached(),
        }
    }

    /// The type held by a `Type` value.
    pub fn assert_type(&self) -> (r: &Type)
        requires
            self is Type,
        ensures
            *r == self->Type_0,
    {
        match self {
            Value::Type(value) => value,
            _ => vstd::pervasive::unreached(),
        }
    }

    /// The captured values of a closure.
    pub fn assert_static_closure(&self) -> (r: &Vec<Value>)
        requires
            self is StaticClosure,
        ensures
            *r == self->StaticClosure_0,
    {
        match self {
            Value::StaticClosure(value) => value,
            _ => vstd::pervasive::unreached(),
        }
    }

    /// The captured values of a closure, taking the value apart.
    pub fn into_static_closure(self) -> (r: Vec<Value>)
        requires
            self is StaticClosure,
        ensures
            r == self->StaticClosure_0,
    {
        match self {
            Value::StaticClosure(value) => value,
            _ => vstd::pervasive::unreached(),
        }
    }

    /// The type of a value other than a closure.
    pub fn type_of(&self) -> (r: Type)
        requires
            !(self is StaticClosure),
        ensures
            r == spec_type_of(*self),
    {
        match self {
            Value::NoneValue => Type::NoneType,
            Value::Bool(_) => Type::Bool,
            Value::Int(_) => Type::Int,
            Value::Float(_) => Type::Float,
            Value::Type(_) => Type::Type,
            Value::StaticClosure(_) => vstd::pervasive::unreached(),
        }
    }
}

/// The type of a value other than a closure.
pub open spec fn spec_type_of(v: Value) -> Type {
    match v {
        Value::NoneValue => Type::NoneType,
        Value::Bool(_) => Type::Bool,
        Value::Int(_) => Type::Int,
        Value::Float(_) => Type::Float,
        Value::Type(_) => Type::Type,
        Value::StaticClosure(_) => Type::Any,
    }
}

} // verus!
