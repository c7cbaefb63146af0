//! The tagged value that compiled code passes around at run time: a type
//! tag and a 64-bit payload.
use vstd::prelude::*;

verus! {

/// What a run-time value is: a plain value, a type, or something callable.
#[derive(Debug, Copy, Clone, PartialEq, Eq, Structural)]
pub enum AnyT {
    NoneValue,
    Bool,
    Int,
    Float,

    AnyT,
    TypeT,
    NoneT,
    BoolT,
    IntT,
    FloatT,

    Closure,
    FunctionPtr,
}

/// The number that stands for each tag in compiled code: its place in the
/// declaration, from zero.
pub open spec fn tag_number(t: AnyT) -> i32 {
    match t {
        AnyT::NoneValue => 0,
        AnyT::Bool => 1,
        AnyT::Int => 2,
        AnyT::Float => 3,
        AnyT::AnyT => 4,
        AnyT::TypeT => 5,
        AnyT::NoneT => 6,
        AnyT::BoolT => 7,
        AnyT::IntT => 8,
        AnyT::FloatT => 9,
        AnyT::Closure => 10,
        AnyT::FunctionPtr => 11,
    }
}

impl AnyT {
    /// The number that stands for this tag in compiled code.
    pub fn into_raw(self) -> (r: i32)
        ensures
            r == tag_number(self),
    {
        match self {
            AnyT::NoneValue => 0,
            AnyT::Bool => 1,
            AnyT::Int => 2,
            AnyT::Float => 3,
            AnyT::AnyT => 4,
            AnyT::TypeT => 5,
            AnyT::NoneT => 6,
            AnyT::BoolT => 7,
            AnyT::IntT => 8,
            AnyT::FloatT => 9,
            AnyT::Closure => 10,
            AnyT::FunctionPtr => 11,
        }
    }
}

/// A run-time value: its tag and its payload. A boolean is held as 0 or 1,
/// a float as its bits, a type with payload 0.
#[derive(Debug, Copy, Clone, PartialEq, Eq, Structural)]
pub struct Any {
    pub typ: AnyT,
    val: i64,
}

impl Any {
    /// The tag.
    pub closed spec fn tag(self) -> AnyT {
        self.typ
    }

    /// The payload.
    pub closed spec fn payload(self) -> i64 {
        self.val
    }

    /// The `None` value, tagged `NoneValue`.
    pub fn none() -> (r: Self)
        ensures
            r.tag() == AnyT::NoneValue,
            r.payload() == 0,
    {
        Any { typ: AnyT::NoneValue, val: 0 }
    }

    /// A boolean: payload 1 for true, 0 for false.
    pub fn bool(value: bool) -> (r: Self)
        ensures
            r.tag() == AnyT::Bool,
            r.payload() == (if value { 1i64 } else { 0i64 }),
    {
        Any { typ: AnyT::Bool, val: if value { 1 } else { 0 } }
    }

    /// An integer.
    pub fn int_value(value: i64) -> (r: Self)
        ensures
            r.tag() == AnyT::Int,
            r.payload() == value,
    {
        Any { typ: AnyT::Int, val: value }
    }

    /// A float, given by the bits of its IEEE 754 representation.
    pub fn float_from_bits(bits: i64) -> (r: Self)
        ensures
            r.tag() == AnyT::Float,
            r.payload() == bits,
    {
        Any { typ: AnyT::Float, val: bits }
    }

    /// The type of all values.
    pub fn any_type() -> (r: Self)
        ensures
            r.tag() == AnyT::AnyT,
            r.payload() == 0,
    {
        Any { typ: AnyT::AnyT, val: 0 }
    }

    /// The type of types.
    pub fn type_type() -> (r: Self)
        ensures
            r.tag() == AnyT::TypeT,
            r.payload() == 0,
    {
        Any { typ: AnyT::TypeT, val: 0 }
    }

    /// The type of `None`.
    pub fn none_type() -> (r: Self)
        ensures
            r.tag() == AnyT::NoneT,
            r.payload() == 0,
    {
        Any { typ: AnyT::NoneT, val: 0 }
    }

    /// The type of booleans.
    pub fn bool_type() -> (r: Self)
        ensures
            r.tag() == AnyT::BoolT,
            r.payload() == 0,
    {
        Any { typ: AnyT::BoolT, val: 0 }
    }

    /// The value handed out for the type of integers. It carries the tag
    /// of the boolean type, `BoolT`, not `IntT`.
    pub fn int_type() -> (r: Self)
        ensures
            r.tag() == AnyT::BoolT,
            r.payload() == 0,
    {
        Any { typ: AnyT::BoolT, val: 0 }
    }

    /// The type of floats.
    pub fn float_type() -> (r: Self)
        ensures
            r.tag() == AnyT::FloatT,
            r.payload() == 0,
    {
        Any { typ: AnyT::FloatT, val: 0 }
    }

    /// The tag's number and the payload, as compiled code holds them.
    pub fn into_raw(self) -> (r: (i32, i64))
        ensures
            r == (tag_number(self.tag()), self.payload()),
    {
        (self.typ.into_raw(), self.val)
    }

    /// Checks that the value is `None`.
    pub fn assert_none(self)
        requires
            self.tag() == AnyT::NoneValue,
    {
    }

    /// The boolean a `Bool` value holds: whether its payload is not 0.
    pub fn assert_bool(self) -> (r: bool)
        requires
            self.tag() == AnyT::Bool,
        ensures
            r == (self.payload() != 0),
    {
        self.val != 0
    }

    /// The integer an `Int` value holds.
    pub fn assert_int(self) -> (r: i64)
        requires
            self.tag() == AnyT::Int,
        ensures
            r == self.payload(),
    {
        self.val
    }

    /// The bits of the float a `Float` value holds.
    pub fn assert_float_bits(self) -> (r: i64)
        requires
            self.tag() == AnyT::Float,
        ensures
            r == self.payload(),
    {
        self.val
    }
}

/// A value made from a boolean gives that boolean back, and one made from
/// an integer gives that integer back.
pub proof fn lemma_bool_int_round_trip(b: bool, i: i64, vb: Any, vi: Any)
    requires
        vb.tag() == AnyT::Bool,
        vb.payload() == (if b { 1i64 } else { 0i64 }),
        vi.tag() == AnyT::Int,
        vi.payload() == i,
    ensures
        (vb.payload() != 0) == b,
        vi.payload() == i,
{
}

} // verus!
