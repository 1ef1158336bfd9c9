use vstd::prelude::*;
use crate::symbolizer::Symbol;

verus! {

/// The static type of a scalar. As bit sets, `String | Float == Variable`.
#[derive(PartialEq, Eq, Structural, PartialOrd, Clone, Copy, Debug)]
pub enum ScalarType {
    String,
    Float,
    Variable,
}

pub open spec fn scalar_bits(t: ScalarType) -> i32 {
    match t {
        ScalarType::String => 1,
        ScalarType::Float => 2,
        ScalarType::Variable => 3,
    }
}

/// As bit sets, a string type and a float type together make the type of a
/// variable that may hold either: `String | Float == Variable`.
pub proof fn law_string_or_float_is_variable()
    ensures
        scalar_bits(ScalarType::String) | scalar_bits(ScalarType::Float) == scalar_bits(ScalarType::Variable),
{
    assert(1i32 | 2i32 == 3i32) by (bit_vector);
}

/// Each scalar type has its own bit set.
pub proof fn law_scalar_bits_distinct(a: ScalarType, b: ScalarType)
    ensures
        scalar_bits(a) == scalar_bits(b) <==> a == b,
{
}

impl ScalarType {
    /// The bit-set encoding of the type.
    pub fn bits(&self) -> (b: i32)
        ensures
            b == scalar_bits(*self),
    {
        match self {
            ScalarType::String => 1,
            ScalarType::Float => 2,
            ScalarType::Variable => 3,
        }
    }

    /// The type whose bit set is `bits`, when there is one.
    pub fn from_bits(bits: i32) -> (t: Option<ScalarType>)
        ensures
            t matches Some(x) ==> scalar_bits(x) == bits,
            t is None <==> !(1 <= bits <= 3),
    {
        if bits == 1 {
            Some(ScalarType::String)
        } else if bits == 2 {
            Some(ScalarType::Float)
        } else if bits == 3 {
            Some(ScalarType::Variable)
        } else {
            None
        }
    }

    /// The scalar type as an awk type.
    pub fn into_awk_t(self) -> (t: AwkT)
        ensures
            t == AwkT::Scalar(self),
    {
        AwkT::Scalar(self)
    }
}

/// The static type of an awk variable.
#[derive(PartialEq, Eq, Structural, PartialOrd, Clone, Copy, Debug)]
pub enum AwkT {
    Scalar(ScalarType),
    Array,
}

/// What kind of value a function argument is.
#[derive(Debug, PartialEq, Eq, Structural, PartialOrd, Copy, Clone)]
pub enum ArgT {
    Scalar,
    Array,
    Unknown,
}

impl ArgT {
    /// The one-letter name the argument type is shown with.
    pub fn letter(&self) -> (s: &'static str)
        ensures
            *self is Scalar ==> s@ == "s"@,
            *self is Array ==> s@ == "a"@,
            *self is Unknown ==> s@ == "u"@,
    {
        match self {
            ArgT::Scalar => "s",
            ArgT::Array => "a",
            ArgT::Unknown => "u",
        }
    }
}

/// A function argument: its name, its kind, and whether a builtin lets the
/// caller leave it out (as `split(string, arr [, fs])` does its third).
#[derive(Debug)]
pub struct Arg {
    pub name: Symbol,
    pub typ: ArgT,
    pub builtin_optional: bool,
}

impl Arg {
    pub fn new(name: Symbol, typ: ArgT) -> (a: Self)
        ensures
            a.name == name,
            a.typ == typ,
            !a.builtin_optional,
    {
        Self { name, typ, builtin_optional: false }
    }

    pub fn new_optional(name: Symbol, typ: ArgT) -> (a: Self)
        ensures
            a.name == name,
            a.typ == typ,
            a.builtin_optional,
    {
        Self { name, typ, builtin_optional: true }
    }

    pub fn new_scl(name: Symbol) -> (a: Self)
        ensures
            a.name == name,
            a.typ == ArgT::Scalar,
            !a.builtin_optional,
    {
        Self { name, typ: ArgT::Scalar, builtin_optional: false }
    }

    pub fn new_arr(name: Symbol) -> (a: Self)
        ensures
            a.name == name,
            a.typ == ArgT::Array,
            !a.builtin_optional,
    {
        Self { name, typ: ArgT::Array, builtin_optional: false }
    }
}

} // verus!
