//! The dynamic values that a caller hands in with a row: the shapes of a JSON
//! document, with numbers kept as exactly as the wire gave them.
use vstd::prelude::*;

verus! {

/// A JSON number in one of three forms.
#[derive(Debug, Clone, PartialEq, Eq)]
pub enum Number {
    /// A non-negative integer.
    PosInt(u64),
    /// A negative integer.
    NegInt(i64),
    /// A floating-point number, held as its IEEE-754 bit pattern.
    Float(u64),
}

/// A JSON value.
#[derive(Debug, Clone, PartialEq, Eq)]
pub enum Value {
    Null,
    Bool(bool),
    Number(Number),
    String(String),
    /// An array, kept as its JSON text: no column holds one, and only error
    /// messages show it.
    Array(String),
    /// An object, kept as its JSON text, as an array is.
    Object(String),
}

/// Largest integer that a signed 64-bit cell holds.
pub const I64_MAX: u64 = 0x7fff_ffff_ffff_ffff;

/// The number is an integer in the range of `i64`.
pub open spec fn number_fits_i64(n: Number) -> bool {
    match n {
        Number::PosInt(u) => u <= I64_MAX,
        Number::NegInt(_) => true,
        Number::Float(_) => false,
    }
}

/// The integer of a number for which `number_fits_i64` holds.
pub open spec fn number_as_i64(n: Number) -> i64 {
    match n {
        Number::PosInt(u) => u as i64,
        Number::NegInt(i) => i,
        Number::Float(_) => 0,
    }
}

impl Number {
    /// Whether the number is an integer that an `i64` holds.
    pub fn is_i64(&self) -> (r: bool)
        ensures
            r == number_fits_i64(*self),
    {
        match self {
            Number::PosInt(u) => *u <= I64_MAX,
            Number::NegInt(_) => true,
            Number::Float(_) => false,
        }
    }

    /// Whether the number came as a floating-point number.
    pub fn is_f64(&self) -> (r: bool)
        ensures
            r == (*self is Float),
    {
        matches!(self, Number::Float(_))
    }
}

} // verus!
