//! The declared type of a column.
use vstd::prelude::*;
use vstd::string::StringSliceAdditionalSpecFns;

use crate::config::DataTypeConfig;
use crate::value::{number_fits_i64, Value};

verus! {

/// The four types a column can be declared with.
#[derive(Debug, Clone, Copy, PartialEq, Eq, Structural)]
pub enum DataType {
    Int,
    Float,
    String,
    Boolean,
}

/// Whether a value may be stored in a column of type `t`: integers in the
/// range of `i64` in `Int`, floating-point numbers in `Float`, strings in
/// `String`, booleans in `Boolean`; null, arrays and objects nowhere.
pub open spec fn compatible(t: DataType, v: Value) -> bool {
    match t {
        DataType::Int => v is Number && number_fits_i64(v->Number_0),
        DataType::Float => v is Number && v->Number_0 is Float,
        DataType::String => v is String,
        DataType::Boolean => v is Bool,
    }
}

impl DataType {
    pub fn is_compatible(&self, other: &Value) -> (r: bool)
        ensures
            r == compatible(*self, *other),
    {
        match self {
            DataType::Int => match other {
                Value::Number(n) => n.is_i64(),
                _ => false,
            },
            DataType::Float => match other {
                Value::Number(n) => n.is_f64(),
                _ => false,
            },
            DataType::String => matches!(other, Value::String(_)),
            DataType::Boolean => matches!(other, Value::Bool(_)),
        }
    }

    /// The type's name as error messages print it.
    pub fn name(&self) -> (r: &'static str)
        ensures
            r@ == data_type_name(*self)@,
    {
        match self {
            DataType::Int => "Int",
            DataType::Float => "Float",
            DataType::String => "String",
            DataType::Boolean => "bool",
        }
    }
}

pub open spec fn data_type_name(t: DataType) -> &'static str {
    match t {
        DataType::Int => "Int",
        DataType::Float => "Float",
        DataType::String => "String",
        DataType::Boolean => "bool",
    }
}

/// Character-wise equality of two strings.
pub fn str_eq(a: &str, b: &str) -> (r: bool)
    ensures
        r == (a@ == b@),
{
    let ab = a.as_bytes();
    let bb = b.as_bytes();
    if ab.len() != bb.len() {
        proof {
            vstd::utf8::encode_utf8_decode_utf8(a@);
            vstd::utf8::encode_utf8_decode_utf8(b@);
        }
        return false;
    }
    let mut i: usize = 0;
    while i < ab.len()
        invariant
            ab@ == a.spec_bytes(),
            bb@ == b.spec_bytes(),
            ab@.len() == bb@.len(),
            i <= ab@.len(),
            forall|j: int| 0 <= j < i ==> ab@[j] == bb@[j],
        decreases ab@.len() - i,
    {
        if ab[i] != bb[i] {
            proof {
                vstd::utf8::encode_utf8_decode_utf8(a@);
                vstd::utf8::encode_utf8_decode_utf8(b@);
            }
            return false;
        }
        i = i + 1;
    }
    proof {
        assert(ab@ =~= bb@);
        vstd::utf8::encode_utf8_decode_utf8(a@);
        vstd::utf8::encode_utf8_decode_utf8(b@);
    }
    true
}

impl From<DataTypeConfig> for DataType {
    fn from(value: DataTypeConfig) -> (r: DataType)
        ensures
            r == data_type_of_config(value),
    {
        match value {
            DataTypeConfig::Int => DataType::Int,
            DataTypeConfig::Float => DataType::Float,
            DataTypeConfig::String => DataType::String,
            DataTypeConfig::Boolean => DataType::Boolean,
        }
    }
}

impl vstd::std_specs::convert::FromSpecImpl<DataTypeConfig> for DataType {
    open spec fn obeys_from_spec() -> bool {
        true
    }

    open spec fn from_spec(v: DataTypeConfig) -> DataType {
        data_type_of_config(v)
    }
}

pub open spec fn data_type_of_config(c: DataTypeConfig) -> DataType {
    match c {
        DataTypeConfig::Int => DataType::Int,
        DataTypeConfig::Float => DataType::Float,
        DataTypeConfig::String => DataType::String,
        DataTypeConfig::Boolean => DataType::Boolean,
    }
}

} // verus!
