//! Element types and their names.

use vstd::prelude::*;
use vstd::string::*;

use crate::error::ThrillerError;

verus! {

/// Element types of the target.
#[derive(Clone, Copy, PartialEq, Eq, Structural, Debug)]
pub enum DataType {
    /// 32-bit floating point.
    Float32,
    /// 64-bit floating point.
    Float64,
    /// 16-bit floating point.
    Half,
    /// Cutlass 16-bit floating point.
    Cutlasshalf,
    /// Brain floating point.
    BF16,
}

impl DataType {
    /// The type's name in generated code.
    pub open spec fn text(&self) -> Seq<char> {
        match self {
            DataType::Float32 => "float"@,
            DataType::Float64 => "double"@,
            DataType::Half => "half"@,
            DataType::Cutlasshalf => "cutlass::half_t"@,
            DataType::BF16 => "bfloat16"@,
        }
    }

    /// The type that `s` names, if it names one. The brain floating point type
    /// has a name in generated code, and none that is read.
    pub open spec fn parse(s: Seq<char>) -> Option<DataType> {
        if s == "float"@ {
            Some(DataType::Float32)
        } else if s == "double"@ {
            Some(DataType::Float64)
        } else if s == "half"@ {
            Some(DataType::Half)
        } else if s == "cutlass::half_t"@ {
            Some(DataType::Cutlasshalf)
        } else {
            None
        }
    }

    /// The type's name in generated code.
    pub fn to_string(&self) -> (s: String)
        ensures
            s@ == self.text(),
    {
        match self {
            DataType::Float32 => String::from_str("float"),
            DataType::Float64 => String::from_str("double"),
            DataType::Half => String::from_str("half"),
            DataType::Cutlasshalf => String::from_str("cutlass::half_t"),
            DataType::BF16 => String::from_str("bfloat16"),
        }
    }

    /// Reads a type name.
    pub fn from_str(s: &str) -> (r: Result<DataType, ThrillerError>)
        ensures
            match r {
                Ok(t) => DataType::parse(s@) == Some(t),
                Err(e) => DataType::parse(s@) is None && e == ThrillerError::ParseError,
            },
    {
        let name = String::from_str(s);
        if name == String::from_str("float") {
            Ok(DataType::Float32)
        } else if name == String::from_str("double") {
            Ok(DataType::Float64)
        } else if name == String::from_str("half") {
            Ok(DataType::Half)
        } else if name == String::from_str("cutlass::half_t") {
            Ok(DataType::Cutlasshalf)
        } else {
            Err(ThrillerError::ParseError)
        }
    }
}

} // verus!
