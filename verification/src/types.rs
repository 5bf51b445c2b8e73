//! The types of SSA values.

use crate::text::{decimal, decimal_text};
use vstd::prelude::*;
use vstd::string::*;

verus! {

/// The type of a scalar, or of one lane of a SIMD vector.
#[derive(Copy, Clone, PartialEq, Eq, Debug, Structural)]
pub enum LaneType {
    /// No value at all.
    Void,
    B1,
    B8,
    B16,
    B32,
    B64,
    I8,
    I16,
    I32,
    I64,
    F32,
    F64,
}

impl LaneType {
    /// The name of the type in the textual IL format.
    pub open spec fn text(self) -> Seq<char> {
        match self {
            LaneType::Void => "void"@,
            LaneType::B1 => "b1"@,
            LaneType::B8 => "b8"@,
            LaneType::B16 => "b16"@,
            LaneType::B32 => "b32"@,
            LaneType::B64 => "b64"@,
            LaneType::I8 => "i8"@,
            LaneType::I16 => "i16"@,
            LaneType::I32 => "i32"@,
            LaneType::I64 => "i64"@,
            LaneType::F32 => "f32"@,
            LaneType::F64 => "f64"@,
        }
    }

    /// The name of the type in the textual IL format.
    pub fn name(&self) -> (text: &'static str)
        ensures
            text@ == self.text(),
    {
        match *self {
            LaneType::Void => "void",
            LaneType::B1 => "b1",
            LaneType::B8 => "b8",
            LaneType::B16 => "b16",
            LaneType::B32 => "b32",
            LaneType::B64 => "b64",
            LaneType::I8 => "i8",
            LaneType::I16 => "i16",
            LaneType::I32 => "i32",
            LaneType::I64 => "i64",
            LaneType::F32 => "f32",
            LaneType::F64 => "f64",
        }
    }
}

/// The type of an SSA value: a scalar, or a SIMD vector of `lanes` scalars.
#[derive(Copy, Clone, PartialEq, Eq, Debug, Structural)]
pub struct Type {
    pub lane: LaneType,
    /// The number of lanes; a scalar has one.
    pub lanes: u16,
}

impl Type {
    /// The type of an instruction without a result, and of the controlling type variable of an
    /// opcode that has none.
    pub open spec fn spec_void() -> Type {
        Type { lane: LaneType::Void, lanes: 1 }
    }

    /// The type of an instruction without a result, and of the controlling type variable of an
    /// opcode that has none.
    #[verifier::when_used_as_spec(spec_void)]
    pub fn void() -> (ty: Type)
        ensures
            ty == Type::spec_void(),
    {
        Type { lane: LaneType::Void, lanes: 1 }
    }

    /// The scalar type of one lane.
    pub fn scalar(lane: LaneType) -> (ty: Type)
        ensures
            ty == (Type { lane, lanes: 1 }),
    {
        Type { lane, lanes: 1 }
    }

    /// The name of the type in the textual IL format.
    pub open spec fn text(self) -> Seq<char> {
        if self.lanes == 1 {
            self.lane.text()
        } else {
            self.lane.text() + "x"@ + decimal(self.lanes as nat)
        }
    }

    /// Write the type as in "i32" or "i32x4".
    pub fn to_string(&self) -> (text: String)
        ensures
            text@ == self.text(),
    {
        if self.lanes == 1 {
            self.lane.name().to_owned()
        } else {
            self.lane.name().to_owned().concat("x").concat(decimal_text(self.lanes as u64).as_str())
        }
    }
}

} // verus!
