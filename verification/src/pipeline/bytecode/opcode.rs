//! The instruction tags and their one-byte encoding.

use super::CONSTANT_LONG_ARG_BYTES;
use vstd::prelude::*;
use vstd::std_specs::convert::TryFromSpecImpl;

verus! {

/// An instruction tag. The tags are numbered from zero in the order written.
#[derive(Debug, Copy, Clone, PartialEq, Eq, Structural)]
pub enum OpCode {
    Return,
    Constant,
    ConstantLong,
}

/// The largest byte that encodes an instruction tag.
pub const MAX_OPCODE: u8 = 2;

impl OpCode {
    /// The byte that encodes the tag.
    pub open spec fn ordinal(self) -> u8 {
        match self {
            OpCode::Return => 0,
            OpCode::Constant => 1,
            OpCode::ConstantLong => 2,
        }
    }

    /// The tag that a byte encodes, or the byte itself where it encodes none.
    pub open spec fn decoded(byte: u8) -> Result<OpCode, u8> {
        if byte == 0 {
            Ok(OpCode::Return)
        } else if byte == 1 {
            Ok(OpCode::Constant)
        } else if byte == 2 {
            Ok(OpCode::ConstantLong)
        } else {
            Err(byte)
        }
    }

    /// How many operand bytes follow the tag in an instruction stream.
    pub open spec fn operand_width(self) -> nat {
        match self {
            OpCode::Return => 0,
            OpCode::Constant => 1,
            OpCode::ConstantLong => CONSTANT_LONG_ARG_BYTES as nat,
        }
    }

    /// The tag's name as a listing shows it.
    pub open spec fn name_text(self) -> Seq<char> {
        match self {
            OpCode::Return => "Return"@,
            OpCode::Constant => "Constant"@,
            OpCode::ConstantLong => "ConstantLong"@,
        }
    }

    pub fn to_byte(self) -> (byte: u8)
        ensures
            byte == self.ordinal(),
            byte <= MAX_OPCODE,
            OpCode::decoded(byte) == Ok::<OpCode, u8>(self),
    {
        match self {
            OpCode::Return => 0,
            OpCode::Constant => 1,
            OpCode::ConstantLong => 2,
        }
    }

    pub fn name(self) -> (name: &'static str)
        ensures
            name@ == self.name_text(),
    {
        match self {
            OpCode::Return => "Return",
            OpCode::Constant => "Constant",
            OpCode::ConstantLong => "ConstantLong",
        }
    }
}

impl TryFrom<u8> for OpCode {
    type Error = u8;

    /// Checks the range first, then looks the tag up.
    fn try_from(value: u8) -> (decoded: Result<Self, u8>) {
        if value > MAX_OPCODE {
            Err(value)
        } else if value == 0 {
            Ok(OpCode::Return)
        } else if value == 1 {
            Ok(OpCode::Constant)
        } else {
            Ok(OpCode::ConstantLong)
        }
    }
}

impl TryFromSpecImpl<u8> for OpCode {
    open spec fn obeys_try_from_spec() -> bool {
        true
    }

    open spec fn try_from_spec(value: u8) -> Result<Self, u8> {
        OpCode::decoded(value)
    }
}

/// A byte decodes to a tag exactly when it is at most `MAX_OPCODE`; a byte
/// that does not is handed back unchanged.
pub proof fn lemma_decode_validates_range(byte: u8)
    ensures
        OpCode::decoded(byte).is_ok() <==> byte <= MAX_OPCODE,
        OpCode::decoded(byte).is_err() ==> OpCode::decoded(byte) == Err::<OpCode, u8>(byte),
        OpCode::decoded(byte).is_ok() ==> OpCode::decoded(byte).unwrap().ordinal() == byte,
{
}

/// Every tag survives encoding and decoding.
pub proof fn lemma_opcode_round_trip(op: OpCode)
    ensures
        OpCode::decoded(op.ordinal()) == Ok::<OpCode, u8>(op),
{
}

} // verus!
