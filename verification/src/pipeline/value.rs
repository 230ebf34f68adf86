//! Runtime values: what a constant pool and the operand stack hold.

use vstd::prelude::*;
use vstd::string::StringExecFns;

verus! {

/// A runtime value. A number is held as the bit pattern of its 64-bit
/// IEEE 754 form, so that values can be compared and copied exactly.
#[derive(Debug, Clone, Copy, PartialEq, Eq, Structural)]
pub enum RTValue {
    Number(u64),
}

impl RTValue {
    /// How a listing shows the value, given the text of its number.
    pub open spec fn text(self, number: Seq<char>) -> Seq<char> {
        match self {
            RTValue::Number(_) => "Number("@ + number + ")"@,
        }
    }

    /// Renders the value around the text of its number.
    pub fn describe(&self, number: &str) -> (text: String)
        ensures
            text@ == self.text(number@),
    {
        match self {
            RTValue::Number(_) => {
                let mut text = String::from_str("Number(");
                text.append(number);
                text.append(")");
                text
            },
        }
    }
}

} // verus!
