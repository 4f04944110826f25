use vstd::prelude::*;

verus! {

/// A raw textual opcode, before decoding: the instruction keyword and, if
/// the instruction takes one, its operand text.
#[derive(Debug)]
pub struct OpCode {
    pub instruction: String,
    pub operand: Option<String>,
}

/// Relies on `format!("{} {}", ..)` of std: the result is the first
/// argument, a single space, then the second argument.
#[verifier::external_body]
fn join_with_space(a: &str, b: &str) -> (r: String)
    ensures
        r@ == a@ + seq![' '] + b@,
{
    format!("{} {}", a, b)
}

impl OpCode {
    pub fn new(instruction: String, operand: Option<String>) -> (r: OpCode)
        ensures
            r.instruction == instruction,
            r.operand == operand,
    {
        OpCode { instruction, operand }
    }

    /// The line this opcode displays as: the keyword alone, or the keyword
    /// and the operand separated by one space.
    pub fn text(&self) -> (r: String)
        ensures
            self.operand is None ==> r@ == self.instruction@,
            self.operand matches Some(op) ==> r@ == self.instruction@ + seq![' '] + op@,
    {
        match &self.operand {
            None => self.instruction.clone(),
            Some(op) => join_with_space(self.instruction.as_str(), op.as_str()),
        }
    }
}

} // verus!
