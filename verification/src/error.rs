use vstd::prelude::*;

verus! {

/// Classification of everything that can go wrong while decoding a program
/// text or while running a decoded program.  Every failure is fatal to the
/// run: the machine stops at the first one and reports it together with the
/// position (line or instruction index) at which it arose.
#[derive(Clone, Copy, Debug, PartialEq, Eq, Structural)]
pub enum VmError {
    /// Decode: the first token of a line is not a known instruction keyword.
    UnknownInstruction,
    /// Decode: an operand token is missing, too short, or not of the
    /// expected form (for example, not a decimal number).
    MalformedOperand,
    /// Run: an instruction needed more operands than the stack holds.
    EmptyStack,
    /// Run: a variable was read before it was ever stored.
    UnboundVariable,
    /// Run: `Divide` with a zero divisor.
    DivideByZero,
    /// Run: a loop instruction names a target outside the program.
    OutOfRangeTarget,
}

} // verus!
