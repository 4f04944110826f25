use vstd::prelude::*;

verus! {

/// One decoded instruction of the machine.
///
/// A program is an ordered, index-addressable sequence of these; it is fixed
/// for the whole run.  Variable names are single characters, taken from the
/// quoted operand tokens of the textual grammar (`WRITE_VAR 'x'`).
#[derive(Clone, Copy, Debug, PartialEq, Eq, Structural)]
pub enum ByteCode {
    /// Push the literal onto the operand stack.
    LoadVal(usize),
    /// Pop the top of the operand stack and bind it to the named variable.
    /// The first store of a name allocates a fresh slot; later stores
    /// overwrite that same slot.
    WriteVar(char),
    /// Push a copy of the named variable's value onto the operand stack.
    ReadVar(char),
    /// Pop two operands and push their sum.
    Add,
    /// Pop two operands and push the difference
    /// `earlier-pushed - later-pushed`.
    Subtract,
    /// Pop two operands and push their product.
    Multiply,
    /// Pop two operands and push the quotient
    /// `earlier-pushed / later-pushed`.
    Divide,
    /// `DoWhileLt(a, b, target)`: if `value(a) < value(b)`, continue
    /// execution at instruction index `target`; otherwise fall through.
    DoWhileLt(char, char, usize),
    /// Pop the top of the operand stack and halt, reporting it as the
    /// program's final value.
    ReturnValue,
}

} // verus!
