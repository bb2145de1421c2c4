use vstd::prelude::*;

verus! {

/// The ways in which an instruction can fail.  A fault is fatal for the run:
/// the machine reports it and does not execute the instruction.
#[derive(Clone, Copy, Debug, PartialEq, Eq, Structural)]
pub enum Fault {
    /// The opcode byte is not in the instruction set, or the program counter
    /// leaves the program (or the 32-bit range) while an instruction is read.
    DecodeFault,
    /// A byte is popped from an active segment that does not hold enough
    /// bytes, or a call frame is popped when none exists.
    StackUnderflow,
    /// A name is read, assigned or called that is bound nowhere.
    UnresolvedReference,
    /// Division or remainder by zero, or a signed quotient that does not fit
    /// its width.
    ArithmeticFault,
    /// A definition of a name that the active scope does not hold yet.
    DefinitionConflict,
    /// The number of segments does not fit the four bytes that encode it.
    CountOverflow,
}

impl Fault {
    /// A short diagnostic for the fault.
    pub fn message(&self) -> (r: &'static str)
        ensures
            r@ == Self::message_of(*self),
    {
        match self {
            Fault::DecodeFault => "decode fault",
            Fault::StackUnderflow => "stack underflow",
            Fault::UnresolvedReference => "unresolved reference",
            Fault::ArithmeticFault => "arithmetic fault",
            Fault::DefinitionConflict => "definition conflict",
            Fault::CountOverflow => "count overflow",
        }
    }

    /// The text that [`Fault::message`] returns.
    pub open spec fn message_of(f: Fault) -> Seq<char> {
        match f {
            Fault::DecodeFault => "decode fault"@,
            Fault::StackUnderflow => "stack underflow"@,
            Fault::UnresolvedReference => "unresolved reference"@,
            Fault::ArithmeticFault => "arithmetic fault"@,
            Fault::DefinitionConflict => "definition conflict"@,
            Fault::CountOverflow => "count overflow"@,
        }
    }
}

} // verus!
