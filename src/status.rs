//! The fatal error kinds that end a call.
use vstd::prelude::*;

verus! {

/// Why execution of a call stopped with an error.
#[derive(Clone, Copy, Debug, PartialEq, Eq, Structural)]
pub enum StatusCode {
    /// A push onto a full stack.
    StackOverflow,
    /// A pop or peek below the bottom of the stack.
    StackUnderflow,
    /// An opcode that the instruction set does not define.
    UndefinedInstruction,
    /// The designated invalid opcode.
    InvalidInstruction,
    /// A jump to a position that is not a jump destination.
    BadJumpDestination,
    /// An offset or length that overflows, or a region out of bounds.
    IllegalMemoryAccess,
    /// A word whose top twelve bytes are not all zero, used as an address.
    BadAddress,
    /// A state mutation attempted in read-only mode.
    StaticModeViolation,
    /// The resource budget ran out.
    OutOfGas,
    /// An instruction needs host services that this run was not given.
    HostRequired,
}

} // verus!
