use vstd::prelude::*;

verus! {

/// The kinds of faults execution can raise. Every fault is terminal for the
/// current run: the step loop should stop and report it.
#[allow(non_camel_case_types)]
#[derive(Debug, Clone, Copy, PartialEq, Eq, Structural)]
pub enum Error {
    /// The program counter points outside the instruction sequence; also
    /// raised when execution runs off the end without an explicit exit.
    PC_OUT_OF_BOUNDS,
    /// The decoded opcode has no execution handler.
    UNIMPLEMENTED_INSTRUCTION,
    /// An instruction needed more operands than the stack holds.
    EMPTY_STACK,
    /// A return was executed with no call outstanding.
    EMPTY_FLOW_STACK,
    /// A division or remainder was attempted with a zero divisor.
    DIVISION_BY_ZERO,
    /// A heap read from an address that was never stored to.
    UNDEFINED_HEAP_ADDRESS,
    /// A jump or call named a label that the program never defines.
    UNDEFINED_LABEL,
}

} // verus!
