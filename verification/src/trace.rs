//! The trace input: one record per instruction executed by the external
//! virtual-machine debugger. The builder replays these records; it never
//! mutates them.

use crate::word::Word;
use vstd::prelude::*;

verus! {

/// The instructions the worked-example programs use. The remaining
/// opcodes plug into the same dispatch as further variants.
#[allow(non_camel_case_types)]
#[derive(Clone, Copy, Debug, Hash, PartialEq, Eq, Structural)]
pub enum OpcodeId {
    STOP,
    CALLER,
    POP,
}

impl OpcodeId {
    /// How many bytes of code the instruction occupies; the program
    /// counter of the next sequentially executed instruction advances by
    /// this much.
    pub open spec fn spec_width(self) -> u64 {
        1
    }

    /// Executable twin of [`Self::spec_width`].
    pub fn width(&self) -> (r: u64)
        ensures
            r == self.spec_width(),
    {
        1
    }

    /// Whether the instruction may move the program counter somewhere
    /// other than the next instruction; such steps are exempt from the
    /// program-counter advance check.
    pub open spec fn spec_is_jump(self) -> bool {
        false
    }

    /// Executable twin of [`Self::spec_is_jump`].
    pub fn is_jump(&self) -> (r: bool)
        ensures
            r == self.spec_is_jump(),
    {
        false
    }
}

/// One replayed instruction as the external debugger recorded it: the
/// program counter, opcode, remaining gas and call depth before the
/// instruction ran, plus the observed operand stack before it ran (top
/// element last). The observed stack is consulted only when the
/// builder's cross-check mode is enabled.
#[derive(Clone, Debug)]
pub struct TraceStep {
    pub pc: u64,
    pub op: OpcodeId,
    pub gas: u64,
    pub depth: u64,
    pub stack: Vec<Word>,
}

} // verus!
