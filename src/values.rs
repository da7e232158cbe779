//! Handles over the engine's functions and instructions, as far as a block
//! hands them out.
use vstd::prelude::*;

verus! {

/// A function of the IR, by the address of its foreign object.
#[derive(PartialEq, Eq, Structural, Clone, Copy, Debug)]
pub struct FunctionValue {
    pub(crate) fn_value: usize,
}

/// `r` is what wrapping the foreign reference `raw` gives: none for null,
/// else a handle on `raw`.
pub open spec fn wraps_function(r: Option<FunctionValue>, raw: usize) -> bool {
    match r {
        None => raw == 0,
        Some(f) => raw != 0 && f.raw() == raw,
    }
}

impl FunctionValue {
    pub open(crate) spec fn raw(&self) -> usize {
        self.fn_value
    }

    /// Wraps a foreign function reference; null gives none.
    pub fn new(fn_value: usize) -> (r: Option<FunctionValue>)
        ensures
            wraps_function(r, fn_value),
    {
        if fn_value == 0 {
            None
        } else {
            Some(FunctionValue { fn_value })
        }
    }

    /// The address of the foreign object.
    pub fn as_raw(&self) -> (r: usize)
        ensures
            r == self.raw(),
    {
        self.fn_value
    }
}

/// An instruction of the IR, by the address of its foreign object.
#[derive(PartialEq, Eq, Structural, Clone, Copy, Debug)]
pub struct InstructionValue {
    pub(crate) instruction_value: usize,
}

/// `r` is what wrapping the foreign reference `raw` gives: none for null,
/// else a handle on `raw`.
pub open spec fn wraps_instruction(r: Option<InstructionValue>, raw: usize) -> bool {
    match r {
        None => raw == 0,
        Some(i) => raw != 0 && i.raw() == raw,
    }
}

impl InstructionValue {
    pub open(crate) spec fn raw(&self) -> usize {
        self.instruction_value
    }

    /// Wraps a foreign instruction reference, which must not be null.
    pub fn new(instruction_value: usize) -> (r: InstructionValue)
        requires
            instruction_value != 0,
        ensures
            r.raw() == instruction_value,
    {
        InstructionValue { instruction_value }
    }

    /// The address of the foreign object.
    pub fn as_raw(&self) -> (r: usize)
        ensures
            r == self.raw(),
    {
        self.instruction_value
    }
}

} // verus!
