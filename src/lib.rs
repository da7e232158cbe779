//! Safe handles over the basic blocks of a compiler IR engine.
//!
//! A foreign reference is carried as its address (`usize`), with `0` as the
//! null sentinel. The engine itself is driven by the caller: the handle
//! methods take what the engine answered and hand back values or the call
//! that the engine is to perform. `layout` models what the engine holds and
//! states the laws that handles and engine keep together.
pub mod basic_block;
pub mod layout;
pub mod values;

pub use crate::basic_block::{BasicBlock, BlockCall};
pub use crate::values::{FunctionValue, InstructionValue};
