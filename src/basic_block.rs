//! The block handle: construction, navigation, and the calls that move,
//! insert, detach and delete blocks.
use crate::values::{wraps_function, wraps_instruction, FunctionValue, InstructionValue};
use vstd::prelude::*;
use vstd::string::{StringExecFns, StringSliceAdditionalSpecFns};

verus! {

/// A change to the engine's blocks, as a handle decides it. The caller
/// performs it on the engine.
#[derive(PartialEq, Eq, Debug)]
pub enum BlockCall {
    /// Move `block` to just before `target`, in their common function.
    MoveBefore { block: usize, target: usize },
    /// Move `block` to just after `target`, in their common function.
    MoveAfter { block: usize, target: usize },
    /// Create an empty block named by the NUL-terminated `label` and insert
    /// it just before `block`.
    InsertBefore { block: usize, label: Vec<u8> },
    /// Unlink `block` from its function, keeping it alive.
    RemoveFromParent { block: usize },
    /// Free `block`.
    Delete { block: usize },
}

/// The NUL-terminated form of a label.
pub open spec fn c_label(name: Seq<u8>) -> Seq<u8> {
    name.push(0u8)
}

/// A basic block of the IR, by the address of its foreign object. Two
/// handles are equal when they refer to the same block.
#[derive(PartialEq, Eq, Structural, Debug)]
pub struct BasicBlock {
    pub(crate) basic_block: usize,
}

/// `r` is what wrapping the foreign reference `raw` gives: none for null,
/// else a handle on `raw`.
pub open spec fn wraps_block(r: Option<BasicBlock>, raw: usize) -> bool {
    match r {
        None => raw == 0,
        Some(b) => raw != 0 && b.raw() == raw,
    }
}

/// The lower-case hexadecimal digits of `n`, without leading zeros.
pub open spec fn hex_digits(n: nat) -> Seq<char>
    decreases n,
{
    let d = (n % 16) as int;
    let c = if d < 10 {
        ('0' as int + d) as char
    } else {
        ('a' as int + d - 10) as char
    };
    if n < 16 {
        seq![c]
    } else {
        hex_digits(n / 16).push(c)
    }
}

/// Relies on std's `LowerHex` for `usize` with the `#` flag: `0x`, then the
/// lower-case hexadecimal digits without leading zeros.
#[verifier::external_body]
fn hex_address(address: usize) -> (r: String)
    ensures
        r@ == seq!['0', 'x'] + hex_digits(address as nat),
{
    format!("{:#x}", address)
}

/// What `<[u8]>::escape_ascii` shows of a byte string.
pub uninterp spec fn escaped_of(bytes: Seq<u8>) -> Seq<char>;

/// Relies on `<[u8]>::escape_ascii`: printable ASCII kept, the rest escaped;
/// the text depends on the bytes alone.
#[verifier::external_body]
fn escape_ascii(bytes: &[u8]) -> (r: String)
    ensures
        r@ == escaped_of(bytes@),
        bytes@.len() == 0 ==> r@.len() == 0,
{
    bytes.escape_ascii().to_string()
}

/// The diagnostic text of block `address`, given the engine's constant
/// classification of it and its printed value and type.
pub open spec fn debug_text_of(
    address: usize,
    is_const: bool,
    llvm_value: Seq<u8>,
    llvm_type: Seq<u8>,
) -> Seq<char> {
    "BasicBlock {\n    address: "@ + seq!['0', 'x'] + hex_digits(address as nat)
        + "\n    is_const: "@ + (if is_const {
        "true"@
    } else {
        "false"@
    }) + "\n    llvm_value: \""@ + escaped_of(llvm_value) + "\"\n    llvm_type: \""@
        + escaped_of(llvm_type) + "\"\n}"@
}

impl BasicBlock {
    /// A handle never refers to null.
    #[verifier::type_invariant]
    spec fn non_null(&self) -> bool {
        self.basic_block != 0
    }

    pub open(crate) spec fn raw(&self) -> usize {
        self.basic_block
    }

    /// Wraps a foreign reference; null gives none. `is_a_basic_block` is the
    /// engine's classification of the object, which must agree for a
    /// non-null reference.
    pub fn new(basic_block: usize, is_a_basic_block: bool) -> (r: Option<BasicBlock>)
        requires
            basic_block != 0 ==> is_a_basic_block,
        ensures
            wraps_block(r, basic_block),
    {
        if basic_block == 0 {
            return None;
        }
        Some(BasicBlock { basic_block })
    }

    /// The address of the foreign block.
    pub fn as_raw(&self) -> (r: usize)
        ensures
            r == self.raw(),
            r != 0,
    {
        proof {
            use_type_invariant(self);
        }
        self.basic_block
    }

    /// The function that holds this block, from the engine's answer
    /// `parent`: none while the block is detached.
    pub fn get_parent(&self, parent: usize) -> (r: Option<FunctionValue>)
        ensures
            wraps_function(r, parent),
    {
        FunctionValue::new(parent)
    }

    /// The block before this one in its function, from the engine's answer
    /// `previous`: none for the first block.
    pub fn get_previous_basic_block(&self, previous: usize, is_a_basic_block: bool) -> (r:
        Option<BasicBlock>)
        requires
            previous != 0 ==> is_a_basic_block,
        ensures
            wraps_block(r, previous),
    {
        BasicBlock::new(previous, is_a_basic_block)
    }

    /// The block after this one in its function, from the engine's answer
    /// `next`: none for the last block.
    pub fn get_next_basic_block(&self, next: usize, is_a_basic_block: bool) -> (r: Option<
        BasicBlock,
    >)
        requires
            next != 0 ==> is_a_basic_block,
        ensures
            wraps_block(r, next),
    {
        BasicBlock::new(next, is_a_basic_block)
    }

    /// The terminating instruction, from the engine's answer `terminator`:
    /// none while the block has no terminator yet.
    pub fn get_terminator(&self, terminator: usize) -> (r: Option<InstructionValue>)
        ensures
            wraps_instruction(r, terminator),
    {
        if terminator == 0 {
            return None;
        }
        Some(InstructionValue::new(terminator))
    }

    /// The first instruction, from the engine's answer `first`: none for an
    /// empty block.
    pub fn get_first_instruction(&self, first: usize) -> (r: Option<InstructionValue>)
        ensures
            wraps_instruction(r, first),
    {
        if first == 0 {
            return None;
        }
        Some(InstructionValue::new(first))
    }

    /// The last instruction, from the engine's answer `last`: none for an
    /// empty block.
    pub fn get_last_instruction(&self, last: usize) -> (r: Option<InstructionValue>)
        ensures
            wraps_instruction(r, last),
    {
        if last == 0 {
            return None;
        }
        Some(InstructionValue::new(last))
    }

    /// The call that moves this block to just before `basic_block`. Both
    /// must belong to the same function.
    pub fn move_before(&self, basic_block: &BasicBlock) -> (r: BlockCall)
        ensures
            r == (BlockCall::MoveBefore { block: self.raw(), target: basic_block.raw() }),
    {
        BlockCall::MoveBefore { block: self.basic_block, target: basic_block.basic_block }
    }

    /// The call that moves this block to just after `basic_block`. Both
    /// must belong to the same function.
    pub fn move_after(&self, basic_block: &BasicBlock) -> (r: BlockCall)
        ensures
            r == (BlockCall::MoveAfter { block: self.raw(), target: basic_block.raw() }),
    {
        BlockCall::MoveAfter { block: self.basic_block, target: basic_block.basic_block }
    }

    /// The call that creates an empty block named `name` just before this
    /// one. A label cannot hold a NUL byte.
    pub fn prepend_basic_block(&self, name: &str) -> (r: BlockCall)
        requires
            !name@.contains('\0'),
        ensures
            r matches BlockCall::InsertBefore { block, label } && block == self.raw() && label@
                == c_label(name.spec_bytes()),
    {
        let bytes = name.as_bytes();
        let mut label: Vec<u8> = Vec::new();
        let mut i: usize = 0;
        while i < bytes.len()
            invariant
                i <= bytes@.len(),
                bytes@ == name.spec_bytes(),
                label@ == bytes@.subrange(0, i as int),
            decreases bytes@.len() - i,
        {
            label.push(bytes[i]);
            i = i + 1;
            proof {
                assert(label@ =~= bytes@.subrange(0, i as int));
            }
        }
        label.push(0u8);
        proof {
            assert(label@ =~= c_label(name.spec_bytes()));
        }
        BlockCall::InsertBefore { block: self.basic_block, label }
    }

    /// Detaches this block from its function, given the engine's answer
    /// `parent`: the unlinking call while it has a parent, and nothing once
    /// it is detached (the engine must not unlink a detached block).
    pub fn remove_from_function(&self, parent: usize) -> (r: Option<BlockCall>)
        ensures
            r == detach_call(self.raw(), parent),
    {
        if FunctionValue::new(parent).is_some() {
            Some(BlockCall::RemoveFromParent { block: self.basic_block })
        } else {
            None
        }
    }

    /// The diagnostic text of this block: its address, whether the engine
    /// classifies it as a constant (`is_const`), and the engine's printed
    /// forms of its value and of its type.
    pub fn debug_text(&self, is_const: bool, llvm_value: &[u8], llvm_type: &[u8]) -> (r: String)
        ensures
            r@ == debug_text_of(self.raw(), is_const, llvm_value@, llvm_type@),
    {
        let mut r = String::from_str("BasicBlock {\n    address: ");
        let address = hex_address(self.basic_block);
        r.append(address.as_str());
        r.append("\n    is_const: ");
        if is_const {
            r.append("true");
        } else {
            r.append("false");
        }
        r.append("\n    llvm_value: \"");
        let value = escape_ascii(llvm_value);
        r.append(value.as_str());
        r.append("\"\n    llvm_type: \"");
        let ty = escape_ascii(llvm_type);
        r.append(ty.as_str());
        r.append("\"\n}");
        r
    }

    /// Gives the handle up for the call that frees the block. No other
    /// handle on the same block may be used afterwards.
    pub fn delete(self) -> (r: BlockCall)
        ensures
            r == (BlockCall::Delete { block: self.raw() }),
    {
        BlockCall::Delete { block: self.basic_block }
    }
}

/// What detaching `block` calls on the engine when its parent reference is
/// `parent`.
pub open spec fn detach_call(block: usize, parent: usize) -> Option<BlockCall> {
    if parent != 0 {
        Some(BlockCall::RemoveFromParent { block })
    } else {
        None
    }
}

} // verus!
