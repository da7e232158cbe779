use basic_block::{BasicBlock, BlockCall, FunctionValue, InstructionValue};

fn block(raw: usize) -> BasicBlock {
    BasicBlock::new(raw, true).unwrap()
}

#[test]
fn null_reference_gives_no_block() {
    assert_eq!(BasicBlock::new(0, false), None);
    assert_eq!(BasicBlock::new(0, true), None);
}

#[test]
fn non_null_reference_gives_a_block() {
    let b = BasicBlock::new(0x40, true).unwrap();
    assert_eq!(b.as_raw(), 0x40);
}

#[test]
fn handles_on_one_block_are_equal() {
    assert_eq!(block(7), block(7));
    assert_ne!(block(7), block(8));
}

#[test]
fn parent_of_detached_block_is_none() {
    let b = block(0x10);
    assert_eq!(b.get_parent(0), None);
    let f = b.get_parent(0x99).unwrap();
    assert_eq!(f.as_raw(), 0x99);
    assert_eq!(Some(f), FunctionValue::new(0x99));
}

#[test]
fn neighbours_at_the_ends_are_none() {
    let b = block(0x10);
    assert_eq!(b.get_previous_basic_block(0, false), None);
    assert_eq!(b.get_next_basic_block(0, false), None);
}

#[test]
fn neighbours_wrap_the_answer() {
    let b = block(0x10);
    assert_eq!(b.get_previous_basic_block(0x08, true), Some(block(0x08)));
    assert_eq!(b.get_next_basic_block(0x18, true), Some(block(0x18)));
}

#[test]
fn empty_block_has_no_instructions() {
    let b = block(0x10);
    assert_eq!(b.get_first_instruction(0), None);
    assert_eq!(b.get_last_instruction(0), None);
    assert_eq!(b.get_terminator(0), None);
}

#[test]
fn terminator_appears_once_placed() {
    let d = block(0x10);
    assert_eq!(d.get_terminator(0), None);
    let t = d.get_terminator(0x77).unwrap();
    assert_eq!(t.as_raw(), 0x77);
    assert_eq!(t, InstructionValue::new(0x77));
}

#[test]
fn instruction_bounds_wrap_the_answer() {
    let b = block(0x10);
    assert_eq!(b.get_first_instruction(0x20).unwrap().as_raw(), 0x20);
    assert_eq!(b.get_last_instruction(0x28).unwrap().as_raw(), 0x28);
}

#[test]
fn move_calls_name_both_blocks() {
    let a = block(1);
    let c = block(3);
    assert_eq!(a.move_after(&c), BlockCall::MoveAfter { block: 1, target: 3 });
    assert_eq!(a.move_before(&c), BlockCall::MoveBefore { block: 1, target: 3 });
}

#[test]
fn prepend_passes_a_nul_terminated_label() {
    let b = block(5);
    assert_eq!(
        b.prepend_basic_block("entry"),
        BlockCall::InsertBefore { block: 5, label: b"entry\0".to_vec() }
    );
    assert_eq!(b.prepend_basic_block(""), BlockCall::InsertBefore { block: 5, label: vec![0] });
    assert_eq!(
        b.prepend_basic_block("é"),
        BlockCall::InsertBefore { block: 5, label: vec![0xc3, 0xa9, 0] }
    );
}

#[test]
fn detach_unlinks_only_an_attached_block() {
    let b = block(5);
    assert_eq!(b.remove_from_function(0x99), Some(BlockCall::RemoveFromParent { block: 5 }));
    assert_eq!(b.remove_from_function(0), None);
}

#[test]
fn detach_twice_makes_one_call() {
    let b = block(5);
    let first = b.remove_from_function(0x99);
    assert!(first.is_some());
    // once unlinked the engine reports no parent
    assert_eq!(b.get_parent(0), None);
    assert_eq!(b.remove_from_function(0), None);
}

#[test]
fn delete_gives_up_the_handle() {
    assert_eq!(block(5).delete(), BlockCall::Delete { block: 5 });
}

#[test]
fn debug_text_layout() {
    let b = block(0x1f);
    assert_eq!(
        b.debug_text(false, b"label %3", b"label"),
        "BasicBlock {\n    address: 0x1f\n    is_const: false\n    llvm_value: \"label %3\"\n    llvm_type: \"label\"\n}"
    );
}

#[test]
fn debug_text_escapes_and_hex() {
    let b = block(255);
    assert_eq!(
        b.debug_text(true, b"a\"\n\x01", b""),
        "BasicBlock {\n    address: 0xff\n    is_const: true\n    llvm_value: \"a\\\"\\n\\x01\"\n    llvm_type: \"\"\n}"
    );
}
