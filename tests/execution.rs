use evm_interpreter::address::Address;
use evm_interpreter::bytecode::Bytecode;
use evm_interpreter::execution::{execute, ExecutionState, Machine};
use evm_interpreter::status::StatusCode;
use evm_interpreter::word::U256;

fn state() -> ExecutionState {
    ExecutionState::new(Address::from_id(100), Address::from_id(101), Vec::new())
}

#[test]
fn push1_jump_to_marker_halts_cleanly() {
    // PUSH1 0x03, JUMP, JUMPDEST, JUMPDEST: the marker at 3 is a valid destination
    let code = vec![0x60, 0x03, 0x56, 0x5b, 0x5b];
    let mut m = Machine::new(state(), Bytecode::new(code.clone()));
    assert!(m.step().is_ok());
    assert!(m.step().is_ok());
    assert_eq!(m.state.stack.len(), 0);
    assert_eq!(m.pc, 4);
    let out = execute(Bytecode::new(code), state(), false, 100).unwrap();
    assert!(!out.reverted);
    assert!(out.output_data.is_empty());
}

#[test]
fn push1_jump_to_the_jump_opcode_fails() {
    // PUSH1 0x02, JUMP, JUMPDEST, JUMPDEST: position 2 holds the JUMP itself, which is
    // no marker, so the jump is refused and its operand is gone
    let code = vec![0x60, 0x02, 0x56, 0x5b, 0x5b];
    let mut m = Machine::new(state(), Bytecode::new(code.clone()));
    assert!(m.step().is_ok());
    assert_eq!(m.step().err().unwrap(), StatusCode::BadJumpDestination);
    assert_eq!(m.state.stack.len(), 0);
    let r = execute(Bytecode::new(code), state(), false, 100);
    assert_eq!(r.err().unwrap(), StatusCode::BadJumpDestination);
}

#[test]
fn stop_halts_with_no_output() {
    let out = execute(Bytecode::new(vec![0x00]), state(), false, 10).unwrap();
    assert!(!out.reverted);
    assert!(out.output_data.is_empty());
    assert!(out.selfdestroyed.is_none());
}

#[test]
fn revert_with_empty_region() {
    let out = execute(Bytecode::new(vec![0x60, 0x00, 0x60, 0x00, 0xfd]), state(), false, 10).unwrap();
    assert!(out.reverted);
    assert!(out.output_data.is_empty());
}

#[test]
fn return_stored_word() {
    // PUSH1 0x2a, PUSH1 0x00, MSTORE, PUSH1 0x20, PUSH1 0x00, RETURN
    let code = vec![0x60, 0x2a, 0x60, 0x00, 0x52, 0x60, 0x20, 0x60, 0x00, 0xf3];
    let out = execute(Bytecode::new(code), state(), false, 100).unwrap();
    assert!(!out.reverted);
    let mut expected = vec![0u8; 32];
    expected[31] = 0x2a;
    assert_eq!(out.output_data, expected);
}

#[test]
fn arithmetic_program() {
    // 10 / 3 = 3, stored and returned; then 7 - 9 wraps
    let code = vec![
        0x60, 0x03, 0x60, 0x0a, 0x04, // PUSH1 3, PUSH1 10, DIV -> 3
        0x60, 0x00, 0x52, // MSTORE at 0
        0x60, 0x20, 0x60, 0x00, 0xf3, // RETURN 32 bytes from 0
    ];
    let out = execute(Bytecode::new(code), state(), false, 100).unwrap();
    assert_eq!(out.output_data[31], 3);
    assert_eq!(out.output_data[30], 0);
}

#[test]
fn mload_after_mstore() {
    let mut m = Machine::new(
        state(),
        Bytecode::new(vec![0x61, 0x12, 0x34, 0x60, 0x05, 0x52, 0x60, 0x05, 0x51]),
    );
    m.execute(100).unwrap();
    assert_eq!(m.state.stack.len(), 1);
    assert_eq!(m.state.stack.pop().unwrap(), U256::from_u64(0x1234));
    assert_eq!(m.state.memory.len(), 64);
}

#[test]
fn running_off_the_end_succeeds() {
    let out = execute(Bytecode::new(vec![0x60, 0x01, 0x60, 0x02, 0x01]), state(), false, 10).unwrap();
    assert!(!out.reverted);
}

#[test]
fn infinite_loop_runs_out_of_gas() {
    // JUMPDEST, PUSH1 0, JUMP
    let r = execute(Bytecode::new(vec![0x5b, 0x60, 0x00, 0x56]), state(), false, 50);
    assert_eq!(r.err().unwrap(), StatusCode::OutOfGas);
}

#[test]
fn underflow_on_add() {
    let r = execute(Bytecode::new(vec![0x60, 0x01, 0x01]), state(), false, 10);
    assert_eq!(r.err().unwrap(), StatusCode::StackUnderflow);
}

#[test]
fn dup_and_swap() {
    // PUSH1 1, PUSH1 2, DUP2, SWAP1 -> [1, 1, 2] (top last)
    let mut m = Machine::new(state(), Bytecode::new(vec![0x60, 0x01, 0x60, 0x02, 0x81, 0x90]));
    m.execute(10).unwrap();
    assert_eq!(m.state.stack.pop().unwrap(), U256::from_u64(2));
    assert_eq!(m.state.stack.pop().unwrap(), U256::from_u64(1));
    assert_eq!(m.state.stack.pop().unwrap(), U256::from_u64(1));
}

#[test]
fn comparisons_and_iszero() {
    // PUSH1 5, PUSH1 3, LT -> 3 < 5 = 1; ISZERO -> 0
    let mut m = Machine::new(state(), Bytecode::new(vec![0x60, 0x05, 0x60, 0x03, 0x10, 0x15]));
    m.execute(10).unwrap();
    assert_eq!(m.state.stack.pop().unwrap(), U256::zero());
}

#[test]
fn sizes_are_pushed() {
    let st = ExecutionState::new(Address::from_id(1), Address::from_id(2), vec![9, 9, 9]);
    // CALLDATASIZE, MSIZE, RETURNDATASIZE
    let mut m = Machine::new(st, Bytecode::new(vec![0x36, 0x59, 0x3d]));
    m.execute(10).unwrap();
    assert_eq!(m.state.stack.pop().unwrap(), U256::zero());
    assert_eq!(m.state.stack.pop().unwrap(), U256::zero());
    assert_eq!(m.state.stack.pop().unwrap(), U256::from_u64(3));
}

#[test]
fn push32_reads_a_full_word() {
    let mut code = vec![0x7f];
    for i in 0..32u8 {
        code.push(i);
    }
    let mut m = Machine::new(state(), Bytecode::new(code.clone()));
    m.step().unwrap();
    assert_eq!(m.pc, 33);
    let w = m.state.stack.pop().unwrap();
    assert_eq!(w.to_be_bytes(), code[1..].to_vec());
}

#[test]
fn truncated_push_pads_with_zeros() {
    let mut m = Machine::new(state(), Bytecode::new(vec![0x61, 0xab]));
    m.step().unwrap();
    assert_eq!(m.pc, 2);
    assert_eq!(m.state.stack.pop().unwrap(), U256::from_u64(0xab00));
}
