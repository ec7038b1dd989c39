use evm_interpreter::address::Address;
use evm_interpreter::bytecode::Bytecode;
use evm_interpreter::execution::{ExecutionState, Machine};
use evm_interpreter::status::StatusCode;
use evm_interpreter::word::U256;

fn machine(code: Vec<u8>) -> Machine {
    let state = ExecutionState::new(Address::from_id(100), Address::from_id(101), Vec::new());
    Machine::new(state, Bytecode::new(code))
}

#[test]
fn test_jump() {
    let mut m = machine(vec![
        0x56, // JUMP
        0x5b, // JUMPDEST -- noop
        0x5b, // JUMPDEST -- noop
        0x5b, // JUMPDEST -- noop
        0x5b, // JUMPDEST -- noop
    ]);
    m.state.stack.push(U256::from_u64(2)).unwrap();
    let result = m.step();
    assert!(result.is_ok(), "execution step failed");
    assert_eq!(m.state.stack.len(), 0);
    assert_eq!(m.pc, 3, "pc has not advanced to 3");
}

#[test]
fn test_jump_err() {
    let mut m = machine(vec![
        0x56, // JUMP
        0x63, // PUSH4 -- garbage
        0x01, // garbage
        0x02, // garbage
        0x03, // garbage
        0x04, // garbage
    ]);
    m.state.stack.push(U256::from_u64(2)).unwrap();
    let result = m.step();
    assert_eq!(m.state.stack.len(), 0);
    assert!(result.is_err(), "execution step succeeded");
    assert_eq!(result.err().unwrap(), StatusCode::BadJumpDestination);
}

#[test]
fn test_jump_err2() {
    let mut m = machine(vec![
        0x56, // JUMP
        0x63, // PUSH4 -- garbage
        0x01, // garbage
        0x02, // garbage
        0x03, // garbage
        0x04, // garbage
    ]);
    m.state.stack.push(U256::from_u64(123)).unwrap();
    let result = m.step();
    assert_eq!(m.state.stack.len(), 0);
    assert!(result.is_err(), "execution step succeeded");
    assert_eq!(result.err().unwrap(), StatusCode::BadJumpDestination);
}

#[test]
fn test_jump_err3() {
    let mut m = machine(vec![
        0x56, // JUMP
        0x63, // PUSH4 -- garbage
        0x5b, // garbage
        0x5b, // garbage
        0x5b, // garbage
        0x5b, // garbage
    ]);
    m.state.stack.push(U256::from_u64(2)).unwrap();
    let result = m.step();
    assert_eq!(m.state.stack.len(), 0);
    assert!(result.is_err(), "execution step succeeded");
    assert_eq!(result.err().unwrap(), StatusCode::BadJumpDestination);
}

#[test]
fn test_jumpi_t() {
    let mut m = machine(vec![
        0x57, // JUMPI
        0x5b, // JUMPDEST -- noop
        0x5b, // JUMPDEST -- noop
        0x5b, // JUMPDEST -- noop
        0x5b, // JUMPDEST -- noop
    ]);
    m.state.stack.push(U256::from_u64(1)).unwrap();
    m.state.stack.push(U256::from_u64(2)).unwrap();
    let result = m.step();
    assert!(result.is_ok(), "execution step failed");
    assert_eq!(m.state.stack.len(), 0);
    assert_eq!(m.pc, 3, "pc has not advanced to 3");
}

#[test]
fn test_jumpi_f() {
    let mut m = machine(vec![
        0x57, // JUMPI
        0x5b, // JUMPDEST -- noop
        0x5b, // JUMPDEST -- noop
        0x5b, // JUMPDEST -- noop
        0x5b, // JUMPDEST -- noop
    ]);
    m.state.stack.push(U256::from_u64(0)).unwrap();
    m.state.stack.push(U256::from_u64(2)).unwrap();
    let result = m.step();
    assert!(result.is_ok(), "execution step failed");
    assert_eq!(m.state.stack.len(), 0);
    assert_eq!(m.pc, 1, "pc has not advanced to 1");
}

#[test]
fn test_jumpi_err() {
    let mut m = machine(vec![
        0x57, // JUMPI
        0x5b, // JUMPDEST -- noop
        0x5b, // JUMPDEST -- noop
        0x5b, // JUMPDEST -- noop
        0x5b, // JUMPDEST -- noop
    ]);
    m.state.stack.push(U256::from_u64(1)).unwrap();
    m.state.stack.push(U256::from_u64(123)).unwrap();
    let result = m.step();
    assert_eq!(m.state.stack.len(), 0);
    assert!(result.is_err(), "execution step succeeded");
    assert_eq!(result.err().unwrap(), StatusCode::BadJumpDestination);
}

#[test]
fn test_pc() {
    let mut m = machine(vec![
        0x58, // PC
        0x5b, // JUMPDEST -- noop
    ]);
    let result = m.step();
    assert!(result.is_ok(), "execution step failed");
    assert_eq!(m.state.stack.len(), 1);
    assert_eq!(m.state.stack.pop().unwrap(), U256::zero());
    assert_eq!(m.pc, 1, "pc has not advanced to 1");
}

#[test]
fn jumpi_zero_condition_ignores_invalid_destination() {
    let mut m = machine(vec![0x57, 0x00]);
    m.state.stack.push(U256::from_u64(0)).unwrap();
    m.state.stack.push(U256::from_u64(77)).unwrap();
    assert!(m.step().is_ok());
    assert_eq!(m.pc, 1);
    assert_eq!(m.state.stack.len(), 0);
}

#[test]
fn jump_destination_inside_push_data_is_invalid() {
    let code = Bytecode::new(vec![0x60, 0x5b, 0x5b]);
    assert!(!code.valid_jump_destination(1));
    assert!(code.valid_jump_destination(2));
    assert!(!code.valid_jump_destination(3));
    assert!(!code.valid_jump_destination(0));
}

#[test]
fn push_running_past_the_end_skips_all_markers() {
    let code = Bytecode::new(vec![0x5b, 0x61, 0x5b, 0x5b, 0x5b, 0x7f, 0x5b]);
    assert!(code.valid_jump_destination(0));
    assert!(!code.valid_jump_destination(2));
    assert!(!code.valid_jump_destination(3));
    assert!(code.valid_jump_destination(4));
    assert!(!code.valid_jump_destination(6));
}

#[test]
fn returndatacopy_copies_into_memory() {
    let mut m = machine(vec![0x3e]);
    m.state.return_data = vec![1, 2, 3, 4, 5];
    // size, input index, memory index (the top)
    m.state.stack.push(U256::from_u64(3)).unwrap();
    m.state.stack.push(U256::from_u64(1)).unwrap();
    m.state.stack.push(U256::from_u64(4)).unwrap();
    assert!(m.step().is_ok());
    assert_eq!(m.state.memory.len(), 32);
    assert_eq!(m.state.memory.read(0, 8), vec![0, 0, 0, 0, 2, 3, 4, 0]);
    assert_eq!(m.pc, 1);
}

#[test]
fn returndatacopy_past_the_end_fails() {
    let mut m = machine(vec![0x3e]);
    m.state.return_data = vec![1, 2, 3];
    m.state.stack.push(U256::from_u64(2)).unwrap();
    m.state.stack.push(U256::from_u64(2)).unwrap();
    m.state.stack.push(U256::from_u64(0)).unwrap();
    assert_eq!(m.step().err().unwrap(), StatusCode::IllegalMemoryAccess);
}

#[test]
fn returndatacopy_zero_length_start_past_the_end_fails() {
    let mut m = machine(vec![0x3e]);
    m.state.return_data = vec![1, 2, 3];
    m.state.stack.push(U256::from_u64(0)).unwrap();
    m.state.stack.push(U256::from_u64(4)).unwrap();
    m.state.stack.push(U256::from_u64(0)).unwrap();
    assert_eq!(m.step().err().unwrap(), StatusCode::IllegalMemoryAccess);
}

#[test]
fn returndatacopy_zero_length_at_the_end_succeeds() {
    let mut m = machine(vec![0x3e]);
    m.state.return_data = vec![1, 2, 3];
    m.state.stack.push(U256::from_u64(0)).unwrap();
    m.state.stack.push(U256::from_u64(3)).unwrap();
    m.state.stack.push(U256::from_u64(0)).unwrap();
    assert!(m.step().is_ok());
    assert_eq!(m.state.memory.len(), 0);
}

#[test]
fn invalid_and_undefined_opcodes_fail_distinctly() {
    let mut m = machine(vec![0xfe]);
    assert_eq!(m.step().err().unwrap(), StatusCode::InvalidInstruction);
    let mut m = machine(vec![0x0c]);
    assert_eq!(m.step().err().unwrap(), StatusCode::UndefinedInstruction);
}
