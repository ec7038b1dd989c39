use evm_interpreter::address::Address;
use evm_interpreter::bytecode::Bytecode;
use evm_interpreter::execution::{execute, ExecutionState, Machine};
use evm_interpreter::semantics::ControlFlow;
use evm_interpreter::status::StatusCode;
use evm_interpreter::word::U256;

fn machine(code: Vec<u8>) -> Machine {
    let st = ExecutionState::new(Address::from_id(7), Address::from_id(9), vec![]);
    Machine::new(st, Bytecode::new(code))
}

#[test]
fn sload_suspends_and_resumes() {
    // PUSH1 5, SLOAD, PUSH1 1, ADD
    let mut m = machine(vec![0x60, 5, 0x54, 0x60, 1, 0x01]);
    assert_eq!(m.execute(100), Ok(ControlFlow::Host));
    assert_eq!(m.pc, 2);
    let req = m.begin_host().ok().unwrap();
    assert_eq!(req.op, 0x54);
    assert_eq!(req.operands, vec![U256::from_u64(5)]);
    assert!(req.data.is_empty());
    assert_eq!(m.state.stack.len(), 0);
    assert_eq!(m.finish_host(U256::from_u64(41)), Ok(ControlFlow::Continue));
    assert_eq!(m.pc, 3);
    assert_eq!(m.execute(100), Ok(ControlFlow::Exit));
    assert_eq!(m.state.stack.pop(), Ok(U256::from_u64(42)));
}

#[test]
fn log_reads_memory_and_topics() {
    // PUSH1 0xaa, PUSH1 0, MSTORE8, PUSH1 7 (topic), PUSH1 2 (size), PUSH1 0 (offset), LOG1
    let mut m = machine(vec![0x60, 0xaa, 0x60, 0, 0x53, 0x60, 7, 0x60, 2, 0x60, 0, 0xa1]);
    assert_eq!(m.execute(100), Ok(ControlFlow::Host));
    let req = m.begin_host().ok().unwrap();
    assert_eq!(req.op, 0xa1);
    assert_eq!(req.operands, vec![U256::zero(), U256::from_u64(2), U256::from_u64(7)]);
    assert_eq!(req.data, vec![0xaa, 0]);
    m.finish_host(U256::zero()).unwrap();
    assert_eq!(m.state.stack.len(), 0);
    assert_eq!(m.execute(100), Ok(ControlFlow::Exit));
}

#[test]
fn state_changes_are_refused_in_read_only_mode() {
    // PUSH1 1, PUSH1 2, SSTORE
    let mut m = machine(vec![0x60, 1, 0x60, 2, 0x55]);
    assert_eq!(m.execute(100), Ok(ControlFlow::Host));
    m.read_only = true;
    assert_eq!(m.begin_host().err(), Some(StatusCode::StaticModeViolation));
    assert_eq!(m.state.stack.len(), 2);
    m.read_only = false;
    let req = m.begin_host().ok().unwrap();
    assert_eq!(req.operands, vec![U256::from_u64(2), U256::from_u64(1)]);
}

#[test]
fn keccak_input_and_underflow() {
    // PUSH1 3, PUSH1 0, KECCAK256
    let mut m = machine(vec![0x60, 3, 0x60, 0, 0x20]);
    assert_eq!(m.execute(100), Ok(ControlFlow::Host));
    let req = m.begin_host().ok().unwrap();
    assert_eq!(req.data, vec![0, 0, 0]);
    assert_eq!(m.state.memory.len(), 32);
    let mut m = machine(vec![0x54]);
    assert_eq!(m.execute(100), Ok(ControlFlow::Host));
    assert_eq!(m.begin_host().err(), Some(StatusCode::StackUnderflow));
}

#[test]
fn host_instruction_without_host() {
    let st = ExecutionState::new(Address::from_id(7), Address::from_id(9), vec![]);
    let r = execute(Bytecode::new(vec![0x42]), st, false, 10);
    assert_eq!(r.err(), Some(StatusCode::HostRequired));
}

#[test]
fn call_hands_input_and_receives_output() {
    // retLen 2, retOff 0, argLen 1, argOff 0, value 0, addr 9, gas 100, CALL, RETURNDATASIZE
    let code = vec![
        0x60, 2, 0x60, 0, 0x60, 1, 0x60, 0, 0x60, 0, 0x60, 9, 0x60, 100, 0xf1, 0x3d,
    ];
    let mut m = machine(code);
    assert_eq!(m.execute(100), Ok(ControlFlow::Host));
    let req = m.begin_host().ok().unwrap();
    assert_eq!(req.op, 0xf1);
    let ops: Vec<U256> = [100u64, 9, 0, 0, 1, 0, 2].iter().map(|v| U256::from_u64(*v)).collect();
    assert_eq!(req.operands, ops);
    assert_eq!(req.data, vec![0]);
    assert_eq!(
        m.finish_host_call(&req.operands, U256::one(), vec![7, 8, 9]),
        Ok(ControlFlow::Continue)
    );
    assert_eq!(m.state.memory.read(0, 3), vec![7, 8, 0]);
    assert_eq!(m.state.return_data, vec![7, 8, 9]);
    assert_eq!(m.execute(100), Ok(ControlFlow::Exit));
    assert_eq!(m.state.stack.pop(), Ok(U256::from_u64(3)));
    assert_eq!(m.state.stack.pop(), Ok(U256::one()));
}

#[test]
fn value_transfer_is_refused_in_read_only_mode() {
    // CALL with value 5
    let code = vec![0x60, 0, 0x60, 0, 0x60, 0, 0x60, 0, 0x60, 5, 0x60, 9, 0x60, 100, 0xf1];
    let mut m = machine(code);
    assert_eq!(m.execute(100), Ok(ControlFlow::Host));
    m.read_only = true;
    assert_eq!(m.begin_host().err(), Some(StatusCode::StaticModeViolation));
    m.read_only = false;
    assert!(m.begin_host().is_ok());
}

#[test]
fn extcodecopy_pads_the_code() {
    // size 4, offset 1, dest 0, addr 5, EXTCODECOPY
    let mut m = machine(vec![0x60, 4, 0x60, 1, 0x60, 0, 0x60, 5, 0x3c]);
    assert_eq!(m.execute(100), Ok(ControlFlow::Host));
    let req = m.begin_host().ok().unwrap();
    assert_eq!(req.operands.len(), 4);
    m.finish_host_call(&req.operands, U256::zero(), vec![1, 2, 3]).unwrap();
    assert_eq!(m.state.memory.read(0, 4), vec![2, 3, 0, 0]);
    assert_eq!(m.state.stack.len(), 0);
}

#[test]
fn static_call_with_no_value_is_allowed_in_read_only_mode() {
    // STATICCALL: retLen 0, retOff 0, argLen 0, argOff 0, addr 9, gas 100
    let code = vec![0x60, 0, 0x60, 0, 0x60, 0, 0x60, 0, 0x60, 9, 0x60, 100, 0xfa];
    let st = ExecutionState::new(Address::from_id(7), Address::from_id(9), vec![]);
    let mut m = Machine::with_mode(st, Bytecode::new(code), true);
    assert_eq!(m.execute(100), Ok(ControlFlow::Host));
    assert!(m.begin_host().is_ok());
}
