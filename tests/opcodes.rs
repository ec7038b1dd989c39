use evm_interpreter::address::Address;
use evm_interpreter::bytecode::Bytecode;
use evm_interpreter::execution::{ExecutionState, Machine};
use evm_interpreter::word::U256;

fn neg(v: u64) -> U256 {
    U256::from_u64(v).negate()
}

fn w(v: u64) -> U256 {
    U256::from_u64(v)
}

#[test]
fn multiplication() {
    assert_eq!(w(6).wrapping_mul(&w(7)), w(42));
    assert_eq!(U256::max_value().wrapping_mul(&w(2)), U256::max_value().wrapping_sub(&w(1)));
    let big = U256 { hi: 0, lo: 1u128 << 127 };
    assert_eq!(big.wrapping_mul(&w(4)), U256 { hi: 2, lo: 0 });
    assert_eq!(U256 { hi: 1, lo: 0 }.wrapping_mul(&U256 { hi: 1, lo: 0 }), U256::zero());
}

#[test]
fn signed_division_and_remainder() {
    assert_eq!(neg(10).sdiv(&w(3)), neg(3));
    assert_eq!(w(10).sdiv(&neg(3)), neg(3));
    assert_eq!(neg(10).sdiv(&neg(3)), w(3));
    let min = U256 { hi: 1u128 << 127, lo: 0 };
    assert_eq!(min.sdiv(&neg(1)), min);
    assert_eq!(neg(10).smod(&w(3)), neg(1));
    assert_eq!(w(10).smod(&neg(3)), w(1));
    assert_eq!(w(10).sdiv(&U256::zero()), U256::zero());
    assert_eq!(w(10).smod(&U256::zero()), U256::zero());
}

#[test]
fn exponentiation() {
    assert_eq!(w(2).exp(&w(10)), w(1024));
    assert_eq!(w(2).exp(&w(256)), U256::zero());
    assert_eq!(w(2).exp(&w(255)), U256 { hi: 1u128 << 127, lo: 0 });
    assert_eq!(w(3).exp(&U256::zero()), U256::one());
    assert_eq!(
        w(3).exp(&w(200)),
        U256 {
            hi: 258008222117456465814381446037058750134,
            lo: 175359258540093970667410787940678807713
        }
    );
}

#[test]
fn modular_addition_and_multiplication() {
    assert_eq!(U256::max_value().addmod(&w(2), &w(10)), w(7));
    assert_eq!(U256::max_value().mulmod(&U256::max_value(), &w(12345)), w(315));
    assert_eq!(w(5).addmod(&w(5), &U256::zero()), U256::zero());
    assert_eq!(w(5).mulmod(&w(5), &U256::zero()), U256::zero());
}

#[test]
fn sign_extension() {
    assert_eq!(w(0xff).signextend(&w(0)), U256::max_value());
    assert_eq!(w(0x7f).signextend(&w(0)), w(0x7f));
    assert_eq!(w(0x1280ff).signextend(&w(1)), w(0x80ff).or(&U256::max_value().shl(&w(16))));
    assert_eq!(w(0x1280ff).signextend(&w(31)), w(0x1280ff));
}

#[test]
fn signed_comparisons() {
    assert!(neg(1).slt(&w(1)));
    assert!(!w(1).slt(&neg(1)));
    assert!(w(1).sgt(&neg(5)));
    assert!(neg(1).sgt(&neg(2)));
}

#[test]
fn bitwise_and_byte() {
    assert_eq!(w(0b1100).and(&w(0b1010)), w(0b1000));
    assert_eq!(w(0b1100).or(&w(0b1010)), w(0b1110));
    assert_eq!(w(0b1100).xor(&w(0b1010)), w(0b0110));
    assert_eq!(U256::zero().not(), U256::max_value());
    assert_eq!(w(0x1234).byte(&w(31)), w(0x34));
    assert_eq!(w(0x1234).byte(&w(30)), w(0x12));
    assert_eq!(w(0x1234).byte(&w(32)), U256::zero());
}

#[test]
fn shifts() {
    assert_eq!(w(1).shl(&w(1)), w(2));
    assert_eq!(w(1).shl(&w(256)), U256::zero());
    assert_eq!(w(1).shl(&w(255)), U256 { hi: 1u128 << 127, lo: 0 });
    assert_eq!(w(0x100).shr(&w(4)), w(0x10));
    assert_eq!(U256::max_value().shr(&w(255)), w(1));
    assert_eq!(neg(16).sar(&w(4)), neg(1));
    assert_eq!(neg(3).sar(&w(1)), neg(2));
    assert_eq!(neg(5).sar(&w(300)), U256::max_value());
    assert_eq!(w(5).sar(&w(300)), U256::zero());
    assert_eq!(w(16).sar(&w(2)), w(4));
}

fn run(code: Vec<u8>, input: Vec<u8>) -> Machine {
    let st = ExecutionState::new(Address::from_id(7), Address::from_id(9), input);
    let mut m = Machine::new(st, Bytecode::new(code));
    m.execute(1000).unwrap();
    m
}

#[test]
fn program_with_new_arithmetic() {
    // PUSH1 3, PUSH1 2, EXP -> 8; PUSH1 5, MUL -> 40; PUSH1 1, SHL -> 80; NOT; NOT
    let mut m = run(vec![0x60, 3, 0x60, 2, 0x0a, 0x60, 5, 0x02, 0x60, 1, 0x1b, 0x19, 0x19], vec![]);
    assert_eq!(m.state.stack.pop().unwrap(), w(80));
}

#[test]
fn calldata_and_code_access() {
    // PUSH1 1, CALLDATALOAD
    let mut m = run(vec![0x60, 1, 0x35], vec![0xaa, 0xbb, 0xcc]);
    let mut expected = vec![0u8; 32];
    expected[0] = 0xbb;
    expected[1] = 0xcc;
    assert_eq!(m.state.stack.pop().unwrap(), U256::from_be_slice(&expected));
    // PUSH1 4, PUSH1 1, PUSH1 0, CALLDATACOPY; CODESIZE
    let mut m = run(vec![0x60, 4, 0x60, 1, 0x60, 0, 0x37, 0x38], vec![1, 2, 3]);
    assert_eq!(m.state.stack.pop().unwrap(), w(8));
    assert_eq!(m.state.memory.read(0, 5), vec![2, 3, 0, 0, 0]);
    // PUSH1 3, PUSH1 0, PUSH1 2, CODECOPY
    let m = run(vec![0x60, 3, 0x60, 0, 0x60, 2, 0x39], vec![]);
    assert_eq!(m.state.memory.read(0, 6), vec![0, 0, 0x60, 3, 0x60, 0]);
}

#[test]
fn caller_address_and_mstore8() {
    let mut m = run(vec![0x30, 0x33], vec![]);
    assert_eq!(m.state.stack.pop().unwrap(), Address::from_id(7).as_evm_word());
    assert_eq!(m.state.stack.pop().unwrap(), Address::from_id(9).as_evm_word());
    // PUSH2 0x1234, PUSH1 3, MSTORE8
    let m = run(vec![0x61, 0x12, 0x34, 0x60, 3, 0x53], vec![]);
    assert_eq!(m.state.memory.len(), 32);
    assert_eq!(m.state.memory.read(0, 5), vec![0, 0, 0, 0x34, 0]);
}

#[test]
fn selfdestruct_records_beneficiary() {
    // PUSH2 0x0102, SELFDESTRUCT, PUSH1 1 (never reached)
    let st = ExecutionState::new(Address::from_id(7), Address::from_id(9), vec![]);
    let out = evm_interpreter::execution::execute(
        Bytecode::new(vec![0x61, 0x01, 0x02, 0xff, 0x60, 0x01]),
        st,
        false,
        100,
    )
    .ok()
    .unwrap();
    let expected = Address::try_from_word(w(0x0102)).ok().unwrap();
    assert_eq!(out.selfdestroyed, Some(expected));
    assert!(!out.reverted);
}

#[test]
fn selfdestruct_to_bad_address_fails() {
    // PUSH32 0xff.. , SELFDESTRUCT
    let mut code = vec![0x7f];
    code.extend(vec![0xff; 32]);
    code.push(0xff);
    let st = ExecutionState::new(Address::from_id(7), Address::from_id(9), vec![]);
    let r = evm_interpreter::execution::execute(Bytecode::new(code), st, false, 100);
    assert_eq!(r.err(), Some(evm_interpreter::status::StatusCode::BadAddress));
}

#[test]
fn selfdestruct_is_refused_in_read_only_mode() {
    // PUSH2 0x0102, SELFDESTRUCT
    let st = ExecutionState::new(Address::from_id(7), Address::from_id(9), vec![]);
    let r = evm_interpreter::execution::execute(
        Bytecode::new(vec![0x61, 0x01, 0x02, 0xff]),
        st,
        true,
        100,
    );
    assert_eq!(r.err(), Some(evm_interpreter::status::StatusCode::StaticModeViolation));
    let st = ExecutionState::new(Address::from_id(7), Address::from_id(9), vec![]);
    let mut m = Machine::with_mode(st, Bytecode::new(vec![0x61, 0x01, 0x02, 0xff]), true);
    m.step().unwrap();
    assert_eq!(m.step().err(), Some(evm_interpreter::status::StatusCode::StaticModeViolation));
    assert_eq!(m.state.stack.len(), 1);
    assert!(m.state.selfdestroyed.is_none());
}
