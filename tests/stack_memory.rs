use evm_interpreter::memory::{get_memory_region, Memory, MemoryRegion};
use evm_interpreter::stack::{Stack, STACK_CAPACITY};
use evm_interpreter::status::StatusCode;
use evm_interpreter::word::U256;

#[test]
fn push_on_full_stack_overflows() {
    let mut s = Stack::new();
    for i in 0..STACK_CAPACITY {
        s.push(U256::from_u64(i as u64)).unwrap();
    }
    assert_eq!(s.push(U256::one()), Err(StatusCode::StackOverflow));
    assert_eq!(s.len(), 1024);
    assert_eq!(s.peek(0), Ok(U256::from_u64(1023)));
}

#[test]
fn pop_on_empty_stack_underflows() {
    let mut s = Stack::new();
    assert_eq!(s.pop(), Err(StatusCode::StackUnderflow));
    assert_eq!(s.len(), 0);
    assert_eq!(s.peek(0), Err(StatusCode::StackUnderflow));
}

#[test]
fn swap_top() {
    let mut s = Stack::new();
    s.push(U256::from_u64(1)).unwrap();
    s.push(U256::from_u64(2)).unwrap();
    s.push(U256::from_u64(3)).unwrap();
    s.swap_top_with(2).unwrap();
    assert_eq!(s.peek(0), Ok(U256::from_u64(1)));
    assert_eq!(s.peek(2), Ok(U256::from_u64(3)));
    assert_eq!(s.swap_top_with(3), Err(StatusCode::StackUnderflow));
}

#[test]
fn zero_length_region_is_none() {
    let mut m = Memory::new();
    let r = get_memory_region(&mut m, U256::from_u64(1 << 40), U256::zero());
    assert_eq!(r, Ok(None));
    assert_eq!(m.len(), 0);
}

#[test]
fn region_grows_in_words() {
    let mut m = Memory::new();
    let r = get_memory_region(&mut m, U256::from_u64(10), U256::from_u64(30));
    assert_eq!(r, Ok(Some(MemoryRegion { offset: 10, size: 30 })));
    assert_eq!(m.len(), 64);
    assert_eq!(m.read(0, 64), vec![0u8; 64]);
    let r = get_memory_region(&mut m, U256::from_u64(0), U256::from_u64(1));
    assert_eq!(r, Ok(Some(MemoryRegion { offset: 0, size: 1 })));
    assert_eq!(m.len(), 64);
}

#[test]
fn huge_region_is_illegal() {
    let mut m = Memory::new();
    let r = get_memory_region(&mut m, U256::from_u64(1 << 32), U256::one());
    assert_eq!(r, Err(StatusCode::IllegalMemoryAccess));
    let r = get_memory_region(&mut m, U256::zero(), U256::from_u64(1 << 32));
    assert_eq!(r, Err(StatusCode::IllegalMemoryAccess));
    assert_eq!(m.len(), 0);
}

#[test]
fn write_then_read() {
    let mut m = Memory::new();
    m.grow_to(5);
    m.write(2, &[7, 8]);
    assert_eq!(m.read(0, 5), vec![0, 0, 7, 8, 0]);
}
