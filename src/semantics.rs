//! The meaning of each instruction, as a function from the machine before it to the
//! machine after it, and of a run of instructions; with the laws that follow.
use crate::address::{Address, address_bound, address_of};
use crate::bytecode::{JUMPDEST, PUSH1, PUSH32, is_jump_destination};
use crate::control::{exit_spec, jump_spec, returndatacopy_spec};
use crate::memory::{grown, memory_after_region, region_spec, written};
use crate::parameter::{right_pad, skip};
use crate::stack::STACK_CAPACITY;
use crate::status::StatusCode;
use crate::word::{
    U256, addmod_spec, be_value, bit_and, bit_not, bit_or, bit_xor, bool_word, byte_of, exp_spec,
    lemma_value_of_word, max_word, mulmod_spec, sar_spec, sdiv_spec, signed, signextend_bytes,
    smod_spec, word_bytes, word_div, word_modulus, word_of, word_rem, wrap,
};
use vstd::arithmetic::power2::pow2;
use crate::opcode::{
    ADD, ADDMOD, ADDRESS, AND, BALANCE, BASEFEE, BLOCKHASH, BYTE, CALL, CALLCODE, CALLDATACOPY,
    CALLDATALOAD, CALLDATASIZE, CALLER, CALLVALUE, CODECOPY, CODESIZE, CREATE, CREATE2,
    DELEGATECALL, DIV, DUP1, DUP16, EQ, EXP, EXTCODECOPY, EXTCODEHASH, EXTCODESIZE, GAS, GASPRICE,
    GT, INVALID, ISZERO, JUMP, JUMPI, KECCAK256, LOG0, LOG4, LT, MLOAD, MOD, MSIZE, MSTORE, MSTORE8,
    MUL, MULMOD, NOT, OR, ORIGIN, PC, POP, RETURN, RETURNDATACOPY, RETURNDATASIZE, REVERT, SAR,
    SDIV, SELFDESTRUCT, SGT, SHL, SHR, SIGNEXTEND, SLOAD, SLT, SMOD, SSTORE, STATICCALL, STOP, SUB,
    SWAP1, SWAP16, XOR,
};
use vstd::prelude::*;

verus! {

/// What the loop does after an instruction: go on at the program counter the
/// instruction left (the next instruction, or a jump target), or halt.
#[derive(Clone, Copy, Debug, PartialEq, Eq, Structural)]
pub enum ControlFlow {
    Continue,
    Jump,
    Exit,
    /// The instruction at the program counter needs the host; nothing has changed.
    Host,
}

/// The machine as the instruction semantics see it.
pub struct MachineModel {
    pub stack: Seq<U256>,
    pub memory: Seq<u8>,
    pub input_data: Seq<u8>,
    pub return_data: Seq<u8>,
    pub output_data: Seq<u8>,
    pub caller: nat,
    pub receiver: nat,
    pub selfdestroyed: Option<Address>,
    pub pc: nat,
    pub reverted: bool,
    /// Set in a call that may not change state.
    pub read_only: bool,
}

/// The word `k` places below the top of the stack.
pub open spec fn top(s: Seq<U256>, k: nat) -> U256 {
    s[s.len() - 1 - k]
}

/// The stack without its top `k` words.
pub open spec fn pop_n(s: Seq<U256>, k: nat) -> Seq<U256> {
    s.subrange(0, s.len() - k)
}

/// The stack with its top word and the word `k` places below it swapped.
pub open spec fn swapped(s: Seq<U256>, k: nat) -> Seq<U256> {
    s.update(s.len() - 1, s[s.len() - 1 - k]).update(s.len() - 1 - k, s.last())
}

pub open spec fn is_binary_op(op: u8) -> bool {
    op == ADD || op == MUL || op == SUB || op == DIV || op == SDIV || op == MOD || op == SMOD
        || op == EXP || op == SIGNEXTEND || op == LT || op == GT || op == SLT || op == SGT || op
        == EQ || op == AND || op == OR || op == XOR || op == BYTE || op == SHL || op == SHR || op
        == SAR
}

/// The result of a two-operand instruction on `a` (the top word) and `b` (the one
/// below it).
pub open spec fn binary_op(op: u8, a: U256, b: U256) -> U256 {
    if op == ADD {
        word_of(wrap(a.value() + b.value() as int))
    } else if op == MUL {
        word_of(wrap((a.value() * b.value()) as int))
    } else if op == SUB {
        word_of(wrap(a.value() - b.value() as int))
    } else if op == DIV {
        word_of(word_div(a.value(), b.value()))
    } else if op == SDIV {
        word_of(sdiv_spec(a, b))
    } else if op == MOD {
        word_of(word_rem(a.value(), b.value()))
    } else if op == SMOD {
        word_of(smod_spec(a, b))
    } else if op == EXP {
        word_of(exp_spec(a.value(), b.value()))
    } else if op == SIGNEXTEND {
        word_of(be_value(signextend_bytes(a.value(), b)))
    } else if op == LT {
        bool_word(a.value() < b.value())
    } else if op == GT {
        bool_word(a.value() > b.value())
    } else if op == SLT {
        bool_word(signed(a.value()) < signed(b.value()))
    } else if op == SGT {
        bool_word(signed(a.value()) > signed(b.value()))
    } else if op == EQ {
        bool_word(a.value() == b.value())
    } else if op == AND {
        bit_and(a, b)
    } else if op == OR {
        bit_or(a, b)
    } else if op == XOR {
        bit_xor(a, b)
    } else if op == BYTE {
        word_of(byte_of(a.value(), b))
    } else if op == SHL {
        word_of(
            if a.value() >= 256 {
                0
            } else {
                wrap((b.value() * pow2(a.value())) as int)
            },
        )
    } else if op == SHR {
        word_of(
            if a.value() >= 256 {
                0
            } else {
                b.value() / pow2(a.value())
            },
        )
    } else {
        word_of(sar_spec(a.value(), b))
    }
}

/// The memory after CALLDATACOPY or CODECOPY of `size` bytes of `src` from
/// `src_offset` (zero past its end) to memory at `mem_offset`, and whether it succeeds.
pub open spec fn copy_spec(
    mem: Seq<u8>,
    src: Seq<u8>,
    mem_offset: nat,
    src_offset: nat,
    size: nat,
) -> (Seq<u8>, Result<(), StatusCode>) {
    match region_spec(mem_offset, size) {
        Err(e) => (mem, Err(e)),
        Ok(None) => (mem, Ok(())),
        Ok(Some(_)) => (
            written(grown(mem, mem_offset + size), mem_offset, right_pad(skip(src, src_offset), size)),
            Ok(()),
        ),
    }
}

/// The result of ADDMOD or MULMOD on the top three words.
pub open spec fn ternary_op(op: u8, a: U256, b: U256, n: U256) -> U256 {
    if op == ADDMOD {
        word_of(addmod_spec(a.value(), b.value(), n.value()))
    } else {
        word_of(mulmod_spec(a.value(), b.value(), n.value()))
    }
}

/// The 32-byte big-endian operand of a push of `n` bytes at `pc`: the immediates
/// right-aligned, with zeros for any that lie past the end of the code.
pub open spec fn push_operand(code: Seq<u8>, pc: nat, n: nat) -> Seq<u8> {
    Seq::new(
        32,
        |k: int|
            if k < 32 - n {
                0u8
            } else if pc + 1 + k - (32 - n) < code.len() {
                code[pc + 1 + k - (32 - n)]
            } else {
                0u8
            },
    )
}

/// The position after a push of `n` bytes at `pc`; a push whose immediates run past
/// the end of the code ends the program.
pub open spec fn after_push(code: Seq<u8>, pc: nat, n: nat) -> nat {
    if pc + 1 + n > code.len() {
        code.len()
    } else {
        pc + 1 + n
    }
}

pub open spec fn continue_with(m: MachineModel, stack: Seq<U256>) -> (
    MachineModel,
    Result<ControlFlow, StatusCode>,
) {
    (MachineModel { stack, pc: m.pc + 1, ..m }, Ok(ControlFlow::Continue))
}

pub open spec fn push_then_continue(m: MachineModel, w: U256) -> (
    MachineModel,
    Result<ControlFlow, StatusCode>,
) {
    if m.stack.len() >= STACK_CAPACITY {
        (m, Err(StatusCode::StackOverflow))
    } else {
        continue_with(m, m.stack.push(w))
    }
}

pub open spec fn fail_with(m: MachineModel, stack: Seq<U256>, e: StatusCode) -> (
    MachineModel,
    Result<ControlFlow, StatusCode>,
) {
    (MachineModel { stack, ..m }, Err(e))
}

/// The instructions that the host carries out: environment and chain queries,
/// storage, logs and hashing.
pub open spec fn is_host_op(op: u8) -> bool {
    op == KECCAK256 || op == BALANCE || op == ORIGIN || op == CALLVALUE || op == GASPRICE || op
        == EXTCODESIZE || op == EXTCODEHASH || (BLOCKHASH <= op && op <= BASEFEE) || op == SLOAD
        || op == SSTORE || op == GAS || (LOG0 <= op && op <= LOG4) || is_call_op(op)
}

/// The host instructions that hand back bytes as well as a word: the calls, the
/// creations, and EXTCODECOPY.
pub open spec fn is_call_op(op: u8) -> bool {
    op == CALL || op == CALLCODE || op == DELEGATECALL || op == STATICCALL || op == CREATE || op
        == CREATE2 || op == EXTCODECOPY
}

/// Where a host instruction's input region is among its operands (offset, length).
pub open spec fn input_region(op: u8) -> Option<(nat, nat)> {
    if op == KECCAK256 || (LOG0 <= op && op <= LOG4) {
        Some((0, 1))
    } else if op == CALL || op == CALLCODE {
        Some((3, 4))
    } else if op == DELEGATECALL || op == STATICCALL {
        Some((2, 3))
    } else if op == CREATE || op == CREATE2 {
        Some((1, 2))
    } else {
        None
    }
}

/// Where a host instruction's output region is among its operands (offset, length).
pub open spec fn output_region(op: u8) -> Option<(nat, nat)> {
    if op == CALL || op == CALLCODE {
        Some((5, 6))
    } else if op == DELEGATECALL || op == STATICCALL {
        Some((4, 5))
    } else if op == EXTCODECOPY {
        Some((1, 3))
    } else {
        None
    }
}

/// How many stack operands a host instruction takes.
pub open spec fn host_operand_count(op: u8) -> nat {
    if op == CALL || op == CALLCODE {
        7
    } else if op == DELEGATECALL || op == STATICCALL {
        6
    } else if op == CREATE2 || op == EXTCODECOPY {
        4
    } else if op == CREATE {
        3
    } else if op == KECCAK256 || op == SSTORE {
        2
    } else if LOG0 <= op && op <= LOG4 {
        (2 + (op - LOG0)) as nat
    } else if op == BALANCE || op == EXTCODESIZE || op == EXTCODEHASH || op == BLOCKHASH || op
        == SLOAD {
        1
    } else {
        0
    }
}

/// Whether a host instruction pushes a word.
pub open spec fn host_returns_word(op: u8) -> bool {
    op != SSTORE && !(LOG0 <= op && op <= LOG4) && op != EXTCODECOPY
}

/// Whether a host instruction changes state, which read-only mode forbids: storage
/// writes, logs, creations, and a CALL that transfers value (its third operand).
pub open spec fn host_mutates(op: u8, s: Seq<U256>) -> bool {
    op == SSTORE || (LOG0 <= op && op <= LOG4) || op == CREATE || op == CREATE2 || (op == CALL
        && top(s, 2).value() != 0)
}

/// The first `k` words of the stack, the top first.
pub open spec fn top_words(s: Seq<U256>, k: nat) -> Seq<U256> {
    Seq::new(k, |i: int| s[s.len() - 1 - i])
}

/// Beginning a host instruction at `m.pc`: the machine after its operands are taken,
/// and the operands and memory data that go to the host. It fails without change on a
/// stack that lacks the operands or has no room for the result, or for a state change
/// in read-only mode; a bad memory region fails after the operands were popped.
pub open spec fn spec_begin_host(code: Seq<u8>, m: MachineModel) -> (
    MachineModel,
    Result<(Seq<U256>, Seq<u8>), StatusCode>,
) {
    let op = code[m.pc as int];
    let s = m.stack;
    let k = host_operand_count(op);
    if s.len() < k {
        (m, Err(StatusCode::StackUnderflow))
    } else if host_returns_word(op) && s.len() - k >= STACK_CAPACITY {
        (m, Err(StatusCode::StackOverflow))
    } else if m.read_only && host_mutates(op, s) {
        (m, Err(StatusCode::StaticModeViolation))
    } else {
        let ops = top_words(s, k);
        let popped = MachineModel { stack: pop_n(s, k), ..m };
        let (mem, input) = match input_region(op) {
            Some((i, j)) => exit_spec(m.memory, ops[i as int].value(), ops[j as int].value()),
            None => (m.memory, Ok(Seq::<u8>::empty())),
        };
        match input {
            Err(e) => (MachineModel { memory: mem, ..popped }, Err(e)),
            Ok(data) => match output_region(op) {
                Some((a, b)) => {
                    let off = ops[a as int].value();
                    let len = ops[b as int].value();
                    match region_spec(off, len) {
                        Err(e) => (MachineModel { memory: mem, ..popped }, Err(e)),
                        Ok(_) => (
                            MachineModel { memory: memory_after_region(mem, off, len), ..popped },
                            Ok((ops, data)),
                        ),
                    }
                },
                None => (MachineModel { memory: mem, ..popped }, Ok((ops, data))),
            },
        }
    }
}

/// One instruction at `m.pc`: the machine after it and how the loop goes on. Stack
/// underflow and overflow, and SELFDESTRUCT in read-only mode, leave the machine as it
/// was; any other failure comes after the instruction's operands were popped.
pub open spec fn spec_step(code: Seq<u8>, m: MachineModel) -> (
    MachineModel,
    Result<ControlFlow, StatusCode>,
) {
    let op = code[m.pc as int];
    let s = m.stack;
    let n = s.len();
    if op == STOP {
        (MachineModel { output_data: Seq::<u8>::empty(), ..m }, Ok(ControlFlow::Exit))
    } else if is_binary_op(op) {
        if n < 2 {
            (m, Err(StatusCode::StackUnderflow))
        } else {
            continue_with(m, pop_n(s, 2).push(binary_op(op, top(s, 0), top(s, 1))))
        }
    } else if op == ADDMOD || op == MULMOD {
        if n < 3 {
            (m, Err(StatusCode::StackUnderflow))
        } else {
            continue_with(m, pop_n(s, 3).push(ternary_op(op, top(s, 0), top(s, 1), top(s, 2))))
        }
    } else if op == ISZERO {
        if n < 1 {
            (m, Err(StatusCode::StackUnderflow))
        } else {
            continue_with(m, pop_n(s, 1).push(bool_word(top(s, 0).value() == 0)))
        }
    } else if op == NOT {
        if n < 1 {
            (m, Err(StatusCode::StackUnderflow))
        } else {
            continue_with(m, pop_n(s, 1).push(bit_not(top(s, 0))))
        }
    } else if op == CALLDATALOAD {
        if n < 1 {
            (m, Err(StatusCode::StackUnderflow))
        } else {
            continue_with(
                m,
                pop_n(s, 1).push(
                    word_of(be_value(right_pad(skip(m.input_data, top(s, 0).value()), 32))),
                ),
            )
        }
    } else if op == CODESIZE {
        push_then_continue(m, word_of(code.len()))
    } else if op == ADDRESS {
        push_then_continue(m, word_of(m.receiver))
    } else if op == CALLER {
        push_then_continue(m, word_of(m.caller))
    } else if op == CALLDATACOPY || op == CODECOPY {
        if n < 3 {
            (m, Err(StatusCode::StackUnderflow))
        } else {
            let src = if op == CALLDATACOPY {
                m.input_data
            } else {
                code
            };
            let (mem, res) = copy_spec(
                m.memory,
                src,
                top(s, 0).value(),
                top(s, 1).value(),
                top(s, 2).value(),
            );
            match res {
                Err(e) => (MachineModel { stack: pop_n(s, 3), memory: mem, ..m }, Err(e)),
                Ok(_) => continue_with(MachineModel { memory: mem, ..m }, pop_n(s, 3)),
            }
        }
    } else if op == CALLDATASIZE {
        push_then_continue(m, word_of(m.input_data.len()))
    } else if op == RETURNDATASIZE {
        push_then_continue(m, word_of(m.return_data.len()))
    } else if op == PC {
        push_then_continue(m, word_of(m.pc))
    } else if op == MSIZE {
        push_then_continue(m, word_of(m.memory.len()))
    } else if op == POP {
        if n < 1 {
            (m, Err(StatusCode::StackUnderflow))
        } else {
            continue_with(m, pop_n(s, 1))
        }
    } else if op == MLOAD {
        if n < 1 {
            (m, Err(StatusCode::StackUnderflow))
        } else {
            let off = top(s, 0).value();
            match region_spec(off, 32) {
                Err(e) => fail_with(m, pop_n(s, 1), e),
                Ok(_) => {
                    let g = grown(m.memory, off + 32);
                    let w = word_of(be_value(g.subrange(off as int, off + 32int)));
                    continue_with(MachineModel { memory: g, ..m }, pop_n(s, 1).push(w))
                },
            }
        }
    } else if op == MSTORE {
        if n < 2 {
            (m, Err(StatusCode::StackUnderflow))
        } else {
            let off = top(s, 0).value();
            match region_spec(off, 32) {
                Err(e) => fail_with(m, pop_n(s, 2), e),
                Ok(_) => {
                    let g = written(grown(m.memory, off + 32), off, word_bytes(top(s, 1)));
                    continue_with(MachineModel { memory: g, ..m }, pop_n(s, 2))
                },
            }
        }
    } else if op == MSTORE8 {
        if n < 2 {
            (m, Err(StatusCode::StackUnderflow))
        } else {
            let off = top(s, 0).value();
            match region_spec(off, 1) {
                Err(e) => fail_with(m, pop_n(s, 2), e),
                Ok(_) => {
                    let g = written(grown(m.memory, off + 1), off, seq![word_bytes(top(s, 1))[31]]);
                    continue_with(MachineModel { memory: g, ..m }, pop_n(s, 2))
                },
            }
        }
    } else if op == JUMP {
        if n < 1 {
            (m, Err(StatusCode::StackUnderflow))
        } else {
            match jump_spec(code, top(s, 0).value()) {
                Ok(d) => (MachineModel { stack: pop_n(s, 1), pc: d as nat, ..m }, Ok(ControlFlow::Jump)),
                Err(e) => fail_with(m, pop_n(s, 1), e),
            }
        }
    } else if op == JUMPI {
        if n < 2 {
            (m, Err(StatusCode::StackUnderflow))
        } else if top(s, 1).value() == 0 {
            (MachineModel { stack: pop_n(s, 2), pc: m.pc + 1, ..m }, Ok(ControlFlow::Jump))
        } else {
            match jump_spec(code, top(s, 0).value()) {
                Ok(d) => (MachineModel { stack: pop_n(s, 2), pc: d as nat, ..m }, Ok(ControlFlow::Jump)),
                Err(e) => fail_with(m, pop_n(s, 2), e),
            }
        }
    } else if op == JUMPDEST {
        continue_with(m, s)
    } else if PUSH1 <= op && op <= PUSH32 {
        let k = (op - PUSH1 + 1) as nat;
        if n >= STACK_CAPACITY {
            (m, Err(StatusCode::StackOverflow))
        } else {
            (
                MachineModel {
                    stack: s.push(word_of(be_value(push_operand(code, m.pc, k)))),
                    pc: after_push(code, m.pc, k),
                    ..m
                },
                Ok(ControlFlow::Continue),
            )
        }
    } else if DUP1 <= op && op <= DUP16 {
        let k = (op - DUP1 + 1) as nat;
        if n < k {
            (m, Err(StatusCode::StackUnderflow))
        } else {
            push_then_continue(m, top(s, (k - 1) as nat))
        }
    } else if SWAP1 <= op && op <= SWAP16 {
        let k = (op - SWAP1 + 1) as nat;
        if n < k + 1 {
            (m, Err(StatusCode::StackUnderflow))
        } else {
            continue_with(m, swapped(s, k))
        }
    } else if op == RETURN || op == REVERT {
        if n < 2 {
            (m, Err(StatusCode::StackUnderflow))
        } else {
            let (mem, res) = exit_spec(m.memory, top(s, 0).value(), top(s, 1).value());
            match res {
                Err(e) => (MachineModel { stack: pop_n(s, 2), memory: mem, ..m }, Err(e)),
                Ok(data) => (
                    MachineModel {
                        stack: pop_n(s, 2),
                        memory: mem,
                        output_data: data,
                        reverted: m.reverted || op == REVERT,
                        ..m
                    },
                    Ok(ControlFlow::Exit),
                ),
            }
        }
    } else if op == RETURNDATACOPY {
        if n < 3 {
            (m, Err(StatusCode::StackUnderflow))
        } else {
            let (mem, res) = returndatacopy_spec(
                m.memory,
                m.return_data,
                top(s, 0).value(),
                top(s, 1).value(),
                top(s, 2).value(),
            );
            match res {
                Err(e) => (MachineModel { stack: pop_n(s, 3), memory: mem, ..m }, Err(e)),
                Ok(_) => continue_with(MachineModel { memory: mem, ..m }, pop_n(s, 3)),
            }
        }
    } else if op == SELFDESTRUCT {
        if n < 1 {
            (m, Err(StatusCode::StackUnderflow))
        } else if m.read_only {
            (m, Err(StatusCode::StaticModeViolation))
        } else if top(s, 0).value() >= address_bound() {
            fail_with(m, pop_n(s, 1), StatusCode::BadAddress)
        } else {
            (
                MachineModel {
                    stack: pop_n(s, 1),
                    selfdestroyed: Some(address_of(top(s, 0).value())),
                    ..m
                },
                Ok(ControlFlow::Exit),
            )
        }
    } else if is_host_op(op) {
        (m, Ok(ControlFlow::Host))
    } else if op == INVALID {
        (m, Err(StatusCode::InvalidInstruction))
    } else {
        (m, Err(StatusCode::UndefinedInstruction))
    }
}

/// Running from `m` with at most `fuel` instructions: the machine at the end and how
/// the run ended. Running off the end of the code, or a halting instruction, ends it
/// with `Exit`; reaching an instruction that needs the host suspends it with `Host`;
/// an instruction's failure ends it with that failure; so does running out of fuel.
pub open spec fn spec_run(code: Seq<u8>, m: MachineModel, fuel: nat) -> (
    MachineModel,
    Result<ControlFlow, StatusCode>,
)
    decreases fuel,
{
    if m.pc >= code.len() {
        (m, Ok(ControlFlow::Exit))
    } else if fuel == 0 {
        (m, Err(StatusCode::OutOfGas))
    } else {
        let (m2, r) = spec_step(code, m);
        match r {
            Err(e) => (m2, Err(e)),
            Ok(ControlFlow::Exit) => (m2, Ok(ControlFlow::Exit)),
            Ok(ControlFlow::Host) => (m2, Ok(ControlFlow::Host)),
            Ok(_) => spec_run(code, m2, (fuel - 1) as nat),
        }
    }
}

/// Completing a host instruction at `m.pc` with the host's `result`: the word is
/// pushed when the instruction has one, and the machine moves on.
pub open spec fn spec_finish_host(code: Seq<u8>, m: MachineModel, result: U256) -> MachineModel {
    let op = code[m.pc as int];
    MachineModel {
        stack: if host_returns_word(op) {
            m.stack.push(result)
        } else {
            m.stack
        },
        pc: m.pc + 1,
        ..m
    }
}

/// Completing a call, a creation or EXTCODECOPY at `m.pc` whose operands were `ops`,
/// with the host's `result` word and `output` bytes. EXTCODECOPY copies the code that
/// the host gave, zero past its end, to memory. A call or creation keeps `output` as
/// the return data, copies as much of it as fits into a call's output region, and
/// pushes `result`.
pub open spec fn spec_finish_call(
    code: Seq<u8>,
    m: MachineModel,
    ops: Seq<U256>,
    result: U256,
    output: Seq<u8>,
) -> (MachineModel, Result<ControlFlow, StatusCode>) {
    let op = code[m.pc as int];
    if op == EXTCODECOPY {
        let (mem, res) = copy_spec(m.memory, output, ops[1].value(), ops[2].value(), ops[3].value());
        match res {
            Err(e) => (MachineModel { memory: mem, ..m }, Err(e)),
            Ok(_) => (MachineModel { memory: mem, pc: m.pc + 1, ..m }, Ok(ControlFlow::Continue)),
        }
    } else {
        let done = |mem: Seq<u8>|
            (
                MachineModel {
                    stack: m.stack.push(result),
                    memory: mem,
                    return_data: output,
                    pc: m.pc + 1,
                    ..m
                },
                Ok(ControlFlow::Continue),
            );
        match output_region(op) {
            Some((a, b)) => {
                let off = ops[a as int].value();
                let len = ops[b as int].value();
                match region_spec(off, len) {
                    Err(e) => (m, Err(e)),
                    Ok(None) => done(m.memory),
                    Ok(Some(_)) => {
                        let n: nat = if len < output.len() {
                            len
                        } else {
                            output.len()
                        };
                        done(written(grown(m.memory, off + len), off, output.subrange(0, n as int)))
                    },
                }
            },
            None => done(m.memory),
        }
    }
}

/// A JUMP to a valid destination lands one past the marker and pops exactly its one
/// operand.
pub proof fn lemma_jump_to_valid_destination(code: Seq<u8>, m: MachineModel)
    requires
        code.len() <= usize::MAX,
        m.pc < code.len(),
        code[m.pc as int] == JUMP,
        m.stack.len() >= 1,
        is_jump_destination(code, top(m.stack, 0).value()),
    ensures
        spec_step(code, m).1 == Ok::<ControlFlow, StatusCode>(ControlFlow::Jump),
        spec_step(code, m).0.pc == top(m.stack, 0).value() + 1,
        spec_step(code, m).0.stack.len() == m.stack.len() - 1,
{
}

/// A JUMPI with a nonzero condition to a valid destination lands one past the marker
/// and pops exactly its two operands.
pub proof fn lemma_jumpi_to_valid_destination(code: Seq<u8>, m: MachineModel)
    requires
        code.len() <= usize::MAX,
        m.pc < code.len(),
        code[m.pc as int] == JUMPI,
        m.stack.len() >= 2,
        top(m.stack, 1).value() != 0,
        is_jump_destination(code, top(m.stack, 0).value()),
    ensures
        spec_step(code, m).1 == Ok::<ControlFlow, StatusCode>(ControlFlow::Jump),
        spec_step(code, m).0.pc == top(m.stack, 0).value() + 1,
        spec_step(code, m).0.stack.len() == m.stack.len() - 2,
{
}

/// A JUMP, or a JUMPI whose condition is nonzero, to an invalid destination fails with
/// `BadJumpDestination`, and its operands have been popped.
pub proof fn lemma_jump_to_invalid_destination(code: Seq<u8>, m: MachineModel)
    requires
        m.pc < code.len(),
        code[m.pc as int] == JUMP || code[m.pc as int] == JUMPI,
        code[m.pc as int] == JUMP ==> m.stack.len() >= 1,
        code[m.pc as int] == JUMPI ==> m.stack.len() >= 2 && top(m.stack, 1).value() != 0,
        !is_jump_destination(code, top(m.stack, 0).value()),
    ensures
        spec_step(code, m).1 == Err::<ControlFlow, StatusCode>(StatusCode::BadJumpDestination),
        code[m.pc as int] == JUMP ==> spec_step(code, m).0.stack == pop_n(m.stack, 1),
        code[m.pc as int] == JUMPI ==> spec_step(code, m).0.stack == pop_n(m.stack, 2),
{
}

/// A JUMPI whose condition is zero never jumps, whatever its destination: it pops its
/// two operands and moves on to the next instruction.
pub proof fn lemma_jumpi_not_taken(code: Seq<u8>, m: MachineModel)
    requires
        m.pc < code.len(),
        code[m.pc as int] == JUMPI,
        m.stack.len() >= 2,
        top(m.stack, 1).value() == 0,
    ensures
        spec_step(code, m).1.is_ok(),
        spec_step(code, m).0.pc == m.pc + 1,
        spec_step(code, m).0.stack == pop_n(m.stack, 2),
{
}

/// DIV and MOD by zero give zero and never fail.
pub proof fn lemma_div_mod_by_zero(code: Seq<u8>, m: MachineModel)
    requires
        m.pc < code.len(),
        code[m.pc as int] == DIV || code[m.pc as int] == MOD,
        m.stack.len() >= 2,
        top(m.stack, 1).value() == 0,
    ensures
        spec_step(code, m).1 == Ok::<ControlFlow, StatusCode>(ControlFlow::Continue),
        spec_step(code, m).0.stack.last().value() == 0,
{
    lemma_value_of_word(0);
}

/// ADD and SUB wrap around: the largest word plus one is zero, and zero minus one is
/// the largest word.
pub proof fn lemma_add_sub_wrap(a: U256, b: U256)
    ensures
        a.value() == max_word() && b.value() == 1 ==> binary_op(ADD, a, b).value() == 0,
        a.value() == 0 && b.value() == 1 ==> binary_op(SUB, a, b).value() == max_word(),
{
    lemma_value_of_word(0);
    lemma_value_of_word(max_word());
    assert(wrap(max_word() + 1int) == 0) by {
        vstd::arithmetic::div_mod::lemma_fundamental_div_mod_converse(
            max_word() + 1int,
            word_modulus() as int,
            1,
            0,
        );
    }
    assert(wrap(0 - 1) == max_word()) by {
        vstd::arithmetic::div_mod::lemma_fundamental_div_mod_converse(
            0 - 1,
            word_modulus() as int,
            -1,
            max_word() as int,
        );
    }
}


/// In a read-only call SELFDESTRUCT fails with `StaticModeViolation` and changes
/// nothing.
pub proof fn lemma_selfdestruct_read_only(code: Seq<u8>, m: MachineModel)
    requires
        m.pc < code.len(),
        code[m.pc as int] == SELFDESTRUCT,
        m.stack.len() >= 1,
        m.read_only,
    ensures
        spec_step(code, m) == (m, Err::<ControlFlow, StatusCode>(StatusCode::StaticModeViolation)),
{
}

/// In a read-only call the host instructions that change state (storage writes, logs,
/// creations, a CALL that transfers value) fail with `StaticModeViolation` before the
/// host is asked, and change nothing.
pub proof fn lemma_host_read_only(code: Seq<u8>, m: MachineModel)
    requires
        m.pc < code.len(),
        is_host_op(code[m.pc as int]),
        m.stack.len() >= host_operand_count(code[m.pc as int]),
        m.stack.len() <= STACK_CAPACITY,
        m.read_only,
        host_mutates(code[m.pc as int], m.stack),
    ensures
        spec_begin_host(code, m) == (m, Err::<(Seq<U256>, Seq<u8>), StatusCode>(
            StatusCode::StaticModeViolation,
        )),
{
}

/// A push onto a full stack fails with `StackOverflow` and changes nothing.
pub proof fn lemma_push_on_full_stack(code: Seq<u8>, m: MachineModel)
    requires
        m.pc < code.len(),
        PUSH1 <= code[m.pc as int] <= PUSH32,
        m.stack.len() == STACK_CAPACITY,
    ensures
        spec_step(code, m) == (m, Err::<ControlFlow, StatusCode>(StatusCode::StackOverflow)),
{
}

/// A POP on an empty stack fails with `StackUnderflow` and changes nothing.
pub proof fn lemma_pop_on_empty_stack(code: Seq<u8>, m: MachineModel)
    requires
        m.pc < code.len(),
        code[m.pc as int] == POP,
        m.stack.len() == 0,
    ensures
        spec_step(code, m) == (m, Err::<ControlFlow, StatusCode>(StatusCode::StackUnderflow)),
{
}

} // verus!
