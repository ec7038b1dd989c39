//! The per-call execution state, the machine that runs instructions, and the
//! protocol by which the host carries out the instructions that need it.
use crate::address::{Address, lemma_address_of};
use crate::bytecode::{Bytecode, JUMPDEST, PUSH1, PUSH32};
use crate::control::{Outcome, exit, invalid, jump, jumpi, ret, returndatacopy, revert, stop};
use crate::memory::{Memory, get_memory_region, written};
use crate::parameter::{read_padded, read_right_pad, right_pad, skip};
use crate::stack::{STACK_CAPACITY, Stack};
use crate::status::StatusCode;
use crate::word::{U256, be_value, lemma_word_of_value, word_bytes, word_of};
use crate::opcode::{
    ADD, ADDMOD, ADDRESS, AND, BALANCE, BASEFEE, BLOCKHASH, BYTE, CALL, CALLCODE, CALLDATACOPY,
    CALLDATALOAD, CALLDATASIZE, CALLER, CALLVALUE, CODECOPY, CODESIZE, CREATE, CREATE2,
    DELEGATECALL, DIV, DUP1, DUP16, EQ, EXP, EXTCODECOPY, EXTCODEHASH, EXTCODESIZE, GAS, GASPRICE,
    GT, INVALID, ISZERO, JUMP, JUMPI, KECCAK256, LOG0, LOG4, LT, MLOAD, MOD, MSIZE, MSTORE, MSTORE8,
    MUL, MULMOD, NOT, OR, ORIGIN, PC, POP, RETURN, RETURNDATACOPY, RETURNDATASIZE, REVERT, SAR,
    SDIV, SELFDESTRUCT, SGT, SHL, SHR, SIGNEXTEND, SLOAD, SLT, SMOD, SSTORE, STATICCALL, STOP, SUB,
    SWAP1, SWAP16, XOR,
};
use crate::semantics::{
    ControlFlow, MachineModel, continue_with, host_operand_count, host_returns_word, input_region,
    is_binary_op, is_call_op, is_host_op, output_region, pop_n, push_operand, spec_begin_host,
    spec_finish_call, spec_finish_host, spec_run, spec_step, swapped, top, top_words,
};
use vstd::prelude::*;

verus! {

/// The per-call state that instructions read and change.
pub struct ExecutionState {
    pub stack: Stack,
    pub memory: Memory,
    pub input_data: Vec<u8>,
    pub return_data: Vec<u8>,
    pub output_data: Vec<u8>,
    /// The beneficiary, when the contract called SELFDESTRUCT.
    pub selfdestroyed: Option<Address>,
    /// The address of the caller.
    pub caller: Address,
    /// The address of the receiver.
    pub receiver: Address,
}

impl ExecutionState {
    pub fn new(caller: Address, receiver: Address, input_data: Vec<u8>) -> (r: ExecutionState)
        ensures
            r.stack@ == Seq::<U256>::empty(),
            r.memory@ == Seq::<u8>::empty(),
            r.input_data@ == input_data@,
            r.return_data@ == Seq::<u8>::empty(),
            r.output_data@ == Seq::<u8>::empty(),
            r.selfdestroyed.is_none(),
            r.caller == caller,
            r.receiver == receiver,
    {
        ExecutionState {
            stack: Stack::new(),
            memory: Memory::new(),
            input_data,
            return_data: Vec::new(),
            output_data: Vec::new(),
            selfdestroyed: None,
            caller,
            receiver,
        }
    }
}

/// The dispatch context of one call.
pub struct Machine {
    pub state: ExecutionState,
    pub bytecode: Bytecode,
    pub pc: usize,
    pub reverted: bool,
    /// Set in a call that may not change state (a static call).
    pub read_only: bool,
}

/// What a call produced.
pub struct Output {
    pub reverted: bool,
    pub output_data: Vec<u8>,
    pub selfdestroyed: Option<Address>,
}

impl Machine {
    pub open spec fn model(&self) -> MachineModel {
        MachineModel {
            stack: self.state.stack@,
            memory: self.state.memory@,
            input_data: self.state.input_data@,
            return_data: self.state.return_data@,
            output_data: self.state.output_data@,
            caller: self.state.caller@,
            receiver: self.state.receiver@,
            selfdestroyed: self.state.selfdestroyed,
            pc: self.pc as nat,
            reverted: self.reverted,
            read_only: self.read_only,
        }
    }

    /// What an instruction leaves alone.
    pub open spec fn same_context(&self, other: &Machine) -> bool {
        &&& other.bytecode == self.bytecode
        &&& other.read_only == self.read_only
        &&& other.state.caller == self.state.caller
        &&& other.state.receiver == self.state.receiver
    }

    /// A machine at the start of `bytecode`, in a call that may change state.
    pub fn new(state: ExecutionState, bytecode: Bytecode) -> (r: Machine)
        ensures
            r.state == state,
            r.bytecode == bytecode,
            r.pc == 0,
            !r.reverted,
            !r.read_only,
    {
        Machine::with_mode(state, bytecode, false)
    }

    /// A machine at the start of `bytecode`; `read_only` is set in a call that may not
    /// change state.
    pub fn with_mode(state: ExecutionState, bytecode: Bytecode, read_only: bool) -> (r: Machine)
        ensures
            r.state == state,
            r.bytecode == bytecode,
            r.pc == 0,
            !r.reverted,
            r.read_only == read_only,
    {
        Machine { state, bytecode, pc: 0, reverted: false, read_only }
    }
}


impl Machine {
    /// Pops the top word, which must be there.
    fn pop_word(&mut self) -> (r: U256)
        requires
            old(self).state.stack@.len() > 0,
        ensures
            r == old(self).state.stack@.last(),
            final(self).state.stack@ == old(self).state.stack@.drop_last(),
            final(self).model() == (MachineModel {
                stack: old(self).state.stack@.drop_last(),
                ..old(self).model()
            }),
            old(self).same_context(final(self)),
    {
        match self.state.stack.pop() {
            Ok(w) => w,
            Err(_) => U256::zero(),
        }
    }

    /// Pushes a word onto a stack that has room, and moves to the next instruction.
    fn push_and_continue(&mut self, w: U256) -> (r: Result<ControlFlow, StatusCode>)
        requires
            old(self).state.stack@.len() < STACK_CAPACITY,
            old(self).pc < usize::MAX,
        ensures
            (final(self).model(), r) == continue_with(
                old(self).model(),
                old(self).state.stack@.push(w),
            ),
            old(self).same_context(final(self)),
    {
        let _ = self.state.stack.push(w);
        self.pc = self.pc + 1;
        Ok(ControlFlow::Continue)
    }

    /// The two-operand arithmetic and comparison instructions.
    fn exec_binary(&mut self, op: u8) -> (r: Result<ControlFlow, StatusCode>)
        requires
            old(self).pc < old(self).bytecode.bytes().len() <= usize::MAX,
            old(self).state.stack@.len() <= STACK_CAPACITY,
            old(self).bytecode.bytes()[old(self).pc as int] == op,
            is_binary_op(op),
        ensures
            (final(self).model(), r) == spec_step(old(self).bytecode.bytes(), old(self).model()),
            old(self).same_context(final(self)),
    {
        let ghost s = self.state.stack@;
        if self.state.stack.len() < 2 {
            return Err(StatusCode::StackUnderflow);
        }
        let a = self.pop_word();
        let b = self.pop_word();
        let w = if op == ADD {
            a.wrapping_add(&b)
        } else if op == MUL {
            a.wrapping_mul(&b)
        } else if op == SUB {
            a.wrapping_sub(&b)
        } else if op == DIV {
            a.div(&b)
        } else if op == SDIV {
            a.sdiv(&b)
        } else if op == MOD {
            a.rem(&b)
        } else if op == SMOD {
            a.smod(&b)
        } else if op == EXP {
            a.exp(&b)
        } else if op == SIGNEXTEND {
            b.signextend(&a)
        } else if op == LT {
            U256::from_bool(a.lt(&b))
        } else if op == GT {
            U256::from_bool(a.gt(&b))
        } else if op == SLT {
            U256::from_bool(a.slt(&b))
        } else if op == SGT {
            U256::from_bool(a.sgt(&b))
        } else if op == EQ {
            U256::from_bool(a.eq_word(&b))
        } else if op == AND {
            a.and(&b)
        } else if op == OR {
            a.or(&b)
        } else if op == XOR {
            a.xor(&b)
        } else if op == BYTE {
            b.byte(&a)
        } else if op == SHL {
            b.shl(&a)
        } else if op == SHR {
            b.shr(&a)
        } else {
            b.sar(&a)
        };
        proof {
            lemma_word_of_value(w);
            assert(s.drop_last().drop_last() =~= pop_n(s, 2));
        }
        self.push_and_continue(w)
    }

    /// ISZERO, POP, JUMPDEST, and the instructions that push a size or the program
    /// counter.
    fn exec_push_value(&mut self, op: u8) -> (r: Result<ControlFlow, StatusCode>)
        requires
            old(self).pc < old(self).bytecode.bytes().len() <= usize::MAX,
            old(self).state.stack@.len() <= STACK_CAPACITY,
            old(self).bytecode.bytes()[old(self).pc as int] == op,
            op == CALLDATASIZE || op == RETURNDATASIZE || op == PC || op == MSIZE || op == ISZERO
                || op == POP || op == JUMPDEST,
        ensures
            (final(self).model(), r) == spec_step(old(self).bytecode.bytes(), old(self).model()),
            old(self).same_context(final(self)),
    {
        let ghost s = self.state.stack@;
        if op == JUMPDEST {
            self.pc = self.pc + 1;
            return Ok(ControlFlow::Continue);
        }
        if op == ISZERO || op == POP {
            if self.state.stack.len() < 1 {
                return Err(StatusCode::StackUnderflow);
            }
            let a = self.pop_word();
            proof {
                assert(s.drop_last() =~= pop_n(s, 1));
            }
            if op == POP {
                self.pc = self.pc + 1;
                return Ok(ControlFlow::Continue);
            }
            let w = U256::from_bool(a.is_zero());
            return self.push_and_continue(w);
        }
        if self.state.stack.len() >= STACK_CAPACITY {
            return Err(StatusCode::StackOverflow);
        }
        let n: usize = if op == CALLDATASIZE {
            self.state.input_data.len()
        } else if op == RETURNDATASIZE {
            self.state.return_data.len()
        } else if op == PC {
            self.pc
        } else {
            self.state.memory.len()
        };
        let w = U256::from_u128(n as u128);
        proof {
            lemma_word_of_value(w);
        }
        self.push_and_continue(w)
    }

    /// PUSH1 to PUSH32: the immediates that follow, as a right-aligned word.
    fn exec_push(&mut self, op: u8) -> (r: Result<ControlFlow, StatusCode>)
        requires
            old(self).pc < old(self).bytecode.bytes().len() <= usize::MAX,
            old(self).state.stack@.len() <= STACK_CAPACITY,
            old(self).bytecode.bytes()[old(self).pc as int] == op,
            PUSH1 <= op <= PUSH32,
        ensures
            (final(self).model(), r) == spec_step(old(self).bytecode.bytes(), old(self).model()),
            old(self).same_context(final(self)),
    {
        if self.state.stack.len() >= STACK_CAPACITY {
            return Err(StatusCode::StackOverflow);
        }
        let k = (op - PUSH1 + 1) as usize;
        let code_len = self.bytecode.len();
        let pc = self.pc;
        let ghost code = self.bytecode.bytes();
        let ghost operand = push_operand(code, pc as nat, k as nat);
        let mut bytes: Vec<u8> = Vec::new();
        let mut idx: usize = 0;
        while idx < 32
            invariant
                idx <= 32,
                1 <= k <= 32,
                pc < code_len,
                code_len == code.len(),
                code == self.bytecode.bytes(),
                operand == push_operand(code, pc as nat, k as nat),
                bytes@.len() == idx,
                forall|j: int| 0 <= j < idx ==> bytes@[j] == operand[j],
            decreases 32 - idx,
        {
            let b: u8 = if idx < 32 - k {
                0
            } else if idx - (32 - k) < code_len - pc - 1 {
                self.bytecode.get(pc + 1 + (idx - (32 - k)))
            } else {
                0
            };
            bytes.push(b);
            idx = idx + 1;
        }
        proof {
            assert(bytes@ =~= operand);
        }
        let w = U256::from_be_slice(bytes.as_slice());
        proof {
            lemma_word_of_value(w);
        }
        let _ = self.state.stack.push(w);
        self.pc = if k > code_len - pc - 1 {
            code_len
        } else {
            pc + 1 + k
        };
        Ok(ControlFlow::Continue)
    }

    /// DUP1 to DUP16 and SWAP1 to SWAP16.
    fn exec_dup_swap(&mut self, op: u8) -> (r: Result<ControlFlow, StatusCode>)
        requires
            old(self).pc < old(self).bytecode.bytes().len() <= usize::MAX,
            old(self).state.stack@.len() <= STACK_CAPACITY,
            old(self).bytecode.bytes()[old(self).pc as int] == op,
            DUP1 <= op <= SWAP16,
        ensures
            (final(self).model(), r) == spec_step(old(self).bytecode.bytes(), old(self).model()),
            old(self).same_context(final(self)),
    {
        let ghost s = self.state.stack@;
        if op <= DUP16 {
            let k = (op - DUP1 + 1) as usize;
            let w = match self.state.stack.peek(k - 1) {
                Ok(w) => w,
                Err(e) => {
                    return Err(e);
                },
            };
            if self.state.stack.len() >= STACK_CAPACITY {
                return Err(StatusCode::StackOverflow);
            }
            self.push_and_continue(w)
        } else {
            let k = (op - SWAP1 + 1) as usize;
            match self.state.stack.swap_top_with(k) {
                Ok(()) => {},
                Err(e) => {
                    return Err(e);
                },
            }
            proof {
                assert(self.state.stack@ =~= swapped(s, k as nat));
            }
            self.pc = self.pc + 1;
            Ok(ControlFlow::Continue)
        }
    }
}


impl Machine {
    /// MLOAD and MSTORE: a word read from, or written to, 32 bytes of memory.
    fn exec_memory(&mut self, op: u8) -> (r: Result<ControlFlow, StatusCode>)
        requires
            old(self).pc < old(self).bytecode.bytes().len() <= usize::MAX,
            old(self).state.stack@.len() <= STACK_CAPACITY,
            old(self).bytecode.bytes()[old(self).pc as int] == op,
            op == MLOAD || op == MSTORE || op == MSTORE8,
        ensures
            (final(self).model(), r) == spec_step(old(self).bytecode.bytes(), old(self).model()),
            old(self).same_context(final(self)),
    {
        let ghost s = self.state.stack@;
        let needed: usize = if op == MLOAD {
            1
        } else {
            2
        };
        if self.state.stack.len() < needed {
            return Err(StatusCode::StackUnderflow);
        }
        let off = self.pop_word();
        let val = if op != MLOAD {
            self.pop_word()
        } else {
            U256::zero()
        };
        proof {
            assert(s.drop_last() =~= pop_n(s, 1));
            if op != MLOAD {
                assert(s.drop_last().drop_last() =~= pop_n(s, 2));
            }
        }
        let width: u64 = if op == MSTORE8 {
            1
        } else {
            32
        };
        let region = match get_memory_region(&mut self.state.memory, off, U256::from_u64(width)) {
            Ok(Some(region)) => region,
            Ok(None) => {
                return Err(StatusCode::IllegalMemoryAccess);
            },
            Err(e) => {
                return Err(e);
            },
        };
        if op == MLOAD {
            let bytes = self.state.memory.read(region.offset, 32);

            let w = U256::from_be_slice(bytes.as_slice());
            proof {
                lemma_word_of_value(w);
            }
            self.push_and_continue(w)
        } else if op == MSTORE {
            let bytes = val.to_be_bytes();
            self.state.memory.write(region.offset, bytes.as_slice());
            self.pc = self.pc + 1;
            Ok(ControlFlow::Continue)
        } else {
            let bytes = val.to_be_bytes();
            let low = [bytes[31]];
            proof {
                assert(low@ =~= seq![word_bytes(val)[31]]);
            }
            self.state.memory.write(region.offset, &low);
            self.pc = self.pc + 1;
            Ok(ControlFlow::Continue)
        }
    }
}


impl Machine {
    /// JUMP and JUMPI: the operands are popped whether or not the jump is valid.
    fn exec_jump(&mut self, op: u8) -> (r: Result<ControlFlow, StatusCode>)
        requires
            old(self).pc < old(self).bytecode.bytes().len() <= usize::MAX,
            old(self).state.stack@.len() <= STACK_CAPACITY,
            old(self).bytecode.bytes()[old(self).pc as int] == op,
            op == JUMP || op == JUMPI,
        ensures
            (final(self).model(), r) == spec_step(old(self).bytecode.bytes(), old(self).model()),
            old(self).same_context(final(self)),
    {
        let ghost s = self.state.stack@;
        if op == JUMP {
            if self.state.stack.len() < 1 {
                return Err(StatusCode::StackUnderflow);
            }
            let dest = self.pop_word();
            proof {
                assert(s.drop_last() =~= pop_n(s, 1));
            }
            let to = jump(&self.bytecode, self.pc, dest);
            match to {
                Ok(d) => {
                    self.pc = d;
                    Ok(ControlFlow::Jump)
                },
                Err(e) => Err(e),
            }
        } else {
            if self.state.stack.len() < 2 {
                return Err(StatusCode::StackUnderflow);
            }
            let dest = self.pop_word();
            let test = self.pop_word();
            proof {
                assert(s.drop_last().drop_last() =~= pop_n(s, 2));
            }
            let to = jumpi(&self.bytecode, self.pc, dest, test);
            match to {
                Ok(d) => {
                    self.pc = d;
                    Ok(ControlFlow::Jump)
                },
                Err(e) => Err(e),
            }
        }
    }

    /// STOP, RETURN and REVERT: the call ends with its output data.
    fn exec_halt(&mut self, op: u8) -> (r: Result<ControlFlow, StatusCode>)
        requires
            old(self).pc < old(self).bytecode.bytes().len() <= usize::MAX,
            old(self).state.stack@.len() <= STACK_CAPACITY,
            old(self).bytecode.bytes()[old(self).pc as int] == op,
            op == STOP || op == RETURN || op == REVERT,
        ensures
            (final(self).model(), r) == spec_step(old(self).bytecode.bytes(), old(self).model()),
            old(self).same_context(final(self)),
    {
        let ghost s = self.state.stack@;
        if op == STOP {
            let out = stop(&mut self.state);
            match out {
                Ok(out) => {
                    self.state.output_data = out.return_data;
                    proof {
                        assert(self.state.output_data@ =~= Seq::<u8>::empty());
                    }
                    return Ok(ControlFlow::Exit);
                },
                Err(e) => {
                    return Err(e);
                },
            }
        }
        if self.state.stack.len() < 2 {
            return Err(StatusCode::StackUnderflow);
        }
        let offset = self.pop_word();
        let size = self.pop_word();
        proof {
            assert(s.drop_last().drop_last() =~= pop_n(s, 2));
        }
        let out = if op == RETURN {
            ret(&mut self.state, offset, size)
        } else {
            revert(&mut self.state, offset, size)
        };
        match out {
            Ok(out) => {
                self.state.output_data = out.return_data;
                if op == REVERT {
                    self.reverted = true;
                }
                Ok(ControlFlow::Exit)
            },
            Err(e) => Err(e),
        }
    }

    /// RETURNDATACOPY.
    fn exec_returndatacopy(&mut self, op: u8) -> (r: Result<ControlFlow, StatusCode>)
        requires
            old(self).pc < old(self).bytecode.bytes().len() <= usize::MAX,
            old(self).state.stack@.len() <= STACK_CAPACITY,
            old(self).bytecode.bytes()[old(self).pc as int] == op,
            op == RETURNDATACOPY,
        ensures
            (final(self).model(), r) == spec_step(old(self).bytecode.bytes(), old(self).model()),
            old(self).same_context(final(self)),
    {
        let ghost s = self.state.stack@;
        if self.state.stack.len() < 3 {
            return Err(StatusCode::StackUnderflow);
        }
        let mem_index = self.pop_word();
        let input_index = self.pop_word();
        let size = self.pop_word();
        proof {
            assert(s.drop_last().drop_last().drop_last() =~= pop_n(s, 3));
        }
        match returndatacopy(&mut self.state, mem_index, input_index, size) {
            Ok(()) => {
                self.pc = self.pc + 1;
                Ok(ControlFlow::Continue)
            },
            Err(e) => Err(e),
        }
    }

    /// Executes the instruction at the program counter.
    pub fn step(&mut self) -> (r: Result<ControlFlow, StatusCode>)
        requires
            old(self).pc < old(self).bytecode.bytes().len(),
            old(self).state.stack@.len() <= STACK_CAPACITY,
        ensures
            (final(self).model(), r) == spec_step(old(self).bytecode.bytes(), old(self).model()),
            old(self).same_context(final(self)),
            final(self).state.stack@.len() <= STACK_CAPACITY,
    {
        let _ = self.bytecode.len();
        let op = self.bytecode.get(self.pc);
        if op == ADD || op == MUL || op == SUB || op == DIV || op == SDIV || op == MOD || op == SMOD
            || op == EXP || op == SIGNEXTEND || op == LT || op == GT || op == SLT || op == SGT || op
            == EQ || op == AND || op == OR || op == XOR || op == BYTE || op == SHL || op == SHR
            || op == SAR {
            self.exec_binary(op)
        } else if op == ADDMOD || op == MULMOD || op == NOT || op == CALLDATALOAD || op
            == CODESIZE || op == ADDRESS || op == CALLER {
            self.exec_misc(op)
        } else if op == CALLDATACOPY || op == CODECOPY {
            self.exec_copy(op)
        } else if op == CALLDATASIZE || op == RETURNDATASIZE || op == PC || op == MSIZE || op
            == ISZERO || op == POP || op == JUMPDEST {
            self.exec_push_value(op)
        } else if op == MLOAD || op == MSTORE || op == MSTORE8 {
            self.exec_memory(op)
        } else if op == JUMP || op == JUMPI {
            self.exec_jump(op)
        } else if PUSH1 <= op && op <= PUSH32 {
            self.exec_push(op)
        } else if DUP1 <= op && op <= SWAP16 {
            self.exec_dup_swap(op)
        } else if op == STOP || op == RETURN || op == REVERT {
            self.exec_halt(op)
        } else if op == RETURNDATACOPY {
            self.exec_returndatacopy(op)
        } else if op == SELFDESTRUCT {
            self.exec_selfdestruct(op)
        } else if op == KECCAK256 || op == BALANCE || op == ORIGIN || op == CALLVALUE || op
            == GASPRICE || op == EXTCODESIZE || op == EXTCODEHASH || (BLOCKHASH <= op && op
            <= BASEFEE) || op == SLOAD || op == SSTORE || op == GAS || (LOG0 <= op && op <= LOG4)
            || is_call_instruction(op) {
            Ok(ControlFlow::Host)
        } else if op == INVALID {
            invalid(&mut self.state).map(|_u: ()| ControlFlow::Continue)
        } else {
            Err(StatusCode::UndefinedInstruction)
        }
    }

    /// Runs instructions until the program halts or runs off the end of the code
    /// (`Exit`), reaches an instruction that needs the host (`Host`), fails, or `fuel`
    /// instructions have run without that (`OutOfGas`).
    pub fn execute(&mut self, fuel: u64) -> (r: Result<ControlFlow, StatusCode>)
        requires
            old(self).state.stack@.len() <= STACK_CAPACITY,
        ensures
            (final(self).model(), r) == spec_run(
                old(self).bytecode.bytes(),
                old(self).model(),
                fuel as nat,
            ),
            old(self).same_context(final(self)),
    {
        let mut left = fuel;
        let ghost code = self.bytecode.bytes();
        loop
            invariant
                code == self.bytecode.bytes(),
                old(self).same_context(self),
                self.state.stack@.len() <= STACK_CAPACITY,
                spec_run(code, old(self).model(), fuel as nat) == spec_run(
                    code,
                    self.model(),
                    left as nat,
                ),
            decreases left,
        {
            if self.pc >= self.bytecode.len() {
                return Ok(ControlFlow::Exit);
            }
            if left == 0 {
                return Err(StatusCode::OutOfGas);
            }
            match self.step() {
                Ok(ControlFlow::Exit) => {
                    return Ok(ControlFlow::Exit);
                },
                Ok(ControlFlow::Host) => {
                    return Ok(ControlFlow::Host);
                },
                Ok(_) => {},
                Err(e) => {
                    return Err(e);
                },
            }
            left = left - 1;
        }
    }
}

/// Runs `bytecode` on `state` with a budget of `fuel` instructions, and gathers what
/// the call produced; `read_only` is set in a call that may not change state. With no
/// host at hand, an instruction that needs one ends the run with `HostRequired`.
pub fn execute(bytecode: Bytecode, state: ExecutionState, read_only: bool, fuel: u64) -> (r: Result<
    Output,
    StatusCode,
>)
    requires
        state.stack@.len() <= STACK_CAPACITY,
    ensures
        ({
            let start = (Machine { state, bytecode, pc: 0, reverted: false, read_only }).model();
            let (end, res) = spec_run(bytecode.bytes(), start, fuel as nat);
            match res {
                Ok(ControlFlow::Host) => r == Err::<Output, StatusCode>(StatusCode::HostRequired),
                Ok(_) => r matches Ok(out) && out.reverted == end.reverted && out.output_data@
                    == end.output_data && out.selfdestroyed == end.selfdestroyed,
                Err(e) => r matches Err(e2) && e2 == e,
            }
        }),
{
    let mut m = Machine::with_mode(state, bytecode, read_only);
    match m.execute(fuel) {
        Ok(ControlFlow::Host) => Err(StatusCode::HostRequired),
        Ok(_) => Ok(
            Output {
                reverted: m.reverted,
                output_data: m.state.output_data,
                selfdestroyed: m.state.selfdestroyed,
            },
        ),
        Err(e) => Err(e),
    }
}


impl Machine {
    /// ADDMOD, MULMOD, NOT, CALLDATALOAD and CODESIZE.
    fn exec_misc(&mut self, op: u8) -> (r: Result<ControlFlow, StatusCode>)
        requires
            old(self).pc < old(self).bytecode.bytes().len() <= usize::MAX,
            old(self).state.stack@.len() <= STACK_CAPACITY,
            old(self).bytecode.bytes()[old(self).pc as int] == op,
            op == ADDMOD || op == MULMOD || op == NOT || op == CALLDATALOAD || op == CODESIZE || op
                == ADDRESS || op == CALLER,
        ensures
            (final(self).model(), r) == spec_step(old(self).bytecode.bytes(), old(self).model()),
            old(self).same_context(final(self)),
    {
        let ghost s = self.state.stack@;
        if op == CODESIZE || op == ADDRESS || op == CALLER {
            if self.state.stack.len() >= STACK_CAPACITY {
                return Err(StatusCode::StackOverflow);
            }
            let w = if op == CODESIZE {
                U256::from_u128(self.bytecode.len() as u128)
            } else if op == ADDRESS {
                self.state.receiver.as_evm_word()
            } else {
                self.state.caller.as_evm_word()
            };
            proof {
                lemma_word_of_value(w);
            }
            return self.push_and_continue(w);
        }
        if op == ADDMOD || op == MULMOD {
            if self.state.stack.len() < 3 {
                return Err(StatusCode::StackUnderflow);
            }
            let a = self.pop_word();
            let b = self.pop_word();
            let n = self.pop_word();
            proof {
                assert(s.drop_last().drop_last().drop_last() =~= pop_n(s, 3));
            }
            let w = if op == ADDMOD {
                a.addmod(&b, &n)
            } else {
                a.mulmod(&b, &n)
            };
            proof {
                lemma_word_of_value(w);
            }
            return self.push_and_continue(w);
        }
        if self.state.stack.len() < 1 {
            return Err(StatusCode::StackUnderflow);
        }
        let a = self.pop_word();
        proof {
            assert(s.drop_last() =~= pop_n(s, 1));
        }
        if op == NOT {
            let w = a.not();
            return self.push_and_continue(w);
        }
        let w = self.call_data_word(&a);
        self.push_and_continue(w)
    }

    /// The 32 bytes of input from `offset`, zero-padded past its end, as a word.
    fn call_data_word(&self, offset: &U256) -> (r: U256)
        ensures
            r == word_of(be_value(right_pad(skip(self.state.input_data@, offset.value()), 32))),
    {
        let bytes = read_padded(self.state.input_data.as_slice(), offset, 32);
        let w = U256::from_be_slice(bytes.as_slice());
        proof {
            lemma_word_of_value(w);
        }
        w
    }
}


impl Machine {
    /// SELFDESTRUCT: records the beneficiary for the host and halts.
    fn exec_selfdestruct(&mut self, op: u8) -> (r: Result<ControlFlow, StatusCode>)
        requires
            old(self).pc < old(self).bytecode.bytes().len() <= usize::MAX,
            old(self).state.stack@.len() <= STACK_CAPACITY,
            old(self).bytecode.bytes()[old(self).pc as int] == op,
            op == SELFDESTRUCT,
        ensures
            (final(self).model(), r) == spec_step(old(self).bytecode.bytes(), old(self).model()),
            old(self).same_context(final(self)),
    {
        let ghost s = self.state.stack@;
        if self.state.stack.len() < 1 {
            return Err(StatusCode::StackUnderflow);
        }
        if self.read_only {
            return Err(StatusCode::StaticModeViolation);
        }
        let w = self.pop_word();
        proof {
            assert(s.drop_last() =~= pop_n(s, 1));
        }
        match Address::try_from_word(w) {
            Ok(beneficiary) => {
                proof {
                    lemma_address_of(beneficiary);
                }
                self.state.selfdestroyed = Some(beneficiary);
                Ok(ControlFlow::Exit)
            },
            Err(e) => Err(e),
        }
    }
}


impl Machine {
    /// CALLDATACOPY and CODECOPY.
    fn exec_copy(&mut self, op: u8) -> (r: Result<ControlFlow, StatusCode>)
        requires
            old(self).pc < old(self).bytecode.bytes().len() <= usize::MAX,
            old(self).state.stack@.len() <= STACK_CAPACITY,
            old(self).bytecode.bytes()[old(self).pc as int] == op,
            op == CALLDATACOPY || op == CODECOPY,
        ensures
            (final(self).model(), r) == spec_step(old(self).bytecode.bytes(), old(self).model()),
            old(self).same_context(final(self)),
    {
        let ghost s = self.state.stack@;
        if self.state.stack.len() < 3 {
            return Err(StatusCode::StackUnderflow);
        }
        let mem_offset = self.pop_word();
        let src_offset = self.pop_word();
        let size = self.pop_word();
        proof {
            assert(s.drop_last().drop_last().drop_last() =~= pop_n(s, 3));
        }
        let region = match get_memory_region(&mut self.state.memory, mem_offset, size) {
            Err(e) => {
                return Err(e);
            },
            Ok(reg) => reg,
        };
        match region {
            Some(reg) => {
                let data = if op == CALLDATACOPY {
                    read_padded(self.state.input_data.as_slice(), &src_offset, reg.size)
                } else {
                    self.bytecode.padded_code(&src_offset, reg.size)
                };
                self.state.memory.write(reg.offset, data.as_slice());
            },
            None => {},
        }
        self.pc = self.pc + 1;
        Ok(ControlFlow::Continue)
    }
}


/// What a host instruction asks of the host.
pub struct HostRequest {
    pub op: u8,
    /// The stack operands, the top first. For KECCAK256 and the logs the first two are
    /// the memory offset and length; a log's topics follow.
    pub operands: Vec<U256>,
    /// The memory that the instruction reads: KECCAK256's input, a log's data.
    pub data: Vec<u8>,
}

/// Whether an instruction is carried out by the host.
pub fn is_host_instruction(op: u8) -> (r: bool)
    ensures
        r == is_host_op(op),
{
    op == KECCAK256 || op == BALANCE || op == ORIGIN || op == CALLVALUE || op == GASPRICE || op
        == EXTCODESIZE || op == EXTCODEHASH || (BLOCKHASH <= op && op <= BASEFEE) || op == SLOAD
        || op == SSTORE || op == GAS || (LOG0 <= op && op <= LOG4) || is_call_instruction(op)
}

/// Whether a host instruction is completed with `finish_host_call`.
pub fn is_call_instruction(op: u8) -> (r: bool)
    ensures
        r == is_call_op(op),
{
    op == CALL || op == CALLCODE || op == DELEGATECALL || op == STATICCALL || op == CREATE || op
        == CREATE2 || op == EXTCODECOPY
}

fn input_region_of(op: u8) -> (r: Option<(usize, usize)>)
    ensures
        match input_region(op) {
            Some((i, j)) => r == Some((i as usize, j as usize)) && i < j && j < host_operand_count(
                op,
            ),
            None => r.is_none(),
        },
{
    if op == KECCAK256 || (LOG0 <= op && op <= LOG4) {
        Some((0, 1))
    } else if op == CALL || op == CALLCODE {
        Some((3, 4))
    } else if op == DELEGATECALL || op == STATICCALL {
        Some((2, 3))
    } else if op == CREATE || op == CREATE2 {
        Some((1, 2))
    } else {
        None
    }
}

fn output_region_of(op: u8) -> (r: Option<(usize, usize)>)
    ensures
        match output_region(op) {
            Some((a, b)) => r == Some((a as usize, b as usize)) && a < host_operand_count(op) && b
                < host_operand_count(op),
            None => r.is_none(),
        },
{
    if op == CALL || op == CALLCODE {
        Some((5, 6))
    } else if op == DELEGATECALL || op == STATICCALL {
        Some((4, 5))
    } else if op == EXTCODECOPY {
        Some((1, 3))
    } else {
        None
    }
}

/// How many stack operands a host instruction takes.
pub fn host_operand_count_of(op: u8) -> (r: usize)
    ensures
        r == host_operand_count(op),
{
    if op == CALL || op == CALLCODE {
        7
    } else if op == DELEGATECALL || op == STATICCALL {
        6
    } else if op == CREATE2 || op == EXTCODECOPY {
        4
    } else if op == CREATE {
        3
    } else if op == KECCAK256 || op == SSTORE {
        2
    } else if LOG0 <= op && op <= LOG4 {
        (2 + (op - LOG0)) as usize
    } else if op == BALANCE || op == EXTCODESIZE || op == EXTCODEHASH || op == BLOCKHASH || op
        == SLOAD {
        1
    } else {
        0
    }
}

impl Machine {
    /// Takes the operands, and the memory data, of the host instruction at the program
    /// counter; a state change fails in read-only mode.
    pub fn begin_host(&mut self) -> (r: Result<HostRequest, StatusCode>)
        requires
            old(self).pc < old(self).bytecode.bytes().len(),
            old(self).state.stack@.len() <= STACK_CAPACITY,
            is_host_op(old(self).bytecode.bytes()[old(self).pc as int]),
        ensures
            final(self).model() == spec_begin_host(
                old(self).bytecode.bytes(),
                old(self).model(),
            ).0,
            match spec_begin_host(old(self).bytecode.bytes(), old(self).model()).1 {
                Ok((ops, data)) => r matches Ok(req) && req.op == old(self).bytecode.bytes()[old(
                    self,
                ).pc as int] && req.operands@ == ops && req.data@ == data,
                Err(e) => r matches Err(e2) && e2 == e,
            },
            old(self).same_context(final(self)),
            final(self).state.stack@.len() <= STACK_CAPACITY,
    {
        let ghost m0 = self.model();
        let ghost s = self.state.stack@;
        let op = self.bytecode.get(self.pc);
        let k = host_operand_count_of(op);
        let n = self.state.stack.len();
        if n < k {
            return Err(StatusCode::StackUnderflow);
        }
        let returns_word = op != SSTORE && !(LOG0 <= op && op <= LOG4) && op != EXTCODECOPY;
        if returns_word && n - k >= STACK_CAPACITY {
            return Err(StatusCode::StackOverflow);
        }
        let transfers_value = if op == CALL {
            match self.state.stack.peek(2) {
                Ok(v) => !v.is_zero(),
                Err(_) => false,
            }
        } else {
            false
        };
        if self.read_only && (op == SSTORE || (LOG0 <= op && op <= LOG4) || op == CREATE || op
            == CREATE2 || transfers_value) {
            return Err(StatusCode::StaticModeViolation);
        }
        let mut operands: Vec<U256> = Vec::new();
        let mut i: usize = 0;
        proof {
            assert(s =~= pop_n(s, 0));
            assert(operands@ =~= top_words(s, 0));
        }
        while i < k
            invariant
                i <= k,
                k == host_operand_count(op),
                k <= s.len(),
                s == m0.stack,
                self.model() == (MachineModel { stack: pop_n(s, i as nat), ..m0 }),
                operands@ == top_words(s, i as nat),
                old(self).same_context(self),
                self.bytecode == old(self).bytecode,
            decreases k - i,
        {
            let w = self.pop_word();
            operands.push(w);
            proof {
                assert(pop_n(s, i as nat).drop_last() =~= pop_n(s, (i + 1) as nat));
                assert(operands@ =~= top_words(s, (i + 1) as nat));
            }
            i = i + 1;
        }
        let data = match input_region_of(op) {
            Some((i, j)) => match exit(&mut self.state.memory, operands[i], operands[j], Outcome::Return) {
                Ok(out) => out.return_data,
                Err(e) => {
                    return Err(e);
                },
            },
            None => Vec::new(),
        };
        match output_region_of(op) {
            Some((a, b)) => match get_memory_region(&mut self.state.memory, operands[a], operands[b]) {
                Ok(_) => {},
                Err(e) => {
                    return Err(e);
                },
            },
            None => {},
        }
        Ok(HostRequest { op, operands, data })
    }

    /// Completes the host instruction at the program counter with the host's `result`
    /// (ignored by instructions that push nothing), and moves on.
    pub fn finish_host(&mut self, result: U256) -> (r: Result<ControlFlow, StatusCode>)
        requires
            old(self).pc < old(self).bytecode.bytes().len(),
            is_host_op(old(self).bytecode.bytes()[old(self).pc as int]),
            !is_call_op(old(self).bytecode.bytes()[old(self).pc as int]),
            host_returns_word(old(self).bytecode.bytes()[old(self).pc as int]) ==> old(
                self,
            ).state.stack@.len() < STACK_CAPACITY,
        ensures
            final(self).model() == spec_finish_host(
                old(self).bytecode.bytes(),
                old(self).model(),
                result,
            ),
            r == Ok::<ControlFlow, StatusCode>(ControlFlow::Continue),
            old(self).same_context(final(self)),
    {
        let _ = self.bytecode.len();
        let op = self.bytecode.get(self.pc);
        if op != SSTORE && !(LOG0 <= op && op <= LOG4) {
            let _ = self.state.stack.push(result);
        }
        self.pc = self.pc + 1;
        Ok(ControlFlow::Continue)
    }
}


impl Machine {
    /// Completes the call, creation or EXTCODECOPY at the program counter, whose
    /// operands `begin_host` handed out, with the host's `result` and `output`.
    pub fn finish_host_call(&mut self, operands: &Vec<U256>, result: U256, output: Vec<u8>) -> (r:
        Result<ControlFlow, StatusCode>)
        requires
            old(self).pc < old(self).bytecode.bytes().len(),
            is_call_op(old(self).bytecode.bytes()[old(self).pc as int]),
            operands@.len() == host_operand_count(old(self).bytecode.bytes()[old(self).pc as int]),
            host_returns_word(old(self).bytecode.bytes()[old(self).pc as int]) ==> old(
                self,
            ).state.stack@.len() < STACK_CAPACITY,
        ensures
            (final(self).model(), r) == spec_finish_call(
                old(self).bytecode.bytes(),
                old(self).model(),
                operands@,
                result,
                output@,
            ),
            old(self).same_context(final(self)),
    {
        let _ = self.bytecode.len();
        let op = self.bytecode.get(self.pc);
        if op == EXTCODECOPY {
            let region = match get_memory_region(&mut self.state.memory, operands[1], operands[3]) {
                Ok(reg) => reg,
                Err(e) => {
                    return Err(e);
                },
            };
            match region {
                Some(reg) => {
                    let data = read_padded(output.as_slice(), &operands[2], reg.size);
                    self.state.memory.write(reg.offset, data.as_slice());
                },
                None => {},
            }
            self.pc = self.pc + 1;
            return Ok(ControlFlow::Continue);
        }
        match output_region_of(op) {
            Some((a, b)) => {
                let region = match get_memory_region(
                    &mut self.state.memory,
                    operands[a],
                    operands[b],
                ) {
                    Ok(reg) => reg,
                    Err(e) => {
                        return Err(e);
                    },
                };
                match region {
                    Some(reg) => {
                        let n = if reg.size < output.len() {
                            reg.size
                        } else {
                            output.len()
                        };
                        let part = read_right_pad(output.as_slice(), n);
                        proof {
                            assert(part@ =~= output@.subrange(0, n as int));
                        }
                        self.state.memory.write(reg.offset, part.as_slice());
                    },
                    None => {},
                }
            },
            None => {},
        }
        self.state.return_data = output;
        let _ = self.state.stack.push(result);
        self.pc = self.pc + 1;
        Ok(ControlFlow::Continue)
    }
}

} // verus!
