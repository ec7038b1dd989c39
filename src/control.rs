//! The control instructions: halting, jumps, and access to the last sub-call's
//! return data.
use crate::bytecode::{is_jump_destination, Bytecode};
use crate::execution::ExecutionState;
use crate::memory::{
    get_memory_region, grown, memory_after_region, region_spec, written, Memory, MemoryRegion,
};
use crate::status::StatusCode;
use crate::word::U256;
use vstd::prelude::*;

verus! {

/// How a halting instruction ended the call.
#[derive(Clone, Copy, Debug, PartialEq, Eq, Structural)]
pub enum Outcome {
    Return,
    Revert,
}

/// What a halting instruction hands back: how it ended, and the data it returns.
pub struct HaltOutput {
    pub outcome: Outcome,
    pub return_data: Vec<u8>,
}

/// The memory after a halting instruction reads the region `(offset, size)`, and the
/// data it returns: empty for a zero size.
pub open spec fn exit_spec(mem: Seq<u8>, offset: nat, size: nat) -> (Seq<u8>, Result<
    Seq<u8>,
    StatusCode,
>) {
    match region_spec(offset, size) {
        Err(e) => (mem, Err(e)),
        Ok(None) => (mem, Ok(Seq::<u8>::empty())),
        Ok(Some(_)) => {
            let g = grown(mem, offset + size);
            (g, Ok(g.subrange(offset as int, offset + size as int)))
        },
    }
}

/// The memory after RETURNDATACOPY, and whether it succeeds. The destination region
/// is validated first; then the source range `[input_index, input_index + length)`
/// must lie within the return data, where the length counts as zero when there is no
/// region.
pub open spec fn returndatacopy_spec(
    mem: Seq<u8>,
    return_data: Seq<u8>,
    mem_index: nat,
    input_index: nat,
    size: nat,
) -> (Seq<u8>, Result<(), StatusCode>) {
    match region_spec(mem_index, size) {
        Err(e) => (mem, Err(e)),
        Ok(reg) => {
            let g = memory_after_region(mem, mem_index, size);
            let len: nat = if reg is Some {
                size
            } else {
                0
            };
            if input_index + len > return_data.len() {
                (g, Err(StatusCode::IllegalMemoryAccess))
            } else if reg is Some {
                (
                    written(
                        g,
                        mem_index,
                        return_data.subrange(input_index as int, input_index + size as int),
                    ),
                    Ok(()),
                )
            } else {
                (g, Ok(()))
            }
        },
    }
}

/// Where a taken jump to `dest` lands: one past the marker.
pub open spec fn jump_spec(code: Seq<u8>, dest: nat) -> Result<usize, StatusCode> {
    if is_jump_destination(code, dest) {
        Ok((dest + 1) as usize)
    } else {
        Err(StatusCode::BadJumpDestination)
    }
}

/// A state that differs from `old` at most in its memory.
pub open spec fn only_memory_changed(old: &ExecutionState, new: &ExecutionState) -> bool {
    &&& new.stack@ == old.stack@
    &&& new.input_data@ == old.input_data@
    &&& new.return_data@ == old.return_data@
    &&& new.output_data@ == old.output_data@
    &&& new.selfdestroyed == old.selfdestroyed
    &&& new.caller == old.caller
    &&& new.receiver == old.receiver
}

/// JUMPDEST: does nothing.
pub fn nop(state: &mut ExecutionState) -> (r: Result<(), StatusCode>)
    ensures
        r.is_ok(),
        *final(state) == *old(state),
{
    Ok(())
}

/// INVALID: always fails.
pub fn invalid(state: &mut ExecutionState) -> (r: Result<(), StatusCode>)
    ensures
        r == Err::<(), StatusCode>(StatusCode::InvalidInstruction),
        *final(state) == *old(state),
{
    Err(StatusCode::InvalidInstruction)
}

/// Reads the region `(offset, size)` of memory as the data that a halting instruction
/// returns.
pub fn exit(memory: &mut Memory, offset: U256, size: U256, status: Outcome) -> (r: Result<
    HaltOutput,
    StatusCode,
>)
    ensures
        final(memory)@ == exit_spec(old(memory)@, offset.value(), size.value()).0,
        match exit_spec(old(memory)@, offset.value(), size.value()).1 {
            Ok(data) => r matches Ok(out) && out.outcome == status && out.return_data@ == data,
            Err(e) => r matches Err(e2) && e2 == e,
        },
{
    match get_memory_region(memory, offset, size) {
        Err(e) => Err(e),
        Ok(None) => Ok(HaltOutput { outcome: status, return_data: Vec::new() }),
        Ok(Some(region)) => {
            let data = memory.read(region.offset, region.size);
            Ok(HaltOutput { outcome: status, return_data: data })
        },
    }
}

/// RETURN: ends the call with the region `(offset, size)` of memory as its output.
pub fn ret(state: &mut ExecutionState, offset: U256, size: U256) -> (r: Result<
    HaltOutput,
    StatusCode,
>)
    ensures
        only_memory_changed(old(state), final(state)),
        final(state).memory@ == exit_spec(old(state).memory@, offset.value(), size.value()).0,
        match exit_spec(old(state).memory@, offset.value(), size.value()).1 {
            Ok(data) => r matches Ok(out) && out.outcome == Outcome::Return && out.return_data@
                == data,
            Err(e) => r matches Err(e2) && e2 == e,
        },
{
    exit(&mut state.memory, offset, size, Outcome::Return)
}

/// REVERT: ends the call, marked as reverted, with the region `(offset, size)` of
/// memory as its output.
pub fn revert(state: &mut ExecutionState, offset: U256, size: U256) -> (r: Result<
    HaltOutput,
    StatusCode,
>)
    ensures
        only_memory_changed(old(state), final(state)),
        final(state).memory@ == exit_spec(old(state).memory@, offset.value(), size.value()).0,
        match exit_spec(old(state).memory@, offset.value(), size.value()).1 {
            Ok(data) => r matches Ok(out) && out.outcome == Outcome::Revert && out.return_data@
                == data,
            Err(e) => r matches Err(e2) && e2 == e,
        },
{
    exit(&mut state.memory, offset, size, Outcome::Revert)
}

/// STOP: ends the call with no output.
pub fn stop(state: &mut ExecutionState) -> (r: Result<HaltOutput, StatusCode>)
    ensures
        *final(state) == *old(state),
        r matches Ok(out) && out.outcome == Outcome::Return && out.return_data@.len() == 0,
{
    Ok(HaltOutput { outcome: Outcome::Return, return_data: Vec::new() })
}

/// RETURNDATASIZE: the length of the last sub-call's return data.
pub fn returndatasize(state: &mut ExecutionState) -> (r: Result<U256, StatusCode>)
    ensures
        *final(state) == *old(state),
        r matches Ok(w) && w.value() == old(state).return_data@.len(),
{
    Ok(U256::from_u64(state.return_data.len() as u64))
}

/// RETURNDATACOPY: copies `size` bytes of the last sub-call's return data, from
/// `input_index`, to memory at `mem_index`. A source range that reaches past the
/// return data is an illegal memory access, even for a zero size.
pub fn returndatacopy(
    state: &mut ExecutionState,
    mem_index: U256,
    input_index: U256,
    size: U256,
) -> (r: Result<(), StatusCode>)
    ensures
        only_memory_changed(old(state), final(state)),
        (final(state).memory@, r) == returndatacopy_spec(
            old(state).memory@,
            old(state).return_data@,
            mem_index.value(),
            input_index.value(),
            size.value(),
        ),
{
    let region = get_memory_region(&mut state.memory, mem_index, size);
    let region = match region {
        Err(e) => {
            return Err(e);
        },
        Ok(reg) => reg,
    };
    let rd_len = state.return_data.len();
    let src = match input_index.to_usize() {
        Some(s) => s,
        None => {
            return Err(StatusCode::IllegalMemoryAccess);
        },
    };
    if src > rd_len {
        return Err(StatusCode::IllegalMemoryAccess);
    }
    let len: usize = match region {
        Some(reg) => reg.size,
        None => 0,
    };
    if len > rd_len - src {
        return Err(StatusCode::IllegalMemoryAccess);
    }
    match region {
        Some(reg) => {
            let ghost before = state.memory@;
            let data = copy_range(&state.return_data, src, reg.size);
            state.memory.write(reg.offset, data.as_slice());
            proof {
                assert(data@ == old(state).return_data@.subrange(src as int, src + reg.size));
                assert(before == memory_after_region(
                    old(state).memory@,
                    mem_index.value(),
                    size.value(),
                ));
            }
        },
        None => {},
    }
    Ok(())
}

/// A copy of `size` bytes of `src` from `start`.
fn copy_range(src: &Vec<u8>, start: usize, size: usize) -> (r: Vec<u8>)
    requires
        start + size <= src@.len(),
    ensures
        r@ == src@.subrange(start as int, start + size),
{
    let mut out: Vec<u8> = Vec::new();
    let mut i: usize = 0;
    let n = src.len();
    while i < size
        invariant
            i <= size,
            n == src@.len(),
            start + size <= n,
            out@ == src@.subrange(start as int, start + i),
        decreases size - i,
    {
        out.push(src[start + i]);
        i = i + 1;
        proof {
            assert(out@ =~= src@.subrange(start as int, start + i));
        }
    }
    out
}

/// JUMP: the position after the marker at `dest`, which must be a valid jump
/// destination.
pub fn jump(bytecode: &Bytecode, pc: usize, dest: U256) -> (r: Result<usize, StatusCode>)
    ensures
        r == jump_spec(bytecode.bytes(), dest.value()),
{
    let _ = bytecode.len();
    let dst = match dest.to_usize() {
        Some(d) => d,
        None => {
            return Err(StatusCode::BadJumpDestination);
        },
    };
    if !bytecode.valid_jump_destination(dst) {
        return Err(StatusCode::BadJumpDestination);
    }
    // skip the marker
    Ok(dst + 1)
}

/// JUMPI: jumps as JUMP does when `test` is nonzero; otherwise moves on to `pc + 1`
/// whatever `dest` is.
pub fn jumpi(bytecode: &Bytecode, pc: usize, dest: U256, test: U256) -> (r: Result<
    usize,
    StatusCode,
>)
    requires
        pc < usize::MAX,
    ensures
        test.value() != 0 ==> r == jump_spec(bytecode.bytes(), dest.value()),
        test.value() == 0 ==> r == Ok::<usize, StatusCode>((pc + 1) as usize),
{
    if !test.is_zero() {
        jump(bytecode, pc, dest)
    } else {
        Ok(pc + 1)
    }
}


/// RETURNDATACOPY whose source range `[input_index, input_index + size)` reaches past
/// the return data always fails with an illegal memory access, even for a zero size.
pub proof fn lemma_returndatacopy_out_of_bounds(
    mem: Seq<u8>,
    return_data: Seq<u8>,
    mem_index: nat,
    input_index: nat,
    size: nat,
)
    requires
        input_index + size > return_data.len(),
    ensures
        returndatacopy_spec(mem, return_data, mem_index, input_index, size).1 == Err::<
            (),
            StatusCode,
        >(StatusCode::IllegalMemoryAccess),
{
}

} // verus!
