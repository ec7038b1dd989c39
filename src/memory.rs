//! Byte-addressable memory that grows in whole words and is zero-filled on growth,
//! and the validation of the regions that instructions address.
use crate::status::StatusCode;
use crate::word::U256;
use vstd::prelude::*;

verus! {

/// Offsets and lengths at or above 2^32 are refused.
pub open spec fn region_limit() -> nat {
    0x1_0000_0000
}

/// `n` rounded up to a whole number of 32-byte words.
pub open spec fn ceil32(n: nat) -> nat {
    if n % 32 == 0 {
        n
    } else {
        (n + 32 - n % 32) as nat
    }
}

/// `m` grown with zero bytes so that it covers `end`, rounded up to whole words;
/// unchanged when it already does.
pub open spec fn grown(m: Seq<u8>, end: nat) -> Seq<u8> {
    if ceil32(end) > m.len() {
        m + Seq::new((ceil32(end) - m.len()) as nat, |_i: int| 0u8)
    } else {
        m
    }
}

/// `m` with `src` written at `offset`.
pub open spec fn written(m: Seq<u8>, offset: nat, src: Seq<u8>) -> Seq<u8> {
    m.subrange(0, offset as int) + src + m.subrange(offset + src.len() as int, m.len() as int)
}

/// What validating the region `(offset, size)` gives: no region for a zero size; an
/// illegal memory access for a size, or with a nonzero size an offset, at or above
/// 2^32 (or, only where `usize` is narrower than 34 bits, an end it cannot hold).
pub open spec fn region_spec(offset: nat, size: nat) -> Result<Option<MemoryRegion>, StatusCode> {
    if size >= region_limit() {
        Err(StatusCode::IllegalMemoryAccess)
    } else if size == 0 {
        Ok(None)
    } else if offset >= region_limit() || ceil32(offset + size) > usize::MAX {
        Err(StatusCode::IllegalMemoryAccess)
    } else {
        Ok(Some(MemoryRegion { offset: offset as usize, size: size as usize }))
    }
}

/// The memory after validating a region: grown to cover it when it is a region.
pub open spec fn memory_after_region(m: Seq<u8>, offset: nat, size: nat) -> Seq<u8> {
    match region_spec(offset, size) {
        Ok(Some(_)) => grown(m, offset + size),
        _ => m,
    }
}

/// The interpreter's memory; its view is the bytes.
pub struct Memory {
    data: Vec<u8>,
}

impl View for Memory {
    type V = Seq<u8>;

    closed spec fn view(&self) -> Seq<u8> {
        self.data@
    }
}

/// A validated, nonempty region of memory.
#[derive(Clone, Copy, Debug, PartialEq, Eq, Structural)]
pub struct MemoryRegion {
    pub offset: usize,
    pub size: usize,
}

impl Memory {
    pub fn new() -> (r: Memory)
        ensures
            r@ == Seq::<u8>::empty(),
    {
        Memory { data: Vec::new() }
    }

    pub fn len(&self) -> (r: usize)
        ensures
            r == self@.len(),
    {
        self.data.len()
    }

    /// Grows the memory with zero bytes to cover `end`, in whole words.
    pub fn grow_to(&mut self, end: usize)
        requires
            ceil32(end as nat) <= usize::MAX,
        ensures
            final(self)@ == grown(old(self)@, end as nat),
    {
        let target: usize = if end % 32 == 0 {
            end
        } else {
            end + 32 - end % 32
        };
        let ghost start = self.data@;
        while self.data.len() < target
            invariant
                start == old(self)@,
                target == ceil32(end as nat),
                start.len() <= self.data@.len() <= if target > start.len() {
                    target as nat
                } else {
                    start.len()
                },
                self.data@ == start + Seq::new(
                    (self.data@.len() - start.len()) as nat,
                    |_i: int| 0u8,
                ),
            decreases target - self.data@.len(),
        {
            self.data.push(0);
            proof {
                assert(self.data@ =~= start + Seq::new(
                    (self.data@.len() - start.len()) as nat,
                    |_i: int| 0u8,
                ));
            }
        }
        proof {
            if target <= start.len() {
                assert(self.data@ =~= start);
            }
        }
    }

    /// A copy of `size` bytes from `offset`.
    pub fn read(&self, offset: usize, size: usize) -> (r: Vec<u8>)
        requires
            offset + size <= self@.len(),
        ensures
            r@ == self@.subrange(offset as int, offset + size),
    {
        let mut out: Vec<u8> = Vec::new();
        let mut i: usize = 0;
        let n = self.data.len();
        while i < size
            invariant
                i <= size,
                n == self@.len(),
                offset + size <= n,
                out@ == self@.subrange(offset as int, offset + i),
            decreases size - i,
        {
            out.push(self.data[offset + i]);
            i = i + 1;
            proof {
                assert(out@ =~= self@.subrange(offset as int, offset + i));
            }
        }
        out
    }

    /// Writes `src` at `offset`.
    pub fn write(&mut self, offset: usize, src: &[u8])
        requires
            offset + src@.len() <= old(self)@.len(),
        ensures
            final(self)@ == written(old(self)@, offset as nat, src@),
    {
        let mut i: usize = 0;
        let n = self.data.len();
        while i < src.len()
            invariant
                n == old(self)@.len(),
                i <= src@.len(),
                offset + src@.len() <= old(self)@.len(),
                self@.len() == old(self)@.len(),
                forall|k: int|
                    0 <= k < self@.len() ==> #[trigger] self@[k] == if offset <= k < offset + i {
                        src@[k - offset]
                    } else {
                        old(self)@[k]
                    },
            decreases src@.len() - i,
        {
            self.data.set(offset + i, src[i]);
            i = i + 1;
        }
        proof {
            assert(self@ =~= written(old(self)@, offset as nat, src@));
        }
    }
}

/// Validates the region `(offset, size)` of an instruction and grows memory to hold
/// it. A zero size is no region and changes nothing; a size, or with a nonzero size an
/// offset, at or above 2^32 is an illegal memory access.
pub fn get_memory_region(mem: &mut Memory, offset: U256, size: U256) -> (r: Result<
    Option<MemoryRegion>,
    StatusCode,
>)
    ensures
        r == region_spec(offset.value(), size.value()),
        final(mem)@ == memory_after_region(old(mem)@, offset.value(), size.value()),
        r matches Ok(Some(reg)) ==> reg.offset + reg.size <= final(mem)@.len() && reg.size > 0,
{
    let size = match size.to_u32_usize() {
        Some(s) => s,
        None => {
            return Err(StatusCode::IllegalMemoryAccess);
        },
    };
    if size == 0 {
        return Ok(None);
    }
    let offset = match offset.to_u32_usize() {
        Some(o) => o,
        None => {
            return Err(StatusCode::IllegalMemoryAccess);
        },
    };
    if size > usize::MAX - 31 || offset > usize::MAX - 31 - size {
        return Err(StatusCode::IllegalMemoryAccess);
    }
    mem.grow_to(offset + size);
    Ok(Some(MemoryRegion { offset, size }))
}

} // verus!
