//! Reading precompile inputs: parameters are consecutive 32-byte big-endian words,
//! and input that runs out reads as zero bytes.
use crate::word::{be_value, top_bit_weight, word_modulus, U256};
use vstd::prelude::*;

verus! {

/// Why a precompile failed.
#[derive(Clone, Copy, Debug, PartialEq, Eq, Structural)]
pub enum PrecompileError {
    IncorrectInputSize,
    OutOfGas,
    CallForbidden,
    InvalidInput,
    CallActorError(crate::status::StatusCode),
}

/// The first `len` bytes of `input`, padded on the right with zeros.
pub open spec fn right_pad(input: Seq<u8>, len: nat) -> Seq<u8> {
    Seq::new(len, |i: int| if i < input.len() { input[i] } else { 0u8 })
}

/// What is left of `input` after its first `n` bytes.
pub open spec fn skip(input: Seq<u8>, n: nat) -> Seq<u8> {
    if n >= input.len() {
        Seq::<u8>::empty()
    } else {
        input.subrange(n as int, input.len() as int)
    }
}

/// The `k`-th parameter word of `input`.
pub open spec fn param_word(input: Seq<u8>, k: nat) -> Seq<u8> {
    right_pad(skip(input, 32 * k), 32)
}

/// A word read as two's complement.
pub open spec fn signed_value(v: nat) -> int {
    if v >= top_bit_weight() {
        v - word_modulus()
    } else {
        v as int
    }
}

/// A parameter word as an unsigned integer below `bound`.
pub open spec fn unsigned_param(w: Seq<u8>, bound: nat) -> Result<nat, PrecompileError> {
    if be_value(w) < bound {
        Ok(be_value(w))
    } else {
        Err(PrecompileError::InvalidInput)
    }
}

/// A parameter word as a two's-complement integer in `[-bound, bound)`.
pub open spec fn signed_param(w: Seq<u8>, bound: nat) -> Result<int, PrecompileError> {
    let v = signed_value(be_value(w));
    if -bound <= v && v < bound {
        Ok(v)
    } else {
        Err(PrecompileError::InvalidInput)
    }
}

/// The first `len` bytes of `input`, padded on the right with zeros.
pub fn read_right_pad(input: &[u8], len: usize) -> (r: Vec<u8>)
    ensures
        r@ == right_pad(input@, len as nat),
{
    let mut out: Vec<u8> = Vec::new();
    let n = input.len();
    let mut i: usize = 0;
    while i < len
        invariant
            i <= len,
            n == input@.len(),
            out@.len() == i,
            forall|j: int| 0 <= j < i ==> out@[j] == right_pad(input@, len as nat)[j],
        decreases len - i,
    {
        let b = if i < n {
            input[i]
        } else {
            0
        };
        out.push(b);
        i = i + 1;
    }
    proof {
        assert(out@ =~= right_pad(input@, len as nat));
    }
    out
}

/// A cursor over precompile input that hands out one 32-byte word at a time.
pub struct U256Reader {
    input: Vec<u8>,
    offset: usize,
}

impl U256Reader {
    pub closed spec fn input(&self) -> Seq<u8> {
        self.input@
    }

    /// How many bytes have been read.
    pub closed spec fn offset(&self) -> nat {
        self.offset as nat
    }

    pub fn new(input: &[u8]) -> (r: U256Reader)
        ensures
            r.input() == input@,
            r.offset() == 0,
    {
        let mut copy: Vec<u8> = Vec::new();
        let mut i: usize = 0;
        while i < input.len()
            invariant
                i <= input@.len(),
                copy@ == input@.subrange(0, i as int),
            decreases input@.len() - i,
        {
            copy.push(input[i]);
            i = i + 1;
            proof {
                assert(copy@ =~= input@.subrange(0, i as int));
            }
        }
        proof {
            assert(copy@ =~= input@);
        }
        U256Reader { input: copy, offset: 0 }
    }

    /// The input that has not been read.
    pub fn remaining_slice(&self) -> (r: Vec<u8>)
        ensures
            r@ == skip(self.input(), self.offset()),
    {
        let n = self.input.len();
        if self.offset >= n {
            return Vec::new();
        }
        let mut out: Vec<u8> = Vec::new();
        let mut i: usize = self.offset;
        while i < n
            invariant
                self.offset <= i <= n,
                n == self.input@.len(),
                out@ == self.input@.subrange(self.offset as int, i as int),
            decreases n - i,
        {
            out.push(self.input[i]);
            i = i + 1;
            proof {
                assert(out@ =~= self.input@.subrange(self.offset as int, i as int));
            }
        }
        out
    }

    /// How many 32-byte words have been read.
    pub fn chunks_read(&self) -> (r: usize)
        ensures
            r == self.offset() / 32,
    {
        self.offset / 32
    }

    /// The next 32 bytes, padded with zeros past the end of the input.
    pub fn next_padded(&mut self) -> (r: Vec<u8>)
        requires
            old(self).offset() + 32 <= usize::MAX,
        ensures
            r@ == right_pad(skip(old(self).input(), old(self).offset()), 32),
            final(self).input() == old(self).input(),
            final(self).offset() == old(self).offset() + 32,
    {
        let rest = self.remaining_slice();
        let w = read_right_pad(rest.as_slice(), 32);
        self.offset = self.offset + 32;
        w
    }

    /// The next word, as an unsigned integer below 2^64.
    pub fn next_param_u64(&mut self) -> (r: Result<u64, PrecompileError>)
        requires
            old(self).offset() + 32 <= usize::MAX,
        ensures
            final(self).input() == old(self).input(),
            final(self).offset() == old(self).offset() + 32,
            ({
                let w = right_pad(skip(old(self).input(), old(self).offset()), 32);
                match unsigned_param(w, 0x1_0000_0000_0000_0000) {
                    Ok(v) => r == Ok::<u64, PrecompileError>(v as u64),
                    Err(e) => r == Err::<u64, PrecompileError>(e),
                }
            }),
    {
        let w = self.next_padded();
        let v = U256::from_be_slice(w.as_slice());
        match v.to_u64() {
            Some(x) => Ok(x),
            None => Err(PrecompileError::InvalidInput),
        }
    }

    /// The next word, as an unsigned integer below 2^32.
    pub fn next_param_u32(&mut self) -> (r: Result<u32, PrecompileError>)
        requires
            old(self).offset() + 32 <= usize::MAX,
        ensures
            final(self).input() == old(self).input(),
            final(self).offset() == old(self).offset() + 32,
            ({
                let w = right_pad(skip(old(self).input(), old(self).offset()), 32);
                match unsigned_param(w, 0x1_0000_0000) {
                    Ok(v) => r == Ok::<u32, PrecompileError>(v as u32),
                    Err(e) => r == Err::<u32, PrecompileError>(e),
                }
            }),
    {
        let w = self.next_padded();
        let v = U256::from_be_slice(w.as_slice());
        if v.hi == 0 && v.lo <= u32::MAX as u128 {
            Ok(v.lo as u32)
        } else {
            Err(PrecompileError::InvalidInput)
        }
    }

    /// The next word, as a two's-complement integer that fits in 64 bits.
    pub fn next_param_i64(&mut self) -> (r: Result<i64, PrecompileError>)
        requires
            old(self).offset() + 32 <= usize::MAX,
        ensures
            final(self).input() == old(self).input(),
            final(self).offset() == old(self).offset() + 32,
            ({
                let w = right_pad(skip(old(self).input(), old(self).offset()), 32);
                match signed_param(w, 0x8000_0000_0000_0000) {
                    Ok(v) => r == Ok::<i64, PrecompileError>(v as i64),
                    Err(e) => r == Err::<i64, PrecompileError>(e),
                }
            }),
    {
        let w = self.next_padded();
        let v = U256::from_be_slice(w.as_slice());
        signed_to_i64(v)
    }

    /// The next word, as a two's-complement integer that fits in 32 bits.
    pub fn next_param_i32(&mut self) -> (r: Result<i32, PrecompileError>)
        requires
            old(self).offset() + 32 <= usize::MAX,
        ensures
            final(self).input() == old(self).input(),
            final(self).offset() == old(self).offset() + 32,
            ({
                let w = right_pad(skip(old(self).input(), old(self).offset()), 32);
                match signed_param(w, 0x8000_0000) {
                    Ok(v) => r == Ok::<i32, PrecompileError>(v as i32),
                    Err(e) => r == Err::<i32, PrecompileError>(e),
                }
            }),
    {
        let w = self.next_padded();
        let v = U256::from_be_slice(w.as_slice());
        match signed_to_i64(v) {
            Ok(x) => {
                if x >= i32::MIN as i64 && x <= i32::MAX as i64 {
                    Ok(x as i32)
                } else {
                    Err(PrecompileError::InvalidInput)
                }
            },
            Err(e) => Err(e),
        }
    }
}

/// A word read as two's complement, when it fits in 64 bits.
fn signed_to_i64(v: U256) -> (r: Result<i64, PrecompileError>)
    ensures
        -0x8000_0000_0000_0000 <= signed_value(v.value()) < 0x8000_0000_0000_0000 ==> r
            == Ok::<i64, PrecompileError>(signed_value(v.value()) as i64),
        !(-0x8000_0000_0000_0000 <= signed_value(v.value()) < 0x8000_0000_0000_0000) ==> r
            == Err::<i64, PrecompileError>(PrecompileError::InvalidInput),
{
    if v.hi == 0 && v.lo < 0x8000_0000_0000_0000 {
        Ok(v.lo as i64)
    } else if v.hi == u128::MAX && v.lo >= u128::MAX - 0x7fff_ffff_ffff_ffff {
        let x = (v.lo - (u128::MAX - 0x7fff_ffff_ffff_ffff)) as i64;
        Ok(x - i64::MAX - 1)
    } else {
        Err(PrecompileError::InvalidInput)
    }
}

/// `size` bytes of `src` from `offset`, zero past its end.
pub fn read_padded(src: &[u8], offset: &U256, size: usize) -> (r: Vec<u8>)
    ensures
        r@ == right_pad(skip(src@, offset.value()), size as nat),
{
    let n = src.len();
    let start: usize = match offset.to_usize() {
        Some(o) => if o < n {
            o
        } else {
            n
        },
        None => n,
    };
    proof {
        if offset.value() >= n {
            assert(skip(src@, offset.value()) =~= skip(src@, start as nat));
        }
    }
    let mut out: Vec<u8> = Vec::new();
    let mut i: usize = 0;
    while i < size
        invariant
            i <= size,
            start <= n,
            n == src@.len(),
            out@.len() == i,
            forall|j: int|
                0 <= j < i ==> out@[j] == right_pad(skip(src@, start as nat), size as nat)[j],
        decreases size - i,
    {
        let b = if i < n - start {
            src[start + i]
        } else {
            0
        };
        out.push(b);
        i = i + 1;
    }
    proof {
        assert(out@ =~= right_pad(skip(src@, start as nat), size as nat));
    }
    out
}


} // verus!
