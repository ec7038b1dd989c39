//! Program bytes and the set of valid jump destinations found by scanning them once.
use crate::parameter::{read_padded, right_pad, skip};
use crate::word::U256;
use vstd::prelude::*;

verus! {

/// The jump destination marker opcode.
pub const JUMPDEST: u8 = 0x5b;

/// The first and last push opcodes (PUSH1 and PUSH32).
pub const PUSH1: u8 = 0x60;

pub const PUSH32: u8 = 0x7f;

/// How many immediate bytes follow an opcode: 1 to 32 for the push opcodes, 0 otherwise.
pub open spec fn push_size(op: u8) -> nat {
    if PUSH1 <= op && op <= PUSH32 {
        (op - PUSH1 + 1) as nat
    } else {
        0
    }
}

/// The position of the instruction that follows the one at `i`.
pub open spec fn next_instruction(code: Seq<u8>, i: nat) -> nat {
    i + 1 + push_size(code[i as int])
}

/// Whether scanning instructions from `from` lands on position `p`: the positions in
/// between that fall inside a push's immediate bytes are skipped.
pub open spec fn reaches(code: Seq<u8>, from: nat, p: nat) -> bool
    decreases p - from,
{
    if from == p {
        true
    } else if from > p {
        false
    } else if next_instruction(code, from) > p {
        false
    } else {
        reaches(code, next_instruction(code, from), p)
    }
}

/// A valid jump destination: a marker byte at an instruction boundary, not one inside
/// the immediate bytes of a push.
pub open spec fn is_jump_destination(code: Seq<u8>, p: nat) -> bool {
    p < code.len() && code[p as int] == JUMPDEST && reaches(code, 0, p)
}

/// Stepping over one more instruction keeps the scan on instruction boundaries.
pub proof fn lemma_reaches_next(code: Seq<u8>, a: nat, i: nat)
    requires
        reaches(code, a, i),
    ensures
        reaches(code, a, next_instruction(code, i)),
    decreases i - a,
{
    if a < i {
        lemma_reaches_next(code, next_instruction(code, a), i);
    } else {
        assert(reaches(code, next_instruction(code, i), next_instruction(code, i)));
    }
}

/// The immediate bytes of an instruction are never reached by the scan.
pub proof fn lemma_reaches_skips_immediates(code: Seq<u8>, a: nat, i: nat, q: nat)
    requires
        reaches(code, a, i),
        i < q < next_instruction(code, i),
    ensures
        !reaches(code, a, q),
    decreases i - a,
{
    if a < i {
        lemma_reaches_skips_immediates(code, next_instruction(code, a), i, q);
    }
}

/// Program bytes with their jump destinations, computed once at construction.
pub struct Bytecode {
    code: Vec<u8>,
    jumpdest: Vec<bool>,
}

impl Bytecode {
    #[verifier::type_invariant]
    spec fn inv(&self) -> bool {
        &&& self.jumpdest@.len() == self.code@.len()
        &&& forall|i: int|
            0 <= i < self.code@.len() ==> self.jumpdest@[i] == is_jump_destination(
                self.code@,
                i as nat,
            )
    }

    /// The program bytes.
    pub closed spec fn bytes(&self) -> Seq<u8> {
        self.code@
    }

    /// Scans the program once, recording each marker byte that stands at an
    /// instruction boundary; push immediates are stepped over, never read as opcodes.
    pub fn new(code: Vec<u8>) -> (r: Bytecode)
        ensures
            r.bytes() == code@,
    {
        let n = code.len();
        let mut jumpdest: Vec<bool> = Vec::new();
        while jumpdest.len() < n
            invariant
                jumpdest@.len() <= n,
                forall|q: int| 0 <= q < jumpdest@.len() ==> !jumpdest@[q],
            decreases n - jumpdest@.len(),
        {
            jumpdest.push(false);
        }
        let mut i: usize = 0;
        while i < n
            invariant
                n == code@.len(),
                jumpdest@.len() == n,
                i < n ==> reaches(code@, 0, i as nat),
                forall|q: int|
                    0 <= q < n && q < i ==> jumpdest@[q] == is_jump_destination(code@, q as nat),
                forall|q: int| 0 <= q < n && i <= q ==> !jumpdest@[q],
            decreases n - i,
        {
            let op = code[i];
            if op == JUMPDEST {
                jumpdest.set(i, true);
            }
            let next: usize = if PUSH1 <= op && op <= PUSH32 {
                let size = (op - PUSH1 + 1) as usize;
                if size >= n - i {
                    n
                } else {
                    i + 1 + size
                }
            } else {
                i + 1
            };
            proof {
                lemma_reaches_next(code@, 0, i as nat);
                assert forall|q: int| i < q < next && q < n implies !#[trigger] is_jump_destination(
                    code@,
                    q as nat,
                ) by {
                    lemma_reaches_skips_immediates(code@, 0, i as nat, q as nat);
                }
            }
            i = next;
        }
        Bytecode { code, jumpdest }
    }

    pub fn len(&self) -> (r: usize)
        ensures
            r == self.bytes().len(),
    {
        self.code.len()
    }

    /// The byte at position `i`.
    pub fn get(&self, i: usize) -> (r: u8)
        requires
            i < self.bytes().len(),
        ensures
            r == self.bytes()[i as int],
    {
        self.code[i]
    }

    /// `size` bytes of the code from `offset`, zero past its end.
    pub fn padded_code(&self, offset: &U256, size: usize) -> (r: Vec<u8>)
        ensures
            r@ == right_pad(skip(self.bytes(), offset.value()), size as nat),
    {
        read_padded(self.code.as_slice(), offset, size)
    }

    /// Whether `pc` is a valid jump destination; a position at or past the end of the
    /// code is not.
    pub fn valid_jump_destination(&self, pc: usize) -> (r: bool)
        ensures
            r == is_jump_destination(self.bytes(), pc as nat),
    {
        proof {
            use_type_invariant(self);
        }
        pc < self.jumpdest.len() && self.jumpdest[pc]
    }
}

} // verus!
