//! The interpreter's machine word: a 256-bit unsigned integer with wrapping arithmetic.
use vstd::arithmetic::div_mod::{
    lemma_div_denominator, lemma_fundamental_div_mod, lemma_fundamental_div_mod_converse,
    lemma_mod_multiples_vanish,
};
use vstd::arithmetic::power2::{lemma2_to64, lemma_pow2_adds, lemma_pow2_pos, lemma_pow2_unfold, pow2};
use vstd::prelude::*;

verus! {

/// 2^128, the weight of the high half of a word.
pub open spec fn half_base() -> nat {
    u128::MAX as nat + 1
}

/// 2^256, the number of distinct words.
pub open spec fn word_modulus() -> nat {
    0xffff_ffff_ffff_ffff_ffff_ffff_ffff_ffffnat * 0xffff_ffff_ffff_ffff_ffff_ffff_ffff_ffffnat + 2
        * 0xffff_ffff_ffff_ffff_ffff_ffff_ffff_ffffnat + 1
}

/// The largest word, 2^256 - 1.
pub open spec fn max_word() -> nat {
    (word_modulus() - 1) as nat
}

/// 2^255: a word at or above this has its top bit set.
pub open spec fn top_bit_weight() -> nat {
    word_modulus() / 2
}

/// Reduces an integer into the word range, as two's complement wrapping does.
pub open spec fn wrap(x: int) -> nat {
    (x % (word_modulus() as int)) as nat
}

/// Unsigned division as the instruction set defines it: a zero divisor gives zero.
pub open spec fn word_div(a: nat, b: nat) -> nat {
    if b == 0 {
        0
    } else {
        a / b
    }
}

/// Unsigned remainder as the instruction set defines it: a zero divisor gives zero.
pub open spec fn word_rem(a: nat, b: nat) -> nat {
    if b == 0 {
        0
    } else {
        a % b
    }
}

/// 2^127 as an executable constant.
const HALF_U128: u128 = 0x8000_0000_0000_0000_0000_0000_0000_0000;

/// A 256-bit unsigned word, held as two 128-bit halves.
#[derive(Clone, Copy, Debug, PartialEq, Eq, Structural)]
pub struct U256 {
    pub hi: u128,
    pub lo: u128,
}

pub proof fn lemma_pow2_consts()
    ensures
        pow2(128) == half_base(),
        pow2(256) == word_modulus(),
        pow2(255) == top_bit_weight(),
        word_modulus() == 2 * top_bit_weight(),
{
    lemma2_to64();
    lemma_pow2_adds(64, 64);
    lemma_pow2_adds(128, 128);
    lemma_pow2_unfold(256);
    let x = pow2(128);
    assert(x * x == word_modulus()) by (nonlinear_arith)
        requires
            x == 0xffff_ffff_ffff_ffff_ffff_ffff_ffff_ffffnat + 1,
    ;
}

/// Adds two halves and a carry: the sum, and the carry out.
fn add_with_carry(a: u128, b: u128, c: u128) -> (r: (u128, u128))
    requires
        c <= 1,
    ensures
        r.1 <= 1,
        r.0 + (if r.1 == 1 {
            half_base()
        } else {
            0
        }) == a + b + c,
{
    if a > u128::MAX - b {
        (a - (u128::MAX - b) - 1 + c, 1)
    } else {
        let s = a + b;
        if c == 1 && s == u128::MAX {
            (0, 1)
        } else {
            (s + c, 0)
        }
    }
}

/// Subtracts a half and a borrow from a half: the difference, and the borrow out.
fn sub_with_borrow(a: u128, b: u128, c: u128) -> (r: (u128, u128))
    requires
        c <= 1,
    ensures
        r.1 <= 1,
        r.0 - (if r.1 == 1 {
            half_base()
        } else {
            0
        }) == a - b - c,
{
    if a >= b && a - b >= c {
        (a - b - c, 0)
    } else if a >= b {
        (u128::MAX, 1)
    } else {
        ((u128::MAX - b) + a + 1 - c, 1)
    }
}

impl U256 {
    /// The number this word stands for.
    pub open spec fn value(&self) -> nat {
        self.hi as nat * 0xffff_ffff_ffff_ffff_ffff_ffff_ffff_ffffnat + self.hi as nat + self.lo as nat
    }

    pub proof fn lemma_value_bound(&self)
        ensures
            self.value() < word_modulus(),
    {
    }

    pub fn zero() -> (r: U256)
        ensures
            r.value() == 0,
    {
        U256 { hi: 0, lo: 0 }
    }

    pub fn one() -> (r: U256)
        ensures
            r.value() == 1,
    {
        U256 { hi: 0, lo: 1 }
    }

    /// The largest word, 2^256 - 1.
    pub fn max_value() -> (r: U256)
        ensures
            r.value() == max_word(),
    {
        U256 { hi: u128::MAX, lo: u128::MAX }
    }

    pub fn from_u64(v: u64) -> (r: U256)
        ensures
            r.value() == v,
    {
        U256 { hi: 0, lo: v as u128 }
    }

    pub fn from_u128(v: u128) -> (r: U256)
        ensures
            r.value() == v,
    {
        U256 { hi: 0, lo: v }
    }

    pub fn is_zero(&self) -> (r: bool)
        ensures
            r == (self.value() == 0),
    {
        self.hi == 0 && self.lo == 0
    }

    pub fn eq_word(&self, o: &U256) -> (r: bool)
        ensures
            r == (self.value() == o.value()),
    {
        self.hi == o.hi && self.lo == o.lo
    }

    pub fn lt(&self, o: &U256) -> (r: bool)
        ensures
            r == (self.value() < o.value()),
    {
        self.hi < o.hi || (self.hi == o.hi && self.lo < o.lo)
    }

    pub fn gt(&self, o: &U256) -> (r: bool)
        ensures
            r == (self.value() > o.value()),
    {
        o.lt(self)
    }

    /// The value as a `usize`, when it is below 2^32; larger values are refused
    /// so that offsets and lengths stay in a range that the interpreter can address.
    pub fn to_u32_usize(&self) -> (r: Option<usize>)
        ensures
            r.is_some() == (self.value() < 0x1_0000_0000),
            r.is_some() ==> r.unwrap() as nat == self.value(),
    {
        if self.hi == 0 && self.lo < 0x1_0000_0000 {
            Some(self.lo as usize)
        } else {
            None
        }
    }

    /// The value as a `u64`, when it fits.
    pub fn to_u64(&self) -> (r: Option<u64>)
        ensures
            r.is_some() == (self.value() <= u64::MAX),
            r.is_some() ==> r.unwrap() as nat == self.value(),
    {
        if self.hi == 0 && self.lo <= u64::MAX as u128 {
            Some(self.lo as u64)
        } else {
            None
        }
    }

    /// Whether the top bit (2^255) is set.
    pub fn top_bit(&self) -> (r: bool)
        ensures
            r == (self.value() >= top_bit_weight()),
    {
        self.hi >= HALF_U128
    }

    /// Wrapping addition: `(a + b) mod 2^256`.
    pub fn wrapping_add(&self, o: &U256) -> (r: U256)
        ensures
            r.value() == wrap(self.value() + o.value() as int),
    {
        let (lo, carry) = add_with_carry(self.lo, o.lo, 0);
        let (hi, overflow) = add_with_carry(self.hi, o.hi, carry);
        let r = U256 { hi, lo };
        proof {
            r.lemma_value_bound();
            let s = self.value() + o.value() as int;
            assert(s == overflow * word_modulus() + r.value()) by {
                if overflow == 1 {
                    assert(s == word_modulus() + r.value());
                }
            }
            lemma_fundamental_div_mod_converse(s, word_modulus() as int, overflow as int, r.value() as int);
        }
        r
    }

    /// Wrapping subtraction: `(a - b) mod 2^256`.
    pub fn wrapping_sub(&self, o: &U256) -> (r: U256)
        ensures
            r.value() == wrap(self.value() - o.value() as int),
    {
        let (lo, borrow) = sub_with_borrow(self.lo, o.lo, 0);
        let (hi, underflow) = sub_with_borrow(self.hi, o.hi, borrow);
        let r = U256 { hi, lo };
        proof {
            r.lemma_value_bound();
            let s = self.value() - o.value() as int;
            if underflow == 1 {
                assert(s == -1 * word_modulus() + r.value());
                lemma_fundamental_div_mod_converse(s, word_modulus() as int, -1, r.value() as int);
            } else {
                lemma_fundamental_div_mod_converse(s, word_modulus() as int, 0, r.value() as int);
            }
        }
        r
    }

    /// Shifts left by one bit, shifting `b` in at the bottom: `(2a + b) mod 2^256`.
    pub fn shl1(&self, b: bool) -> (r: U256)
        ensures
            r.value() == wrap(2 * self.value() + (if b {
                1int
            } else {
                0int
            })),
    {
        let lo_top = self.lo >= HALF_U128;
        let lo_rest = if lo_top {
            self.lo - HALF_U128
        } else {
            self.lo
        };
        let hi_rest = if self.hi >= HALF_U128 {
            self.hi - HALF_U128
        } else {
            self.hi
        };
        let lo = lo_rest * 2 + if b {
            1
        } else {
            0
        };
        let hi = hi_rest * 2 + if lo_top {
            1
        } else {
            0
        };
        let r = U256 { hi, lo };
        proof {
            r.lemma_value_bound();
            let s = 2 * self.value() + (if b {
                1int
            } else {
                0int
            });
            let c: int = if self.hi >= HALF_U128 {
                1
            } else {
                0
            };
            assert(s == c * word_modulus() + r.value()) by {
                if c == 1 {
                    assert(s == word_modulus() + r.value());
                }
            }
            lemma_fundamental_div_mod_converse(s, word_modulus() as int, c, r.value() as int);
        }
        r
    }
}


impl U256 {
    /// Unsigned division and remainder by binary long division; a zero divisor
    /// gives zero for both.
    pub fn div_rem(&self, d: &U256) -> (r: (U256, U256))
        ensures
            r.0.value() == word_div(self.value(), d.value()),
            r.1.value() == word_rem(self.value(), d.value()),
    {
        if d.is_zero() {
            return (U256::zero(), U256::zero());
        }
        let mut q = U256::zero();
        let mut r = U256::zero();
        let mut rest = *self;
        let mut k: usize = 0;
        let ghost mut p: nat = 0;
        let ghost mut low: nat = self.value();
        proof {
            lemma_pow2_consts();
            lemma2_to64();
            self.lemma_value_bound();
            assert(self.value() * pow2(0) == self.value()) by (nonlinear_arith)
                requires
                    pow2(0) == 1,
            ;
        }
        while k < 256
            invariant
                k <= 256,
                d.value() > 0,
                self.value() == p * pow2((256 - k) as nat) + low,
                low < pow2((256 - k) as nat),
                rest.value() == low * pow2(k as nat),
                q.value() * d.value() + r.value() == p,
                r.value() < d.value(),
                p < pow2(k as nat),
            decreases 256 - k,
        {
            let bit = rest.top_bit();
            let carry = r.top_bit();
            let r2 = r.shl1(bit);
            let take = carry || !r2.lt(d);
            let r_new = if take {
                r2.wrapping_sub(d)
            } else {
                r2
            };
            let q_new = q.shl1(take);
            let rest_new = rest.shl1(false);
            proof {
                lemma_div_step(
                    self.value(),
                    d.value(),
                    k as nat,
                    p,
                    low,
                    q.value(),
                    r.value(),
                    rest.value(),
                    bit,
                    carry,
                    r2.value(),
                    take,
                    r_new.value(),
                    q_new.value(),
                    rest_new.value(),
                );
                d.lemma_value_bound();
                let b: nat = if bit {
                    1
                } else {
                    0
                };
                p = 2 * p + b;
                low = (low - b * pow2((255 - k) as nat)) as nat;
            }
            q = q_new;
            r = r_new;
            rest = rest_new;
            k = k + 1;
        }
        proof {
            lemma2_to64();
            assert(p * pow2(0) == p) by (nonlinear_arith)
                requires
                    pow2(0) == 1,
            ;
            lemma_fundamental_div_mod_converse(
                self.value() as int,
                d.value() as int,
                q.value() as int,
                r.value() as int,
            );
        }
        (q, r)
    }

    /// Unsigned division; a zero divisor gives zero.
    pub fn div(&self, d: &U256) -> (r: U256)
        ensures
            r.value() == word_div(self.value(), d.value()),
    {
        self.div_rem(d).0
    }

    /// Unsigned remainder; a zero divisor gives zero.
    pub fn rem(&self, d: &U256) -> (r: U256)
        ensures
            r.value() == word_rem(self.value(), d.value()),
    {
        self.div_rem(d).1
    }
}

/// One step of binary long division: the next bit of the dividend moves into the
/// remainder, and the quotient gains one bit.
proof fn lemma_div_step(
    a: nat,
    d: nat,
    k: nat,
    p: nat,
    low: nat,
    q: nat,
    r: nat,
    rest: nat,
    bit: bool,
    carry: bool,
    r2: nat,
    take: bool,
    r_new: nat,
    q_new: nat,
    rest_new: nat,
)
    requires
        k < 256,
        0 < d < word_modulus(),
        a == p * pow2((256 - k) as nat) + low,
        low < pow2((256 - k) as nat),
        rest == low * pow2(k),
        q * d + r == p,
        r < d,
        p < pow2(k),
        bit == (rest >= top_bit_weight()),
        carry == (r >= top_bit_weight()),
        r2 == wrap(2 * r + (if bit {
            1int
        } else {
            0int
        })),
        take == (carry || !(r2 < d)),
        r_new == (if take {
            wrap(r2 - d)
        } else {
            r2
        }),
        q_new == wrap(2 * q + (if take {
            1int
        } else {
            0int
        })),
        rest_new == wrap(2 * rest + 0int),
    ensures
        ({
            let b: nat = if bit {
                1
            } else {
                0
            };
            let p_next = 2 * p + b;
            let low2 = low - b * pow2((255 - k) as nat);
            &&& 0 <= low2
            &&& a == p_next * pow2((255 - k) as nat) + low2
            &&& low2 < pow2((255 - k) as nat)
            &&& rest_new == low2 * pow2(k + 1)
            &&& q_new * d + r_new == p_next
            &&& r_new < d
            &&& p_next < pow2(k + 1)
        }),
{
    let m = word_modulus();
    let j1 = (255 - k) as nat;
    let pj1 = pow2(j1);
    let pk1 = pow2(k + 1);
    lemma_bit_walk(a, k, p, low, rest, bit, rest_new);
    lemma_pow2_consts();
    lemma_pow2_unfold(k + 1);
    lemma_pow2_adds(j1, k + 1);
    lemma_pow2_pos(j1);
    let b: nat = if bit {
        1
    } else {
        0
    };
    let p_next = 2 * p + b;
    // the remainder gains the bit
    let t = 2 * r + b;
    if t < m {
        lemma_fundamental_div_mod_converse(t as int, m as int, 0, t as int);
    } else {
        lemma_fundamental_div_mod_converse(t as int, m as int, 1, t - m);
    }
    assert(take == (t >= d));
    if take {
        if t < m {
            lemma_fundamental_div_mod_converse(t - d, m as int, 0, t - d);
        } else {
            lemma_fundamental_div_mod_converse(t - m - d, m as int, -1, t - d as int);
        }
        assert(r_new == t - d);
    }
    // the quotient gains one bit without wrapping
    assert(q <= p) by (nonlinear_arith)
        requires
            q * d + r == p,
            d >= 1,
    ;
    let tq: int = if take {
        1
    } else {
        0
    };
    assert(pk1 <= m) by (nonlinear_arith)
        requires
            pj1 * pk1 == m,
            pj1 >= 1,
            pk1 >= 0,
    ;
    lemma_fundamental_div_mod_converse(2 * q + tq, m as int, 0, 2 * q + tq);
    assert(q_new * d + r_new == p_next) by (nonlinear_arith)
        requires
            q_new == 2 * q + tq,
            r_new == t - tq * d,
            t == 2 * r + b,
            q * d + r == p,
            p_next == 2 * p + b,
    ;
}


/// 256^n.
pub open spec fn pow256(n: nat) -> nat
    decreases n,
{
    if n == 0 {
        1
    } else {
        256 * pow256((n - 1) as nat)
    }
}

/// The number that a byte sequence spells in big-endian order.
pub open spec fn be_value(s: Seq<u8>) -> nat
    decreases s.len(),
{
    if s.len() == 0 {
        0
    } else {
        be_value(s.drop_last()) * 256 + s.last() as nat
    }
}

pub proof fn lemma_pow256_mono(a: nat, b: nat)
    requires
        a <= b,
    ensures
        1 <= pow256(a) <= pow256(b),
    decreases b,
{
    if b > 0 {
        if a < b {
            lemma_pow256_mono(a, (b - 1) as nat);
        } else {
            lemma_pow256_mono((b - 1) as nat, (b - 1) as nat);
        }
    }
}

pub proof fn lemma_pow256_16()
    ensures
        pow256(16) == half_base(),
        pow256(15) == 0x0100_0000_0000_0000_0000_0000_0000_0000,
        pow256(8) == 0x1_0000_0000_0000_0000,
{
    assert(pow256(0) == 1);
    assert(pow256(1) == 256);
    assert(pow256(2) == 65536);
    assert(pow256(3) == 16777216);
    assert(pow256(4) == 4294967296);
    assert(pow256(5) == 1099511627776);
    assert(pow256(6) == 281474976710656);
    assert(pow256(7) == 72057594037927936);
    assert(pow256(8) == 18446744073709551616);
    assert(pow256(9) == 4722366482869645213696);
    assert(pow256(10) == 1208925819614629174706176);
    assert(pow256(11) == 309485009821345068724781056);
    assert(pow256(12) == 79228162514264337593543950336);
    assert(pow256(13) == 20282409603651670423947251286016);
    assert(pow256(14) == 5192296858534827628530496329220096);
    assert(pow256(15) == 1329227995784915872903807060280344576);
    assert(pow256(16) == 0xffff_ffff_ffff_ffff_ffff_ffff_ffff_ffffnat + 1);
}

/// Big-endian value of a concatenation.
pub proof fn lemma_be_value_concat(s1: Seq<u8>, s2: Seq<u8>)
    ensures
        be_value(s1 + s2) == be_value(s1) * pow256(s2.len()) + be_value(s2),
    decreases s2.len(),
{
    if s2.len() == 0 {
        assert(s1 + s2 =~= s1);
        assert(pow256(0) == 1);
        assert(be_value(s1) * pow256(0) == be_value(s1)) by (nonlinear_arith)
            requires
                pow256(0) == 1,
        ;
    } else {
        let s2p = s2.drop_last();
        assert((s1 + s2).drop_last() =~= s1 + s2p);
        assert((s1 + s2).last() == s2.last());
        assert(pow256(s2.len()) == 256 * pow256(s2p.len()));
        lemma_be_value_concat(s1, s2p);
        let x = be_value(s1);
        let pw = pow256(s2p.len());
        assert((x * pw + be_value(s2p)) * 256 + s2.last() == x * (256 * pw) + be_value(s2p) * 256
            + s2.last()) by (nonlinear_arith);
        assert(be_value(s2) == be_value(s2p) * 256 + s2.last());
        assert(be_value(s1 + s2) == be_value(s1 + s2p) * 256 + s2.last());
    }
}

/// Extending a window of a sequence by one element at its end.
pub proof fn lemma_be_value_step(s: Seq<u8>, start: int, i: int)
    requires
        0 <= start <= i < s.len(),
    ensures
        be_value(s.subrange(start, i + 1)) == be_value(s.subrange(start, i)) * 256 + s[i],
{
    assert(s.subrange(start, i + 1).drop_last() =~= s.subrange(start, i));
}

/// Reads sixteen bytes in big-endian order.
fn read_be_u128(b: &[u8], start: usize) -> (r: u128)
    requires
        start <= 16,
        start + 16 <= b@.len(),
    ensures
        r == be_value(b@.subrange(start as int, start + 16)),
{
    let mut acc: u128 = 0;
    let mut i: usize = start;
    proof {
        assert(b@.subrange(start as int, start as int) =~= Seq::<u8>::empty());
        lemma_pow256_16();
    }
    while i < start + 16
        invariant
            start <= 16,
            start <= i <= start + 16,
            start + 16 <= b@.len(),
            acc == be_value(b@.subrange(start as int, i as int)),
            acc < pow256((i - start) as nat),
            pow256(16) == half_base(),
        decreases start + 16 - i,
    {
        proof {
            lemma_be_value_step(b@, start as int, i as int);
            lemma_pow256_mono((i - start + 1) as nat, 16);
            assert(pow256((i - start + 1) as nat) == 256 * pow256((i - start) as nat));
        }
        acc = acc * 256 + b[i] as u128;
        i = i + 1;
    }
    acc
}

/// Appends sixteen bytes holding `x` in big-endian order.
fn write_be_u128(x: u128, out: &mut Vec<u8>)
    ensures
        final(out)@.len() == old(out)@.len() + 16,
        final(out)@.subrange(0, old(out)@.len() as int) == old(out)@,
        be_value(final(out)@.subrange(old(out)@.len() as int, old(out)@.len() + 16int)) == x,
{
    let ghost start = out@.len();
    let mut rem: u128 = x;
    let mut d: u128 = 0x0100_0000_0000_0000_0000_0000_0000_0000;
    let mut j: usize = 0;
    proof {
        lemma_pow256_16();
        assert(out@.subrange(start as int, start as int) =~= Seq::<u8>::empty());
        assert(out@.subrange(0, start as int) =~= old(out)@);
    }
    while j < 16
        invariant
            j <= 16,
            start == old(out)@.len(),
            out@.len() == start + j,
            out@.subrange(0, start as int) == old(out)@,
            d == pow256((15 - j) as nat) || j == 16,
            rem < pow256((16 - j) as nat),
            x == be_value(out@.subrange(start as int, start + j as int)) * pow256((16 - j) as nat) + rem,
            pow256(16) == half_base(),
        decreases 16 - j,
    {
        let ghost before = out@;
        let byte = rem / d;
        let next = rem % d;
        proof {
            let pd = pow256((15 - j) as nat);
            assert(pow256((16 - j) as nat) == 256 * pd);
            lemma_pow256_mono(0, (15 - j) as nat);
            lemma_fundamental_div_mod(rem as int, d as int);
            assert(rem / d < 256) by (nonlinear_arith)
                requires
                    rem < 256 * d,
                    d > 0,
            ;
        }
        out.push(byte as u8);
        proof {
            let pd = pow256((15 - j) as nat);
            assert(out@.subrange(0, start as int) =~= before.subrange(0, start as int));
            assert(out@.subrange(start as int, start + j + 1int).drop_last() =~= before.subrange(
                start as int,
                start + j as int,
            ));
            let prev = be_value(before.subrange(start as int, start + j as int));
            assert(x == (prev * 256 + byte) * pd + next) by (nonlinear_arith)
                requires
                    x == prev * (256 * pd) + rem,
                    rem == byte * pd + next,
            ;
            if j < 15 {
                assert(pd == 256 * pow256((14 - j) as nat));
            }
        }
        rem = next;
        if j < 15 {
            d = d / 256;
        }
        j = j + 1;
    }
    proof {
        assert(pow256(0) == 1);
        let v = be_value(out@.subrange(start as int, start + 16int));
        assert(v * pow256(0) == v) by (nonlinear_arith)
            requires
                pow256(0) == 1,
        ;
    }
}

impl U256 {
    /// The word spelled by 32 big-endian bytes.
    pub fn from_be_slice(b: &[u8]) -> (r: U256)
        requires
            b@.len() == 32,
        ensures
            r.value() == be_value(b@),
    {
        let hi = read_be_u128(b, 0);
        let lo = read_be_u128(b, 16);
        proof {
            lemma_pow256_16();
            assert(b@ =~= b@.subrange(0, 16) + b@.subrange(16, 32));
            lemma_be_value_concat(b@.subrange(0, 16), b@.subrange(16, 32));
            assert(hi * pow256(16) == hi * 0xffff_ffff_ffff_ffff_ffff_ffff_ffff_ffffnat + hi)
                by (nonlinear_arith)
                requires
                    pow256(16) == 0xffff_ffff_ffff_ffff_ffff_ffff_ffff_ffffnat + 1,
            ;
        }
        U256 { hi, lo }
    }

    /// The 32 big-endian bytes of the word.
    pub fn to_be_bytes(&self) -> (r: Vec<u8>)
        ensures
            r@.len() == 32,
            be_value(r@) == self.value(),
            r@ == word_bytes(*self),
    {
        let mut out: Vec<u8> = Vec::new();
        write_be_u128(self.hi, &mut out);
        let ghost mid = out@;
        write_be_u128(self.lo, &mut out);
        proof {
            assert(mid.subrange(0, 16) =~= mid);
            assert(out@.subrange(0, 16) == mid);
            lemma_pow256_16();
            assert(out@ =~= out@.subrange(0, 16) + out@.subrange(16, 32));
            lemma_be_value_concat(out@.subrange(0, 16), out@.subrange(16, 32));
            let hi = self.hi as nat;
            assert(hi * pow256(16) == hi * 0xffff_ffff_ffff_ffff_ffff_ffff_ffff_ffffnat + hi)
                by (nonlinear_arith)
                requires
                    pow256(16) == 0xffff_ffff_ffff_ffff_ffff_ffff_ffff_ffffnat + 1,
            ;
            assert(out@.len() == 32 && be_value(out@) == self.value());
            lemma_be_value_injective(word_bytes(*self), out@);
        }
        out
    }
}


/// The 32 bytes whose big-endian value is the word.
pub open spec fn word_bytes(w: U256) -> Seq<u8> {
    choose|s: Seq<u8>| s.len() == 32 && be_value(s) == w.value()
}

/// The word whose value is `n` reduced into the word range.
pub open spec fn word_of(n: nat) -> U256 {
    U256 { hi: ((n % word_modulus()) / half_base()) as u128, lo: (n % half_base()) as u128 }
}

/// A word is the word of its value.
pub proof fn lemma_word_of_value(w: U256)
    ensures
        word_of(w.value()) == w,
{
    w.lemma_value_bound();
    let v = w.value();
    lemma_fundamental_div_mod_converse(v as int, word_modulus() as int, 0, v as int);
    assert(v == w.hi * half_base() + w.lo) by (nonlinear_arith)
        requires
            v == w.hi * 0xffff_ffff_ffff_ffff_ffff_ffff_ffff_ffffnat + w.hi + w.lo,
            half_base() == 0xffff_ffff_ffff_ffff_ffff_ffff_ffff_ffffnat + 1,
    ;
    lemma_fundamental_div_mod_converse(v as int, half_base() as int, w.hi as int, w.lo as int);
}

/// The word of a value in range has that value.
pub proof fn lemma_value_of_word(n: nat)
    requires
        n < word_modulus(),
    ensures
        word_of(n).value() == n,
{
    lemma_fundamental_div_mod_converse(n as int, word_modulus() as int, 0, n as int);
    let h = n / half_base();
    let l = n % half_base();
    vstd::arithmetic::div_mod::lemma_fundamental_div_mod(n as int, half_base() as int);
    assert(h < half_base()) by (nonlinear_arith)
        requires
            n == half_base() * h + l,
            l >= 0,
            n < word_modulus(),
            word_modulus() == half_base() * half_base(),
            half_base() > 0,
    ;
    assert(h * 0xffff_ffff_ffff_ffff_ffff_ffff_ffff_ffffnat + h == half_base() * h) by (nonlinear_arith)
        requires
            half_base() == 0xffff_ffff_ffff_ffff_ffff_ffff_ffff_ffffnat + 1,
    ;
}

/// The word that stands for a truth value: 1 or 0.
pub open spec fn bool_word(b: bool) -> U256 {
    if b {
        word_of(1)
    } else {
        word_of(0)
    }
}

impl U256 {
    /// The value as a `usize`, when it fits.
    pub fn to_usize(&self) -> (r: Option<usize>)
        ensures
            r.is_some() == (self.value() <= usize::MAX),
            r.is_some() ==> r.unwrap() as nat == self.value(),
    {
        if self.hi == 0 && self.lo <= usize::MAX as u128 {
            Some(self.lo as usize)
        } else {
            None
        }
    }

    /// 1 for true, 0 for false.
    pub fn from_bool(b: bool) -> (r: U256)
        ensures
            r == bool_word(b),
    {
        let r = if b {
            U256::one()
        } else {
            U256::zero()
        };
        proof {
            lemma_word_of_value(r);
        }
        r
    }
}


/// Two byte sequences of one length with the same big-endian value are equal.
pub proof fn lemma_be_value_injective(s1: Seq<u8>, s2: Seq<u8>)
    requires
        s1.len() == s2.len(),
        be_value(s1) == be_value(s2),
    ensures
        s1 == s2,
    decreases s1.len(),
{
    if s1.len() > 0 {
        let v = be_value(s1);
        lemma_fundamental_div_mod_converse(
            v as int,
            256,
            be_value(s1.drop_last()) as int,
            s1.last() as int,
        );
        lemma_fundamental_div_mod_converse(
            v as int,
            256,
            be_value(s2.drop_last()) as int,
            s2.last() as int,
        );
        lemma_be_value_injective(s1.drop_last(), s2.drop_last());
        assert(s1 =~= s1.drop_last().push(s1.last()));
        assert(s2 =~= s2.drop_last().push(s2.last()));
    } else {
        assert(s1 =~= s2);
    }
}


pub proof fn lemma_pow256_20()
    ensures
        pow256(20) == 0x1_0000_0000nat * 0xffff_ffff_ffff_ffff_ffff_ffff_ffff_ffffnat
            + 0x1_0000_0000nat,
{
    lemma_pow256_16();
    assert(pow256(17) == 256 * pow256(16));
    assert(pow256(18) == 256 * pow256(17));
    assert(pow256(19) == 256 * pow256(18));
    assert(pow256(20) == 256 * pow256(19));
}

/// A big-endian value is zero exactly when every byte is.
pub proof fn lemma_be_value_zero(s: Seq<u8>)
    ensures
        (be_value(s) == 0) == (forall|i: int| 0 <= i < s.len() ==> s[i] == 0),
    decreases s.len(),
{
    if s.len() > 0 {
        lemma_be_value_zero(s.drop_last());
        if be_value(s) == 0 {
            assert forall|i: int| 0 <= i < s.len() implies s[i] == 0 by {
                if i < s.len() - 1 {
                    assert(s.drop_last()[i] == s[i]);
                }
            }
        }
        if forall|i: int| 0 <= i < s.len() ==> s[i] == 0 {
            assert forall|i: int| 0 <= i < s.drop_last().len() implies s.drop_last()[i] == 0 by {
                assert(s.drop_last()[i] == s[i]);
            }
        }
    }
}

/// A big-endian value is below 256 to the power of the length.
pub proof fn lemma_be_value_bound(s: Seq<u8>)
    ensures
        be_value(s) < pow256(s.len()),
    decreases s.len(),
{
    if s.len() > 0 {
        lemma_be_value_bound(s.drop_last());
        let p = pow256((s.len() - 1) as nat);
        assert(be_value(s.drop_last()) * 256 + s.last() < 256 * p) by (nonlinear_arith)
            requires
                be_value(s.drop_last()) < p,
                s.last() < 256,
        ;
    }
}


/// A word read as two's complement.
pub open spec fn signed(v: nat) -> int {
    if v >= top_bit_weight() {
        v - word_modulus()
    } else {
        v as int
    }
}

/// Bitwise operations act on each half independently.
pub open spec fn bit_and(a: U256, b: U256) -> U256 {
    U256 { hi: a.hi & b.hi, lo: a.lo & b.lo }
}

pub open spec fn bit_or(a: U256, b: U256) -> U256 {
    U256 { hi: a.hi | b.hi, lo: a.lo | b.lo }
}

pub open spec fn bit_xor(a: U256, b: U256) -> U256 {
    U256 { hi: a.hi ^ b.hi, lo: a.lo ^ b.lo }
}

pub open spec fn bit_not(a: U256) -> U256 {
    U256 { hi: !a.hi, lo: !a.lo }
}

/// Byte `i` of the word, counting from the most significant; zero past the last.
pub open spec fn byte_of(i: nat, x: U256) -> nat {
    if i < 32 {
        word_bytes(x)[i as int] as nat
    } else {
        0
    }
}

impl U256 {
    pub fn and(&self, o: &U256) -> (r: U256)
        ensures
            r == bit_and(*self, *o),
    {
        U256 { hi: self.hi & o.hi, lo: self.lo & o.lo }
    }

    pub fn or(&self, o: &U256) -> (r: U256)
        ensures
            r == bit_or(*self, *o),
    {
        U256 { hi: self.hi | o.hi, lo: self.lo | o.lo }
    }

    pub fn xor(&self, o: &U256) -> (r: U256)
        ensures
            r == bit_xor(*self, *o),
    {
        U256 { hi: self.hi ^ o.hi, lo: self.lo ^ o.lo }
    }

    pub fn not(&self) -> (r: U256)
        ensures
            r == bit_not(*self),
    {
        U256 { hi: !self.hi, lo: !self.lo }
    }

    /// Signed (two's complement) less-than.
    pub fn slt(&self, o: &U256) -> (r: bool)
        ensures
            r == (signed(self.value()) < signed(o.value())),
    {
        let a_neg = self.top_bit();
        let b_neg = o.top_bit();
        proof {
            self.lemma_value_bound();
            o.lemma_value_bound();
        }
        if a_neg != b_neg {
            a_neg
        } else {
            self.lt(o)
        }
    }

    /// Signed (two's complement) greater-than.
    pub fn sgt(&self, o: &U256) -> (r: bool)
        ensures
            r == (signed(self.value()) > signed(o.value())),
    {
        o.slt(self)
    }

    /// Byte `i` of the word, counting from the most significant; zero for `i` past 31.
    pub fn byte(&self, i: &U256) -> (r: U256)
        ensures
            r.value() == byte_of(i.value(), *self),
    {
        if i.hi == 0 && i.lo < 32 {
            let bytes = self.to_be_bytes();
            U256::from_u64(bytes[i.lo as usize] as u64)
        } else {
            U256::zero()
        }
    }
}


/// Reducing before adding changes nothing modulo 2^256.
pub proof fn lemma_wrap_add_noop(y: int, c: int)
    ensures
        wrap(wrap(y) + c) == wrap(y + c),
{
    let m = word_modulus() as int;
    lemma_fundamental_div_mod(y, m);
    lemma_mod_multiples_vanish(y / m, y % m + c, m);
    assert(y + c == m * (y / m) + (y % m + c));
}

/// Reducing before doubling changes nothing modulo 2^256.
pub proof fn lemma_wrap_double_add(y: int, c: int)
    ensures
        wrap(2 * (wrap(y) as int) + c) == wrap(2 * y + c),
{
    let m = word_modulus() as int;
    lemma_fundamental_div_mod(y, m);
    lemma_mod_multiples_vanish(2 * (y / m), 2 * (y % m) + c, m);
    let q = y / m;
    let r = y % m;
    assert(2 * y + c == m * (2 * q) + (2 * r + c)) by (nonlinear_arith)
        requires
            y == m * q + r,
    ;
}

/// One step of walking the bits of a word from the top: the next bit leaves what is
/// left of the word and joins the prefix.
proof fn lemma_bit_walk(a: nat, k: nat, p: nat, low: nat, rest: nat, bit: bool, rest_new: nat)
    requires
        k < 256,
        a == p * pow2((256 - k) as nat) + low,
        low < pow2((256 - k) as nat),
        rest == low * pow2(k),
        p < pow2(k),
        bit == (rest >= top_bit_weight()),
        rest_new == wrap(2 * rest + 0int),
    ensures
        ({
            let b: nat = if bit {
                1
            } else {
                0
            };
            let p_next = 2 * p + b;
            let low2 = low - b * pow2((255 - k) as nat);
            &&& 0 <= low2
            &&& a == p_next * pow2((255 - k) as nat) + low2
            &&& low2 < pow2((255 - k) as nat)
            &&& rest_new == low2 * pow2(k + 1)
            &&& p_next < pow2(k + 1)
        }),
{
    let m = word_modulus();
    let j1 = (255 - k) as nat;
    let pj1 = pow2(j1);
    let pk = pow2(k);
    let pk1 = pow2(k + 1);
    lemma_pow2_consts();
    lemma_pow2_unfold(j1 + 1);
    lemma_pow2_unfold(k + 1);
    lemma_pow2_adds(j1, k);
    lemma_pow2_adds(j1, k + 1);
    lemma_pow2_pos(k);
    lemma_pow2_pos(j1);
    assert((256 - k) as nat == j1 + 1);
    let b: nat = if bit {
        1
    } else {
        0
    };
    assert(bit == (low >= pj1)) by {
        if low >= pj1 {
            assert(low * pk >= pj1 * pk) by (nonlinear_arith)
                requires
                    low >= pj1,
                    pk > 0,
            ;
        } else {
            assert(low * pk < pj1 * pk) by (nonlinear_arith)
                requires
                    low < pj1,
                    pk > 0,
            ;
        }
    }
    let low2: nat = (low - b * pj1) as nat;
    let p_next = 2 * p + b;
    assert(a == p_next * pj1 + low2) by (nonlinear_arith)
        requires
            a == p * pow2(j1 + 1) + low,
            pow2(j1 + 1) == 2 * pj1,
            low2 == low - b * pj1,
            p_next == 2 * p + b,
    ;
    assert(2 * rest == b * m + low2 * pk1) by (nonlinear_arith)
        requires
            rest == low * pk,
            pk1 == 2 * pk,
            low == low2 + b * pj1,
            pj1 * pk1 == m,
    ;
    assert(low2 * pk1 < m) by (nonlinear_arith)
        requires
            low2 < pj1,
            pj1 * pk1 == m,
            pk1 > 0,
    ;
    lemma_fundamental_div_mod_converse((2 * rest) as int, m as int, b as int, (low2 * pk1) as int);
}

impl U256 {
    /// Wrapping multiplication: `(a * b) mod 2^256`, by shifting and adding over the
    /// bits of `b` from the top.
    pub fn wrapping_mul(&self, o: &U256) -> (r: U256)
        ensures
            r.value() == wrap((self.value() * o.value()) as int),
    {
        let mut acc = U256::zero();
        let mut rest = *o;
        let mut k: usize = 0;
        let ghost mut p: nat = 0;
        let ghost mut low: nat = o.value();
        proof {
            lemma_pow2_consts();
            lemma2_to64();
            o.lemma_value_bound();
            assert(o.value() * pow2(0) == o.value()) by (nonlinear_arith)
                requires
                    pow2(0) == 1,
            ;
            assert(wrap((self.value() * 0) as int) == 0);
        }
        while k < 256
            invariant
                k <= 256,
                o.value() == p * pow2((256 - k) as nat) + low,
                low < pow2((256 - k) as nat),
                rest.value() == low * pow2(k as nat),
                p < pow2(k as nat),
                acc.value() == wrap((self.value() * p) as int),
            decreases 256 - k,
        {
            let bit = rest.top_bit();
            let doubled = acc.shl1(false);
            let acc_new = if bit {
                doubled.wrapping_add(self)
            } else {
                doubled
            };
            let rest_new = rest.shl1(false);
            proof {
                lemma_bit_walk(
                    o.value(),
                    k as nat,
                    p,
                    low,
                    rest.value(),
                    bit,
                    rest_new.value(),
                );
                let x = self.value();
                let b: nat = if bit {
                    1
                } else {
                    0
                };
                lemma_wrap_double_add((x * p) as int, 0);
                lemma_wrap_add_noop((2 * (x * p)) as int, (b * x) as int);
                lemma_wrap_double_add((x * p) as int, (b * x) as int);
                assert(2 * (x * p) + b * x == x * (2 * p + b)) by (nonlinear_arith);
                p = 2 * p + b;
                low = (low - b * pow2((255 - k) as nat)) as nat;
            }
            acc = acc_new;
            rest = rest_new;
            k = k + 1;
        }
        proof {
            lemma2_to64();
            assert(p * pow2(0) == p) by (nonlinear_arith)
                requires
                    pow2(0) == 1,
            ;
        }
        acc
    }

    /// Halves the word, rounding down.
    pub fn shr1(&self) -> (r: U256)
        ensures
            r.value() == self.value() / 2,
    {
        let lo = self.lo / 2 + if self.hi % 2 == 1 {
            HALF_U128
        } else {
            0
        };
        let r = U256 { hi: self.hi / 2, lo };
        proof {
            let v = self.value();
            let odd: int = (self.lo % 2) as int;
            assert(v == 2 * r.value() + odd);
            lemma_fundamental_div_mod_converse(v as int, 2, r.value() as int, odd);
        }
        r
    }

    /// Shift left: `(value * 2^shift) mod 2^256`, zero for a shift of 256 or more.
    pub fn shl(&self, shift: &U256) -> (r: U256)
        ensures
            r.value() == if shift.value() >= 256 {
                0
            } else {
                wrap((self.value() * pow2(shift.value())) as int)
            },
    {
        if shift.hi != 0 || shift.lo >= 256 {
            return U256::zero();
        }
        let n = shift.lo as usize;
        let mut v = *self;
        let mut i: usize = 0;
        proof {
            lemma2_to64();
            self.lemma_value_bound();
            assert(self.value() * pow2(0) == self.value()) by (nonlinear_arith)
                requires
                    pow2(0) == 1,
            ;
            lemma_fundamental_div_mod_converse(
                self.value() as int,
                word_modulus() as int,
                0,
                self.value() as int,
            );
        }
        while i < n
            invariant
                i <= n,
                n == shift.value(),
                v.value() == wrap((self.value() * pow2(i as nat)) as int),
            decreases n - i,
        {
            let next = v.shl1(false);
            proof {
                let x = self.value();
                lemma_pow2_unfold((i + 1) as nat);
                lemma_wrap_double_add((x * pow2(i as nat)) as int, 0);
                assert(2 * (x * pow2(i as nat)) == x * pow2((i + 1) as nat)) by (nonlinear_arith)
                    requires
                        pow2((i + 1) as nat) == 2 * pow2(i as nat),
                ;
            }
            v = next;
            i = i + 1;
        }
        v
    }

    /// Logical shift right: `value / 2^shift`, zero for a shift of 256 or more.
    pub fn shr(&self, shift: &U256) -> (r: U256)
        ensures
            r.value() == if shift.value() >= 256 {
                0
            } else {
                self.value() / pow2(shift.value())
            },
    {
        if shift.hi != 0 || shift.lo >= 256 {
            return U256::zero();
        }
        let n = shift.lo as usize;
        let mut v = *self;
        let mut i: usize = 0;
        proof {
            lemma2_to64();
        }
        while i < n
            invariant
                i <= n,
                n == shift.value(),
                v.value() == self.value() / pow2(i as nat),
            decreases n - i,
        {
            let next = v.shr1();
            proof {
                lemma_pow2_unfold((i + 1) as nat);
                lemma_pow2_pos(i as nat);
                lemma_div_denominator(self.value() as int, pow2(i as nat) as int, 2);
            }
            v = next;
            i = i + 1;
        }
        v
    }
}


pub open spec fn abs(x: int) -> nat {
    if x < 0 {
        (-x) as nat
    } else {
        x as nat
    }
}

/// Signed division, truncating toward zero; a zero divisor gives zero.
pub open spec fn sdiv_spec(a: U256, b: U256) -> nat {
    if b.value() == 0 {
        0
    } else {
        let x = signed(a.value());
        let y = signed(b.value());
        let q = abs(x) / abs(y);
        if (x < 0) != (y < 0) {
            wrap(-q)
        } else {
            wrap(q as int)
        }
    }
}

/// Signed remainder, with the sign of the dividend; a zero divisor gives zero.
pub open spec fn smod_spec(a: U256, b: U256) -> nat {
    if b.value() == 0 {
        0
    } else {
        let x = signed(a.value());
        let y = signed(b.value());
        let r = abs(x) % abs(y);
        if x < 0 {
            wrap(-r)
        } else {
            wrap(r as int)
        }
    }
}

/// Arithmetic shift right: the signed value divided by 2^shift, rounding down
/// (toward negative infinity); shifts of 256 or more act as 256.
pub open spec fn sar_spec(shift: nat, v: U256) -> nat {
    let s: nat = if shift >= 256 {
        256
    } else {
        shift
    };
    wrap(signed(v.value()) / (pow2(s) as int))
}

/// The complement of a word is the largest word minus it.
pub proof fn lemma_not_value(a: U256)
    ensures
        bit_not(a).value() == max_word() - a.value(),
{
    let h = a.hi;
    let l = a.lo;
    assert(!h == 0xffff_ffff_ffff_ffff_ffff_ffff_ffff_ffffu128 - h) by (bit_vector);
    assert(!l == 0xffff_ffff_ffff_ffff_ffff_ffff_ffff_ffffu128 - l) by (bit_vector);
}

/// `-1 - ((-1 - x) / n) == x / n` with floor division.
proof fn lemma_floor_div_complement(x: int, n: int)
    requires
        n > 0,
    ensures
        -1 - ((-1 - x) / n) == x / n,
{
    lemma_fundamental_div_mod(x, n);
    let q = x / n;
    let r = x % n;
    assert(-1 - x == n * (-q - 1) + (n - 1 - r)) by (nonlinear_arith)
        requires
            x == n * q + r,
    ;
    lemma_fundamental_div_mod_converse(-1 - x, n, -q - 1, n - 1 - r);
}

impl U256 {
    /// Two's-complement negation: `(2^256 - a) mod 2^256`.
    pub fn negate(&self) -> (r: U256)
        ensures
            r.value() == wrap(-(self.value() as int)),
    {
        U256::zero().wrapping_sub(self)
    }

    /// The magnitude of the word read as two's complement.
    fn magnitude(&self) -> (r: U256)
        ensures
            r.value() == abs(signed(self.value())),
    {
        proof {
            self.lemma_value_bound();
        }
        if self.top_bit() {
            let r = self.negate();
            proof {
                lemma_fundamental_div_mod_converse(
                    -(self.value() as int),
                    word_modulus() as int,
                    -1,
                    word_modulus() - self.value(),
                );
            }
            r
        } else {
            *self
        }
    }

    /// SDIV: signed division truncating toward zero; a zero divisor gives zero.
    pub fn sdiv(&self, d: &U256) -> (r: U256)
        ensures
            r.value() == sdiv_spec(*self, *d),
    {
        if d.is_zero() {
            return U256::zero();
        }
        let q = self.magnitude().div(&d.magnitude());
        let neg = self.top_bit() != d.top_bit();
        proof {
            q.lemma_value_bound();
            lemma_fundamental_div_mod_converse(q.value() as int, word_modulus() as int, 0, q.value() as int);
        }
        if neg {
            q.negate()
        } else {
            q
        }
    }

    /// SMOD: signed remainder with the sign of the dividend; a zero divisor gives zero.
    pub fn smod(&self, d: &U256) -> (r: U256)
        ensures
            r.value() == smod_spec(*self, *d),
    {
        if d.is_zero() {
            return U256::zero();
        }
        let m = self.magnitude().rem(&d.magnitude());
        proof {
            m.lemma_value_bound();
            lemma_fundamental_div_mod_converse(m.value() as int, word_modulus() as int, 0, m.value() as int);
        }
        if self.top_bit() {
            m.negate()
        } else {
            m
        }
    }

    /// SAR: arithmetic shift right.
    pub fn sar(&self, shift: &U256) -> (r: U256)
        ensures
            r.value() == sar_spec(shift.value(), *self),
    {
        let neg = self.top_bit();
        proof {
            lemma_pow2_consts();
            self.lemma_value_bound();
        }
        if shift.hi != 0 || shift.lo >= 256 {
            proof {
                let x = signed(self.value());
                let m = word_modulus() as int;
                assert(shift.value() >= 256);
                assert(pow2(256) as int == m);
                if neg {
                    lemma_fundamental_div_mod_converse(x, m, -1, x + m);
                    lemma_fundamental_div_mod_converse(-1, m, -1, m - 1);
                    assert(wrap(x / m) == max_word());
                } else {
                    lemma_fundamental_div_mod_converse(x, m, 0, x);
                    lemma_fundamental_div_mod_converse(0, m, 0, 0);
                    assert(wrap(x / m) == 0);
                }
            }
            return if neg {
                U256::max_value()
            } else {
                U256::zero()
            };
        }
        let ghost n = pow2(shift.value()) as int;
        proof {
            lemma_pow2_pos(shift.value());
        }
        if neg {
            let nv = self.not();
            let sh = nv.shr(shift);
            let r = sh.not();
            proof {
                lemma_not_value(*self);
                lemma_not_value(sh);
                let x = signed(self.value());
                let u = -1 - x;
                assert(nv.value() == u);
                assert(u < top_bit_weight());
                assert(u / n <= u) by {
                    vstd::arithmetic::div_mod::lemma_div_is_ordered_by_denominator(u, 1, n);
                }
                lemma_floor_div_complement(x, n);
                assert(r.value() == word_modulus() - 1 - u / n);
                lemma_fundamental_div_mod_converse(x / n, word_modulus() as int, -1, r.value() as int);
            }
            r
        } else {
            let r = self.shr(shift);
            proof {
                let x = self.value() as int;
                assert(x / n <= x) by {
                    vstd::arithmetic::div_mod::lemma_div_is_ordered_by_denominator(x, 1, n);
                }
                lemma_fundamental_div_mod_converse(x / n, word_modulus() as int, 0, x / n);
            }
            r
        }
    }
}


/// ADDMOD: `(a + b) mod n` without intermediate wrapping; zero for a zero modulus.
pub open spec fn addmod_spec(a: nat, b: nat, n: nat) -> nat {
    if n == 0 {
        0
    } else {
        (a + b) % n
    }
}

/// MULMOD: `(a * b) mod n` without intermediate wrapping; zero for a zero modulus.
pub open spec fn mulmod_spec(a: nat, b: nat, n: nat) -> nat {
    if n == 0 {
        0
    } else {
        (a * b) % n
    }
}

/// EXP: `a^e mod 2^256`.
pub open spec fn exp_spec(a: nat, e: nat) -> nat {
    wrap(vstd::arithmetic::power::pow(a as int, e))
}

/// SIGNEXTEND: the word with the two's-complement sign at byte `b` (counting from the
/// least significant) copied into every byte above it; unchanged for `b` of 31 or more.
pub open spec fn signextend_bytes(b: nat, x: U256) -> Seq<u8> {
    let xb = word_bytes(x);
    if b >= 31 {
        xb
    } else {
        let sign_at = 31 - b;
        let fill: u8 = if xb[sign_at] >= 0x80 {
            0xff
        } else {
            0
        };
        Seq::new(32, |i: int| if i < sign_at { fill } else { xb[i] })
    }
}

/// `(x + y) mod n` for `x` and `y` already below `n`.
fn add_mod_reduced(x: &U256, y: &U256, n: &U256) -> (r: U256)
    requires
        x.value() < n.value(),
        y.value() < n.value(),
    ensures
        r.value() == ((x.value() + y.value()) as int) % (n.value() as int),
{
    let s = x.wrapping_add(y);
    let carry = s.lt(x);
    proof {
        n.lemma_value_bound();
        let t = x.value() + y.value();
        let m = word_modulus() as int;
        if t < m {
            lemma_fundamental_div_mod_converse(t as int, m, 0, t as int);
        } else {
            lemma_fundamental_div_mod_converse(t as int, m, 1, t - m);
        }
        assert(carry == (t >= m));
    }
    if carry || !s.lt(n) {
        let r = s.wrapping_sub(n);
        proof {
            let t = x.value() + y.value();
            let m = word_modulus() as int;
            let nn = n.value() as int;
            if t < m {
                lemma_fundamental_div_mod_converse(t - nn, m, 0, t - nn);
            } else {
                lemma_fundamental_div_mod_converse(t - m - nn, m, -1, t - nn);
            }
            lemma_fundamental_div_mod_converse(t as int, nn, 1, t - nn);
        }
        r
    } else {
        proof {
            let t = x.value() + y.value();
            lemma_fundamental_div_mod_converse(t as int, n.value() as int, 0, t as int);
        }
        s
    }
}

impl U256 {
    /// ADDMOD.
    pub fn addmod(&self, b: &U256, n: &U256) -> (r: U256)
        ensures
            r.value() == addmod_spec(self.value(), b.value(), n.value()),
    {
        if n.is_zero() {
            return U256::zero();
        }
        let x = self.rem(n);
        let y = b.rem(n);
        let r = add_mod_reduced(&x, &y, n);
        proof {
            vstd::arithmetic::div_mod::lemma_add_mod_noop(
                self.value() as int,
                b.value() as int,
                n.value() as int,
            );
        }
        r
    }

    /// MULMOD, by doubling and adding modulo `n` over the bits of `b` from the top.
    pub fn mulmod(&self, b: &U256, n: &U256) -> (r: U256)
        ensures
            r.value() == mulmod_spec(self.value(), b.value(), n.value()),
    {
        if n.is_zero() {
            return U256::zero();
        }
        let ghost nn = n.value();
        let a = self.rem(n);
        let mut acc = U256::zero();
        let mut rest = *b;
        let mut k: usize = 0;
        let ghost mut p: nat = 0;
        let ghost mut low: nat = b.value();
        proof {
            lemma_pow2_consts();
            lemma2_to64();
            b.lemma_value_bound();
            assert(b.value() * pow2(0) == b.value()) by (nonlinear_arith)
                requires
                    pow2(0) == 1,
            ;
            lemma_fundamental_div_mod_converse(0, nn as int, 0, 0);
        }
        while k < 256
            invariant
                k <= 256,
                nn == n.value(),
                nn > 0,
                a.value() == (self.value() as int) % (nn as int),
                b.value() == p * pow2((256 - k) as nat) + low,
                low < pow2((256 - k) as nat),
                rest.value() == low * pow2(k as nat),
                p < pow2(k as nat),
                acc.value() == ((self.value() * p) as int) % (nn as int),
            decreases 256 - k,
        {
            let bit = rest.top_bit();
            let doubled = add_mod_reduced(&acc, &acc, n);
            let acc_new = if bit {
                add_mod_reduced(&doubled, &a, n)
            } else {
                doubled
            };
            let rest_new = rest.shl1(false);
            proof {
                lemma_bit_walk(b.value(), k as nat, p, low, rest.value(), bit, rest_new.value());
                let x = self.value() as int;
                let m = nn as int;
                let bb: int = if bit {
                    1
                } else {
                    0
                };
                // doubled == (2 * x * p) % m
                vstd::arithmetic::div_mod::lemma_add_mod_noop(x * p, x * p, m);
                // acc_new == (2 * x * p + bb * x) % m
                vstd::arithmetic::div_mod::lemma_add_mod_noop(2 * (x * p), x, m);
                vstd::arithmetic::div_mod::lemma_mod_twice(2 * (x * p), m);
                vstd::arithmetic::div_mod::lemma_mod_twice(x, m);
                assert(2 * (x * p) + bb * x == x * (2 * p + bb)) by (nonlinear_arith);
                p = 2 * p + bb as nat;
                low = (low - bb * pow2((255 - k) as nat)) as nat;
            }
            acc = acc_new;
            rest = rest_new;
            k = k + 1;
        }
        proof {
            lemma2_to64();
            assert(p * pow2(0) == p) by (nonlinear_arith)
                requires
                    pow2(0) == 1,
            ;
        }
        acc
    }

    /// EXP, by squaring and multiplying over the bits of `e` from the top.
    pub fn exp(&self, e: &U256) -> (r: U256)
        ensures
            r.value() == exp_spec(self.value(), e.value()),
    {
        let mut acc = U256::one();
        let mut rest = *e;
        let mut k: usize = 0;
        let ghost mut p: nat = 0;
        let ghost mut low: nat = e.value();
        proof {
            lemma_pow2_consts();
            lemma2_to64();
            e.lemma_value_bound();
            assert(e.value() * pow2(0) == e.value()) by (nonlinear_arith)
                requires
                    pow2(0) == 1,
            ;
            vstd::arithmetic::power::lemma_pow0(self.value() as int);
            lemma_fundamental_div_mod_converse(1, word_modulus() as int, 0, 1);
        }
        while k < 256
            invariant
                k <= 256,
                e.value() == p * pow2((256 - k) as nat) + low,
                low < pow2((256 - k) as nat),
                rest.value() == low * pow2(k as nat),
                p < pow2(k as nat),
                acc.value() == exp_spec(self.value(), p),
            decreases 256 - k,
        {
            let bit = rest.top_bit();
            let squared = acc.wrapping_mul(&acc);
            let acc_new = if bit {
                squared.wrapping_mul(self)
            } else {
                squared
            };
            let rest_new = rest.shl1(false);
            proof {
                lemma_bit_walk(e.value(), k as nat, p, low, rest.value(), bit, rest_new.value());
                let x = self.value() as int;
                let m = word_modulus() as int;
                let bb: nat = if bit {
                    1
                } else {
                    0
                };
                let pp = vstd::arithmetic::power::pow(x, p);
                vstd::arithmetic::power::lemma_pow_adds(x, p, p);
                vstd::arithmetic::div_mod::lemma_mul_mod_noop(pp, pp, m);
                if bit {
                    vstd::arithmetic::power::lemma_pow_adds(x, p + p, 1);
                    vstd::arithmetic::power::lemma_pow1(x);
                    vstd::arithmetic::div_mod::lemma_mul_mod_noop(pp * pp, x, m);
                    vstd::arithmetic::div_mod::lemma_mod_twice(x, m);
                    self.lemma_value_bound();
                    lemma_fundamental_div_mod_converse(x, m, 0, x);
                    vstd::arithmetic::div_mod::lemma_mod_twice(pp * pp, m);
                }
                assert(p + p == 2 * p);
                p = 2 * p + bb;
                low = (low - bb * pow2((255 - k) as nat)) as nat;
            }
            acc = acc_new;
            rest = rest_new;
            k = k + 1;
        }
        proof {
            lemma2_to64();
            assert(p * pow2(0) == p) by (nonlinear_arith)
                requires
                    pow2(0) == 1,
            ;
        }
        acc
    }

    /// SIGNEXTEND from byte `b` (counting from the least significant).
    pub fn signextend(&self, b: &U256) -> (r: U256)
        ensures
            r.value() == be_value(signextend_bytes(b.value(), *self)),
    {
        let xb = self.to_be_bytes();
        if b.hi != 0 || b.lo >= 31 {
            return *self;
        }
        let sign_at = 31 - b.lo as usize;
        let fill: u8 = if xb[sign_at] >= 0x80 {
            0xff
        } else {
            0
        };
        let mut out: Vec<u8> = Vec::new();
        let mut i: usize = 0;
        while i < 32
            invariant
                i <= 32,
                xb@.len() == 32,
                sign_at < 32,
                out@.len() == i,
                forall|j: int|
                    0 <= j < i ==> out@[j] == (if j < sign_at {
                        fill
                    } else {
                        xb@[j]
                    }),
            decreases 32 - i,
        {
            out.push(
                if i < sign_at {
                    fill
                } else {
                    xb[i]
                },
            );
            i = i + 1;
        }
        proof {
            assert(out@ =~= signextend_bytes(b.value(), *self));
        }
        U256::from_be_slice(out.as_slice())
    }
}

} // verus!
