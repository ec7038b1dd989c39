//! Addresses in the interpreter's 256-bit form, and the ID-address sub-format that
//! encodes a host-native actor identifier.
use crate::status::StatusCode;
use crate::word::{
    be_value, lemma_be_value_bound, lemma_be_value_concat, lemma_be_value_zero, lemma_pow256_20,
    lemma_word_of_value, pow256, word_of, U256,
};
use vstd::prelude::*;

verus! {

/// 2^160: an address word is below this, i.e. its top twelve bytes are zero.
pub open spec fn address_bound() -> nat {
    0x1_0000_0000nat * 0xffff_ffff_ffff_ffff_ffff_ffff_ffff_ffffnat + 0x1_0000_0000nat
}

/// The word of the ID address of `id`: byte 12 is 0xff, bytes 13 to 23 are zero and
/// bytes 24 to 31 hold `id` in big-endian order.
pub open spec fn id_address_base() -> nat {
    0xff00_0000nat * 0xffff_ffff_ffff_ffff_ffff_ffff_ffff_ffffnat + 0xff00_0000nat
}

pub open spec fn id_address_word(id: nat) -> nat {
    id_address_base() + id
}

/// The actor identifier that an address word encodes, if it is in the ID-address form.
pub open spec fn id_of_word(v: nat) -> Option<u64> {
    if id_address_base() <= v && v < id_address_base() + 0x1_0000_0000_0000_0000nat {
        Some((v - id_address_base()) as u64)
    } else {
        None
    }
}

/// The address whose word has value `v`, for `v` below 2^160.
pub closed spec fn address_of(v: nat) -> Address {
    Address(word_of(v))
}

/// An address is the address of its value.
pub proof fn lemma_address_of(a: Address)
    ensures
        address_of(a@) == a,
{
    lemma_word_of_value(a.0);
}

/// An address word: a word whose top twelve bytes are zero.
#[derive(Clone, Copy, Debug, PartialEq, Eq)]
pub struct Address(U256);

impl View for Address {
    type V = nat;

    closed spec fn view(&self) -> nat {
        self.0.value()
    }
}

impl Address {
    #[verifier::type_invariant]
    spec fn inv(&self) -> bool {
        self.0.value() < address_bound()
    }

    /// Validates a word as an address: it fails when any of the top twelve bytes is
    /// nonzero.
    pub fn try_from_word(v: U256) -> (r: Result<Address, StatusCode>)
        ensures
            r.is_ok() == (v.value() < address_bound()),
            r.is_ok() ==> r.unwrap()@ == v.value(),
            r.is_err() ==> r == Err::<Address, StatusCode>(StatusCode::BadAddress),
    {
        if v.hi < 0x1_0000_0000 {
            assert(v.value() < address_bound());
            Ok(Address(v))
        } else {
            assert(v.value() >= address_bound());
            Err(StatusCode::BadAddress)
        }
    }

    /// The ID address of an actor identifier.
    pub fn from_id(id: u64) -> (r: Address)
        ensures
            r@ == id_address_word(id as nat),
            r.as_id_spec() == Some(id),
    {
        Address(U256 { hi: 0xff00_0000, lo: id as u128 })
    }

    pub open spec fn as_id_spec(&self) -> Option<u64> {
        id_of_word(self@)
    }

    /// The actor identifier, when this address is in the ID-address form; `None`
    /// otherwise (not an error).
    pub fn as_id(&self) -> (r: Option<u64>)
        ensures
            r == self.as_id_spec(),
    {
        proof {
            use_type_invariant(self);
        }
        if self.0.hi == 0xff00_0000 && self.0.lo <= u64::MAX as u128 {
            Some(self.0.lo as u64)
        } else {
            None
        }
    }

    /// This address as a word.
    pub fn as_evm_word(&self) -> (r: U256)
        ensures
            r.value() == self@,
            self@ < address_bound(),
    {
        proof {
            use_type_invariant(self);
        }
        self.0
    }
}

/// The ID address of an identifier decodes back to that identifier.
pub proof fn lemma_id_address_round_trip(id: u64)
    ensures
        id_of_word(id_address_word(id as nat)) == Some(id),
{
}


/// Thirty-two big-endian bytes spell a valid address word exactly when their top
/// twelve bytes are all zero.
pub proof fn lemma_address_top_bytes(b: Seq<u8>)
    requires
        b.len() == 32,
    ensures
        (be_value(b) < address_bound()) == (forall|i: int| 0 <= i < 12 ==> b[i] == 0),
{
    let hi = b.subrange(0, 12);
    let lo = b.subrange(12, 32);
    assert(b =~= hi + lo);
    lemma_be_value_concat(hi, lo);
    lemma_pow256_20();
    lemma_be_value_bound(lo);
    lemma_be_value_zero(hi);
    let p = pow256(20);
    if be_value(hi) > 0 {
        assert(be_value(hi) * p >= p) by (nonlinear_arith)
            requires
                be_value(hi) >= 1,
                p > 0,
        ;
    }
    assert(forall|i: int| 0 <= i < 12 ==> hi[i] == b[i]);
}

} // verus!
