//! The host-service precompiles: decoding their inputs, deciding what is asked of the
//! host, and encoding what they return.
use crate::parameter::{
    param_word, read_right_pad, right_pad, signed_param, skip, unsigned_param, PrecompileError,
    U256Reader,
};
use crate::status::StatusCode;
use fvm_shared::address::Address as FilecoinAddress;
use crate::word::{be_value, word_bytes, word_of, U256};
use vstd::prelude::*;

verus! {

#[verifier::external_type_specification]
#[verifier::external_body]
pub struct ExFilecoinAddress(FilecoinAddress);

/// Whether bytes are the encoding of a Filecoin address.
pub uninterp spec fn is_filecoin_address(b: Seq<u8>) -> bool;

/// Relies on `fvm_shared::address::Address::from_bytes`: it parses an address from its
/// byte encoding, and refuses anything shorter than two bytes (a protocol byte and a
/// payload).
#[verifier::external_body]
fn parse_filecoin_address(b: &[u8]) -> (r: Option<FilecoinAddress>)
    ensures
        r.is_some() == is_filecoin_address(b@),
        b@.len() < 2 ==> r.is_none(),
{
    FilecoinAddress::from_bytes(b).ok()
}

/// Relies on `fvm_shared::sys::SendFlags::from_bits`: it accepts a bit set only when no
/// bit other than `READ_ONLY` (bit 0) is set.
#[verifier::external_body]
fn send_flags_valid(bits: u64) -> (r: bool)
    ensures
        r == (bits <= 1),
{
    fvm_shared::sys::SendFlags::from_bits(bits).is_some()
}

/// Relies on `fvm_shared::sys::SendFlags::read_only`: it tests the `READ_ONLY` bit
/// (bit 0).
#[verifier::external_body]
fn send_flags_read_only(bits: u64) -> (r: bool)
    requires
        bits <= 1,
    ensures
        r == (bits == 1),
{
    fvm_shared::sys::SendFlags::from_bits_retain(bits).read_only()
}

/// The multicodec code of DAG-CBOR, the one payload codec that sends accept.
pub const DAG_CBOR: u64 = 0x71;

/// Actor identifiers below this are system actors.
pub const LAST_SYSTEM_ACTOR_ID: u64 = 32;

/// How the current call was made.
#[derive(Clone, Copy, Debug, PartialEq, Eq, Structural)]
pub enum CallKind {
    Call,
    DelegateCall,
    StaticCall,
    CallCode,
}

/// The context a precompile runs in.
#[derive(Clone, Copy, Debug, PartialEq, Eq, Structural)]
pub struct PrecompileContext {
    pub call_type: CallKind,
    pub gas_limit: Option<u64>,
    pub is_readonly: bool,
}

/// The host's kinds of built-in actor.
#[derive(Clone, Copy, Debug, PartialEq, Eq, Structural)]
pub enum BuiltinActorType {
    System,
    Init,
    Cron,
    Account,
    Power,
    Miner,
    Market,
    PaymentChannel,
    Multisig,
    Reward,
    VerifiedRegistry,
    DataCap,
    Embryo,
    EVM,
    EAM,
}

/// The classification that the actor-type precompile returns.
#[derive(Clone, Copy, Debug, PartialEq, Eq, Structural)]
pub enum NativeType {
    NonExistent,
    System,
    Account,
    StorageProvider,
    EVMContract,
    OtherTypes,
    Embryo,
}

impl NativeType {
    /// The number that stands for the classification in the returned word.
    pub open spec fn tag_spec(self) -> u8 {
        match self {
            NativeType::NonExistent => 0,
            NativeType::System => 1,
            NativeType::Account => 2,
            NativeType::StorageProvider => 3,
            NativeType::EVMContract => 4,
            NativeType::OtherTypes => 5,
            NativeType::Embryo => 6,
        }
    }

    pub fn tag(&self) -> (r: u8)
        ensures
            r == self.tag_spec(),
    {
        match self {
            NativeType::NonExistent => 0,
            NativeType::System => 1,
            NativeType::Account => 2,
            NativeType::StorageProvider => 3,
            NativeType::EVMContract => 4,
            NativeType::OtherTypes => 5,
            NativeType::Embryo => 6,
        }
    }

    /// The classification as a 32-byte big-endian word.
    pub fn word_vec(&self) -> (r: Vec<u8>)
        ensures
            r@.len() == 32,
            be_value(r@) == self.tag_spec(),
    {
        U256::from_u64(self.tag() as u64).to_be_bytes()
    }
}

/// How a built-in actor is classified: the singletons count as system actors.
pub open spec fn native_type_of(t: BuiltinActorType) -> NativeType {
    match t {
        BuiltinActorType::Account => NativeType::Account,
        BuiltinActorType::System => NativeType::System,
        BuiltinActorType::Embryo => NativeType::Embryo,
        BuiltinActorType::EVM => NativeType::EVMContract,
        BuiltinActorType::Miner => NativeType::StorageProvider,
        BuiltinActorType::PaymentChannel => NativeType::OtherTypes,
        BuiltinActorType::Multisig => NativeType::OtherTypes,
        _ => NativeType::System,
    }
}

pub fn native_type(t: BuiltinActorType) -> (r: NativeType)
    ensures
        r == native_type_of(t),
{
    match t {
        BuiltinActorType::Account => NativeType::Account,
        BuiltinActorType::System => NativeType::System,
        BuiltinActorType::Embryo => NativeType::Embryo,
        BuiltinActorType::EVM => NativeType::EVMContract,
        BuiltinActorType::Miner => NativeType::StorageProvider,
        BuiltinActorType::PaymentChannel => NativeType::OtherTypes,
        BuiltinActorType::Multisig => NativeType::OtherTypes,
        BuiltinActorType::Market => NativeType::System,
        BuiltinActorType::Power => NativeType::System,
        BuiltinActorType::Init => NativeType::System,
        BuiltinActorType::Cron => NativeType::System,
        BuiltinActorType::Reward => NativeType::System,
        BuiltinActorType::VerifiedRegistry => NativeType::System,
        BuiltinActorType::DataCap => NativeType::System,
        BuiltinActorType::EAM => NativeType::System,
    }
}

/// The classification of actor `id`, given what the host resolved its type to (or
/// `None` when it has no such actor); identifiers of system actors need no lookup.
pub open spec fn actor_type_spec(id: u64, resolved: Option<BuiltinActorType>) -> NativeType {
    if id < LAST_SYSTEM_ACTOR_ID {
        NativeType::System
    } else {
        match resolved {
            Some(t) => native_type_of(t),
            None => NativeType::NonExistent,
        }
    }
}

/// The actor identifier that the actor-type precompile asks about: the first word of
/// its input, which must fit in 64 bits.
pub fn actor_type_query(input: &[u8]) -> (r: Result<u64, PrecompileError>)
    ensures
        match unsigned_param(param_word(input@, 0), 0x1_0000_0000_0000_0000) {
            Ok(v) => r == Ok::<u64, PrecompileError>(v as u64),
            Err(e) => r == Err::<u64, PrecompileError>(e),
        },
{
    let mut reader = U256Reader::new(input);
    proof {
        assert(skip(input@, 0) =~= input@);
    }
    reader.next_param_u64()
}

/// Whether the host must be asked for the type of actor `id`.
pub fn actor_type_needs_lookup(id: u64) -> (r: bool)
    ensures
        r == (id >= LAST_SYSTEM_ACTOR_ID),
{
    id >= LAST_SYSTEM_ACTOR_ID
}

/// What the actor-type precompile returns for actor `id`: its classification as a
/// word.
pub fn get_actor_type(id: u64, resolved: Option<BuiltinActorType>) -> (r: Vec<u8>)
    ensures
        r@.len() == 32,
        be_value(r@) == actor_type_spec(id, resolved).tag_spec(),
{
    let t = if id < LAST_SYSTEM_ACTOR_ID {
        NativeType::System
    } else {
        match resolved {
            Some(t) => native_type(t),
            None => NativeType::NonExistent,
        }
    };
    t.word_vec()
}

/// The randomness domains.
#[derive(Clone, Copy, Debug, PartialEq, Eq, Structural)]
pub enum RandomnessType {
    Chain,
    Beacon,
}

pub open spec fn randomness_type_of(v: int) -> Option<RandomnessType> {
    if v == 0 {
        Some(RandomnessType::Chain)
    } else if v == 1 {
        Some(RandomnessType::Beacon)
    } else {
        None
    }
}

/// What the randomness precompile asks of the host; `kind` is `None` for an
/// unrecognised domain, for which nothing is asked.
pub struct RandomnessRequest {
    pub kind: Option<RandomnessType>,
    pub personalization: i64,
    pub epoch: i64,
    pub entropy: Vec<u8>,
}

/// Decodes the randomness precompile's input: the domain (a 32-bit signed word),
/// personalization and epoch (64-bit signed words), the entropy length (a 32-bit
/// unsigned word), then that many bytes of entropy, right-padded.
pub fn decode_randomness_request(input: &[u8]) -> (r: Result<RandomnessRequest, PrecompileError>)
    ensures
        ({
            let w0 = signed_param(param_word(input@, 0), 0x8000_0000);
            let w1 = signed_param(param_word(input@, 1), 0x8000_0000_0000_0000);
            let w2 = signed_param(param_word(input@, 2), 0x8000_0000_0000_0000);
            let w3 = unsigned_param(param_word(input@, 3), 0x1_0000_0000);
            if w0.is_ok() && w1.is_ok() && w2.is_ok() && w3.is_ok() {
                r matches Ok(req) && req.kind == randomness_type_of(w0.unwrap())
                    && req.personalization == w1.unwrap() && req.epoch == w2.unwrap()
                    && req.entropy@ == right_pad(skip(input@, 128), w3.unwrap())
            } else {
                r == Err::<RandomnessRequest, PrecompileError>(PrecompileError::InvalidInput)
            }
        }),
{
    let mut reader = U256Reader::new(input);
    proof {
        assert(skip(input@, 0) =~= input@);
    }
    let kind = match reader.next_param_i32() {
        Ok(0) => Some(RandomnessType::Chain),
        Ok(1) => Some(RandomnessType::Beacon),
        Ok(_) => None,
        Err(e) => {
            return Err(e);
        },
    };
    let personalization = match reader.next_param_i64() {
        Ok(v) => v,
        Err(e) => {
            return Err(e);
        },
    };
    let epoch = match reader.next_param_i64() {
        Ok(v) => v,
        Err(e) => {
            return Err(e);
        },
    };
    let entropy_len = match reader.next_param_u32() {
        Ok(v) => v,
        Err(e) => {
            return Err(e);
        },
    };
    let rest = reader.remaining_slice();
    let entropy = read_right_pad(rest.as_slice(), entropy_len as usize);
    Ok(RandomnessRequest { kind, personalization, epoch, entropy })
}

/// What the randomness precompile returns: nothing for an unrecognised domain,
/// otherwise the host's randomness, or `InvalidInput` when the host could not give it.
pub fn randomness_output(kind: Option<RandomnessType>, fetched: Result<Vec<u8>, ()>) -> (r: Result<
    Vec<u8>,
    PrecompileError,
>)
    ensures
        kind.is_none() ==> (r matches Ok(v) && v@.len() == 0),
        kind.is_some() && fetched.is_ok() ==> (r matches Ok(v) && v@ == fetched.unwrap()@),
        kind.is_some() && fetched.is_err() ==> r == Err::<Vec<u8>, PrecompileError>(
            PrecompileError::InvalidInput,
        ),
{
    match kind {
        None => Ok(Vec::new()),
        Some(_) => match fetched {
            Ok(v) => Ok(v),
            Err(()) => Err(PrecompileError::InvalidInput),
        },
    }
}

/// The actor identifier that the address-lookup precompile asks about.
pub fn lookup_address_query(input: &[u8]) -> (r: Result<u64, PrecompileError>)
    ensures
        match unsigned_param(param_word(input@, 0), 0x1_0000_0000_0000_0000) {
            Ok(v) => r == Ok::<u64, PrecompileError>(v as u64),
            Err(e) => r == Err::<u64, PrecompileError>(e),
        },
{
    actor_type_query(input)
}

/// What the address-lookup precompile returns: the encoded address that the host
/// found, or nothing.
pub fn lookup_address_output(found: Option<Vec<u8>>) -> (r: Vec<u8>)
    ensures
        found.is_none() ==> r@.len() == 0,
        found.is_some() ==> r@ == found.unwrap()@,
{
    match found {
        Some(bytes) => bytes,
        None => Vec::new(),
    }
}

/// The address bytes that the address-resolution precompile reads: a 32-bit length
/// word, then that many bytes, right-padded.
pub open spec fn resolve_address_bytes(input: Seq<u8>) -> Result<Seq<u8>, PrecompileError> {
    match unsigned_param(param_word(input, 0), 0x1_0000_0000) {
        Ok(len) => Ok(right_pad(skip(input, 32), len)),
        Err(e) => Err(e),
    }
}

/// The address that the address-resolution precompile asks about.
pub struct ResolveQuery {
    /// The encoded address, as the input gave it.
    pub bytes: Vec<u8>,
    /// `bytes` parsed; `None` when they are not an address, for which the precompile
    /// returns nothing.
    pub address: Option<FilecoinAddress>,
}

/// Decodes the address-resolution precompile's input into the address to resolve.
pub fn resolve_address_query(input: &[u8]) -> (r: Result<ResolveQuery, PrecompileError>)
    ensures
        match resolve_address_bytes(input@) {
            Ok(b) => r matches Ok(q) && q.bytes@ == b && q.address.is_some()
                == is_filecoin_address(b),
            Err(e) => r matches Err(e2) && e2 == e,
        },
{
    let mut reader = U256Reader::new(input);
    proof {
        assert(skip(input@, 0) =~= input@);
    }
    let len = match reader.next_param_u32() {
        Ok(v) => v,
        Err(e) => {
            return Err(e);
        },
    };
    let rest = reader.remaining_slice();
    let bytes = read_right_pad(rest.as_slice(), len as usize);
    let address = parse_filecoin_address(bytes.as_slice());
    Ok(ResolveQuery { bytes, address })
}

/// What the address-resolution precompile returns: the actor identifier as eight
/// big-endian bytes, or nothing when the host found none.
pub fn resolve_address_output(id: Option<u64>) -> (r: Vec<u8>)
    ensures
        id.is_none() ==> r@.len() == 0,
        id.is_some() ==> r@.len() == 8 && be_value(r@) == id.unwrap(),
{
    match id {
        None => Vec::new(),
        Some(id) => {
            let word = U256::from_u64(id).to_be_bytes();
            let mut out: Vec<u8> = Vec::new();
            let mut i: usize = 24;
            while i < 32
                invariant
                    24 <= i <= 32,
                    word@.len() == 32,
                    out@ == word@.subrange(24, i as int),
                decreases 32 - i,
            {
                out.push(word[i]);
                i = i + 1;
                proof {
                    assert(out@ =~= word@.subrange(24, i as int));
                }
            }
            proof {
                assert(word@ =~= word@.subrange(0, 24) + out@);
                crate::word::lemma_be_value_concat(word@.subrange(0, 24), out@);
                crate::word::lemma_pow256_16();
                crate::word::lemma_be_value_bound(out@);
                lemma_be_value_zero_prefix(word@.subrange(0, 24), out@, id as nat);
            }
            out
        },
    }
}

/// When a value below 256^8 is spelled in 32 bytes, its last 8 bytes spell it.
proof fn lemma_be_value_zero_prefix(pre: Seq<u8>, low: Seq<u8>, v: nat)
    requires
        low.len() == 8,
        be_value(pre) * crate::word::pow256(8) + be_value(low) == v,
        v < 0x1_0000_0000_0000_0000,
        be_value(low) < crate::word::pow256(8),
        crate::word::pow256(8) == 0x1_0000_0000_0000_0000,
    ensures
        be_value(low) == v,
{
    if be_value(pre) > 0 {
        assert(be_value(pre) * crate::word::pow256(8) >= crate::word::pow256(8)) by (nonlinear_arith)
            requires
                be_value(pre) >= 1,
                crate::word::pow256(8) > 0,
        ;
    }
}


/// What the generalized-send precompile asks the host to send.
pub struct SendRequest {
    pub method: u64,
    pub value: U256,
    /// The send flags; bit 0 is read-only mode.
    pub flags: u64,
    /// The encoded address of the target, as the input gave it.
    pub address: Vec<u8>,
    /// The target: `address` parsed.
    pub to: FilecoinAddress,
    pub params: Vec<u8>,
    pub gas_limit: Option<u64>,
}

/// The fields of a generalized send, as its input encodes them.
pub struct CallActorFields {
    pub method: u64,
    pub value: nat,
    pub flags: u64,
    pub params: Seq<u8>,
    pub address: Seq<u8>,
}

/// Decoding the generalized-send precompile's input. Only a delegate call may use it.
/// The words are: method, value, flags, codec, address length, payload length; then
/// the payload followed by the address, right-padded. Flags other than read-only are
/// invalid; a send that is not read-only is refused in a read-only call; only the
/// DAG-CBOR codec is accepted; the address must parse.
pub open spec fn call_actor_spec(input: Seq<u8>, ctx: PrecompileContext) -> Result<
    CallActorFields,
    PrecompileError,
> {
    if ctx.call_type != CallKind::DelegateCall {
        Err(PrecompileError::CallForbidden)
    } else {
        match unsigned_param(param_word(input, 0), 0x1_0000_0000_0000_0000) {
            Err(e) => Err(e),
            Ok(method) => match unsigned_param(param_word(input, 2), 0x1_0000_0000_0000_0000) {
                Err(e) => Err(e),
                Ok(flags) => if flags > 1 {
                    Err(PrecompileError::InvalidInput)
                } else if flags != 1 && ctx.is_readonly {
                    Err(PrecompileError::CallActorError(StatusCode::StaticModeViolation))
                } else {
                    match unsigned_param(param_word(input, 3), 0x1_0000_0000_0000_0000) {
                        Err(e) => Err(e),
                        Ok(codec) => if codec != DAG_CBOR {
                            Err(PrecompileError::InvalidInput)
                        } else {
                            match unsigned_param(param_word(input, 4), 0x1_0000_0000) {
                                Err(e) => Err(e),
                                Ok(address_size) => match unsigned_param(
                                    param_word(input, 5),
                                    0x1_0000_0000,
                                ) {
                                    Err(e) => Err(e),
                                    Ok(send_size) => {
                                        let bytes = right_pad(
                                            skip(input, 192),
                                            send_size + address_size,
                                        );
                                        let address = bytes.subrange(
                                            send_size as int,
                                            send_size + address_size as int,
                                        );
                                        if send_size + address_size > usize::MAX {
                                            Err(PrecompileError::InvalidInput)
                                        } else if !is_filecoin_address(address) {
                                            Err(PrecompileError::InvalidInput)
                                        } else {
                                            Ok(
                                                CallActorFields {
                                                    method: method as u64,
                                                    value: be_value(param_word(input, 1)),
                                                    flags: flags as u64,
                                                    params: bytes.subrange(0, send_size as int),
                                                    address,
                                                },
                                            )
                                        }
                                    },
                                },
                            }
                        },
                    }
                },
            },
        }
    }
}

/// Decodes the generalized-send precompile's input into what to send.
pub fn call_actor(input: &[u8], ctx: PrecompileContext) -> (r: Result<SendRequest, PrecompileError>)
    ensures
        match call_actor_spec(input@, ctx) {
            Ok(f) => r matches Ok(req) && req.method == f.method && req.value.value() == f.value
                && req.flags == f.flags && req.address@ == f.address && req.params@ == f.params
                && req.gas_limit == ctx.gas_limit,
            Err(e) => r matches Err(e2) && e2 == e,
        },
{
    if ctx.call_type != CallKind::DelegateCall {
        return Err(PrecompileError::CallForbidden);
    }
    let mut reader = U256Reader::new(input);
    proof {
        assert(skip(input@, 0) =~= input@);
    }
    let method = match reader.next_param_u64() {
        Ok(v) => v,
        Err(e) => {
            return Err(e);
        },
    };
    let value_word = reader.next_padded();
    let value = U256::from_be_slice(value_word.as_slice());
    let flags = match reader.next_param_u64() {
        Ok(v) => v,
        Err(e) => {
            return Err(e);
        },
    };
    if !send_flags_valid(flags) {
        return Err(PrecompileError::InvalidInput);
    }
    if !send_flags_read_only(flags) && ctx.is_readonly {
        return Err(PrecompileError::CallActorError(StatusCode::StaticModeViolation));
    }
    let codec = match reader.next_param_u64() {
        Ok(v) => v,
        Err(e) => {
            return Err(e);
        },
    };
    if codec != DAG_CBOR {
        return Err(PrecompileError::InvalidInput);
    }
    let address_size = match reader.next_param_u32() {
        Ok(v) => v as usize,
        Err(e) => {
            return Err(e);
        },
    };
    let send_data_size = match reader.next_param_u32() {
        Ok(v) => v as usize,
        Err(e) => {
            return Err(e);
        },
    };
    if address_size > usize::MAX - send_data_size {
        return Err(PrecompileError::InvalidInput);
    }
    let rest = reader.remaining_slice();
    let bytes = read_right_pad(rest.as_slice(), send_data_size + address_size);
    let params = copy_sub(&bytes, 0, send_data_size);
    let address_bytes = copy_sub(&bytes, send_data_size, address_size);
    let to = match parse_filecoin_address(address_bytes.as_slice()) {
        Some(a) => a,
        None => {
            return Err(PrecompileError::InvalidInput);
        },
    };
    Ok(
        SendRequest {
            method,
            value,
            flags,
            address: address_bytes,
            to,
            params,
            gas_limit: ctx.gas_limit,
        },
    )
}

/// A copy of `size` bytes of `src` from `start`.
fn copy_sub(src: &Vec<u8>, start: usize, size: usize) -> (r: Vec<u8>)
    requires
        start + size <= src@.len(),
    ensures
        r@ == src@.subrange(start as int, start + size),
{
    let mut out: Vec<u8> = Vec::new();
    let mut i: usize = 0;
    let n = src.len();
    while i < size
        invariant
            i <= size,
            n == src@.len(),
            start + size <= n,
            out@ == src@.subrange(start as int, start + i),
        decreases size - i,
    {
        out.push(src[start + i]);
        i = i + 1;
        proof {
            assert(out@ =~= src@.subrange(start as int, start + i));
        }
    }
    out
}

/// The words that lead the generalized-send precompile's output: the exit code, the
/// codec, the offset of the payload (four words in) and the payload's length (as a
/// 32-bit number).
pub open spec fn call_actor_header(exit_code: u32, len: nat) -> Seq<u8> {
    word_bytes(word_of(exit_code as nat)) + word_bytes(word_of(DAG_CBOR as nat)) + word_bytes(
        word_of(128),
    ) + word_bytes(word_of(len % 0x1_0000_0000))
}

/// Encodes the generalized-send precompile's output: the header words, then the
/// payload unpadded. An exit code of 0 is success; others are the callee's or the
/// system's.
pub fn call_actor_output(exit_code: u32, data: &[u8]) -> (r: Vec<u8>)
    ensures
        r@ == call_actor_header(exit_code, data@.len()) + data@,
{
    let size = (data.len() as u64) % 0x1_0000_0000;
    let words = [
        U256::from_u64(exit_code as u64),
        U256::from_u64(DAG_CBOR),
        U256::from_u64(128),
        U256::from_u64(size),
    ];
    let mut out: Vec<u8> = Vec::new();
    let mut k: usize = 0;
    proof {
        crate::word::lemma_word_of_value(words[0]);
        crate::word::lemma_word_of_value(words[1]);
        crate::word::lemma_word_of_value(words[2]);
        crate::word::lemma_word_of_value(words[3]);
        assert(out@ =~= Seq::<u8>::empty());
    }
    while k < 4
        invariant
            k <= 4,
            words@.len() == 4,
            words@[0] == word_of(exit_code as nat),
            words@[1] == word_of(DAG_CBOR as nat),
            words@[2] == word_of(128),
            words@[3] == word_of(data@.len() % 0x1_0000_0000),
            k == 0 ==> out@ == Seq::<u8>::empty(),
            k == 1 ==> out@ == word_bytes(words@[0]),
            k == 2 ==> out@ == word_bytes(words@[0]) + word_bytes(words@[1]),
            k == 3 ==> out@ == word_bytes(words@[0]) + word_bytes(words@[1]) + word_bytes(
                words@[2],
            ),
            k == 4 ==> out@ == call_actor_header(exit_code, data@.len()),
        decreases 4 - k,
    {
        let b = words[k].to_be_bytes();
        append(&mut out, b.as_slice());
        k = k + 1;
    }
    append(&mut out, data);
    out
}

/// Appends `src` to `out`.
fn append(out: &mut Vec<u8>, src: &[u8])
    ensures
        final(out)@ == old(out)@ + src@,
{
    let mut i: usize = 0;
    let ghost start = out@;
    while i < src.len()
        invariant
            i <= src@.len(),
            start == old(out)@,
            out@ == start + src@.subrange(0, i as int),
        decreases src@.len() - i,
    {
        out.push(src[i]);
        i = i + 1;
        proof {
            assert(out@ =~= start + src@.subrange(0, i as int));
        }
    }
    proof {
        assert(src@.subrange(0, src@.len() as int) =~= src@);
    }
}

} // verus!
