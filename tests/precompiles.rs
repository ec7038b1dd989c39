use evm_interpreter::parameter::{read_right_pad, PrecompileError, U256Reader};
use evm_interpreter::precompiles::{
    actor_type_needs_lookup, actor_type_query, call_actor, call_actor_output,
    decode_randomness_request, get_actor_type, lookup_address_output, lookup_address_query, randomness_output,
    resolve_address_output, resolve_address_query, BuiltinActorType, CallKind, NativeType,
    PrecompileContext, RandomnessType, DAG_CBOR,
};
use evm_interpreter::status::StatusCode;
use evm_interpreter::word::U256;
use fvm_shared::address::Address as FilecoinAddress;

fn word_u64(v: u64) -> Vec<u8> {
    U256::from_u64(v).to_be_bytes()
}

fn word_i64(v: i64) -> Vec<u8> {
    if v >= 0 {
        word_u64(v as u64)
    } else {
        U256::zero().wrapping_sub(&U256::from_u64(v.unsigned_abs())).to_be_bytes()
    }
}

fn delegate(readonly: bool) -> PrecompileContext {
    PrecompileContext { call_type: CallKind::DelegateCall, gas_limit: Some(1000), is_readonly: readonly }
}

fn send_input(flags: u64, codec: u64, payload: &[u8], address: &[u8]) -> Vec<u8> {
    let mut input = Vec::new();
    input.extend(word_u64(2));
    input.extend(word_u64(10));
    input.extend(word_u64(flags));
    input.extend(word_u64(codec));
    input.extend(word_u64(address.len() as u64));
    input.extend(word_u64(payload.len() as u64));
    input.extend_from_slice(payload);
    input.extend_from_slice(address);
    input
}

#[test]
fn dag_cbor_matches_the_encoding_crate() {
    assert_eq!(DAG_CBOR, fvm_ipld_encoding::DAG_CBOR);
}

#[test]
fn call_actor_decodes_a_send() {
    let to = FilecoinAddress::new_id(5);
    let input = send_input(0, DAG_CBOR, &[9, 8, 7], &to.to_bytes());
    let req = call_actor(&input, delegate(false)).ok().unwrap();
    assert_eq!(req.method, 2);
    assert_eq!(req.value, U256::from_u64(10));
    assert_eq!(req.flags, 0);
    assert_eq!(req.params, vec![9, 8, 7]);
    assert_eq!(req.to, to);
    assert_eq!(req.address, to.to_bytes());
    assert_eq!(req.gas_limit, Some(1000));
}

#[test]
fn call_actor_requires_delegate_call() {
    let input = send_input(0, DAG_CBOR, &[], &FilecoinAddress::new_id(5).to_bytes());
    let ctx = PrecompileContext { call_type: CallKind::Call, gas_limit: None, is_readonly: false };
    assert_eq!(call_actor(&input, ctx).err(), Some(PrecompileError::CallForbidden));
}

#[test]
fn call_actor_flags() {
    let addr = FilecoinAddress::new_id(5).to_bytes();
    let input = send_input(2, DAG_CBOR, &[], &addr);
    assert_eq!(call_actor(&input, delegate(false)).err(), Some(PrecompileError::InvalidInput));
    let input = send_input(0, DAG_CBOR, &[], &addr);
    assert_eq!(
        call_actor(&input, delegate(true)).err(),
        Some(PrecompileError::CallActorError(StatusCode::StaticModeViolation))
    );
    let input = send_input(1, DAG_CBOR, &[], &addr);
    assert!(call_actor(&input, delegate(true)).is_ok());
}

#[test]
fn call_actor_codec_and_address() {
    let addr = FilecoinAddress::new_id(5).to_bytes();
    let input = send_input(0, 0x55, &[], &addr);
    assert_eq!(call_actor(&input, delegate(false)).err(), Some(PrecompileError::InvalidInput));
    let input = send_input(0, DAG_CBOR, &[1], &[0x09, 0x01]);
    assert_eq!(call_actor(&input, delegate(false)).err(), Some(PrecompileError::InvalidInput));
}

#[test]
fn call_actor_output_layout() {
    let out = call_actor_output(0, &[1, 2, 3]);
    assert_eq!(out.len(), 131);
    assert_eq!(out[0..32].to_vec(), vec![0u8; 32]);
    assert_eq!(out[32..64].to_vec(), word_u64(0x71));
    assert_eq!(out[64..96].to_vec(), word_u64(128));
    assert_eq!(out[96..128].to_vec(), word_u64(3));
    assert_eq!(out[128..].to_vec(), vec![1, 2, 3]);
    let out = call_actor_output(16, &[]);
    assert_eq!(out[0..32].to_vec(), word_u64(16));
    assert_eq!(out.len(), 128);
}

#[test]
fn actor_type_of_system_and_builtin_actors() {
    let w = get_actor_type(5, None);
    assert_eq!(w, word_u64(NativeType::System.tag() as u64));
    assert!(!actor_type_needs_lookup(31));
    assert!(actor_type_needs_lookup(32));
    assert_eq!(get_actor_type(100, Some(BuiltinActorType::Miner)), word_u64(3));
    assert_eq!(get_actor_type(100, Some(BuiltinActorType::Market)), word_u64(1));
    assert_eq!(get_actor_type(100, Some(BuiltinActorType::Multisig)), word_u64(5));
    assert_eq!(get_actor_type(100, Some(BuiltinActorType::EVM)), word_u64(4));
    assert_eq!(get_actor_type(100, None), word_u64(0));
}

#[test]
fn actor_type_query_reads_a_u64_word() {
    assert_eq!(actor_type_query(&word_u64(77)), Ok(77));
    // a single byte is the most significant byte of a right-padded word
    assert_eq!(actor_type_query(&[1]), Err(PrecompileError::InvalidInput));
    assert_eq!(actor_type_query(&[]), Ok(0));
    assert_eq!(lookup_address_query(&word_u64(u64::MAX)), Ok(u64::MAX));
}

#[test]
fn randomness_request_decoding() {
    let mut input = Vec::new();
    input.extend(word_u64(1));
    input.extend(word_i64(-5));
    input.extend(word_u64(100));
    input.extend(word_u64(4));
    input.extend_from_slice(&[1, 2]);
    let req = decode_randomness_request(&input).ok().unwrap();
    assert_eq!(req.kind, Some(RandomnessType::Beacon));
    assert_eq!(req.personalization, -5);
    assert_eq!(req.epoch, 100);
    assert_eq!(req.entropy, vec![1, 2, 0, 0]);

    let mut input = Vec::new();
    input.extend(word_u64(7));
    let req = decode_randomness_request(&input).ok().unwrap();
    assert_eq!(req.kind, None);
    assert_eq!(req.entropy.len(), 0);
    assert_eq!(randomness_output(req.kind, Err(())).unwrap(), Vec::<u8>::new());
    assert_eq!(randomness_output(Some(RandomnessType::Chain), Ok(vec![4, 4])).unwrap(), vec![4, 4]);
    assert_eq!(
        randomness_output(Some(RandomnessType::Chain), Err(())),
        Err(PrecompileError::InvalidInput)
    );

    let mut input = Vec::new();
    input.extend(word_i64(-1));
    input.extend(U256::max_value().to_be_bytes());
    let req = decode_randomness_request(&input).ok().unwrap();
    assert_eq!(req.kind, None);
    assert_eq!(req.personalization, -1);

    let mut input = Vec::new();
    input.extend(word_u64(1 << 40));
    assert!(decode_randomness_request(&input).is_err());
}

#[test]
fn resolve_address_decoding() {
    let addr = FilecoinAddress::new_id(1234);
    let bytes = addr.to_bytes();
    let mut input = word_u64(bytes.len() as u64);
    input.extend_from_slice(&bytes);
    let q = resolve_address_query(&input).ok().unwrap();
    assert_eq!(q.address, Some(addr));
    assert_eq!(q.bytes, bytes);
    let mut input = word_u64(2);
    input.extend_from_slice(&[0x09, 0x00]);
    let q = resolve_address_query(&input).ok().unwrap();
    assert_eq!(q.address, None);
    assert_eq!(q.bytes, vec![0x09, 0x00]);
    assert_eq!(lookup_address_output(Some(vec![1, 2])), vec![1, 2]);
    assert_eq!(lookup_address_output(None), Vec::<u8>::new());
    assert_eq!(resolve_address_output(Some(0x0102)), vec![0, 0, 0, 0, 0, 0, 1, 2]);
    assert_eq!(resolve_address_output(None), Vec::<u8>::new());
}

#[test]
fn reader_and_padding() {
    assert_eq!(read_right_pad(&[1, 2, 3], 5), vec![1, 2, 3, 0, 0]);
    assert_eq!(read_right_pad(&[1, 2, 3], 2), vec![1, 2]);
    let mut input = word_i64(-2);
    input.extend_from_slice(&[5, 6]);
    let mut r = U256Reader::new(&input);
    assert_eq!(r.next_param_i32(), Ok(-2));
    assert_eq!(r.chunks_read(), 1);
    assert_eq!(r.remaining_slice(), vec![5, 6]);
    let mut r = U256Reader::new(&word_u64(1 << 33));
    assert_eq!(r.next_param_u32(), Err(PrecompileError::InvalidInput));
    let mut r = U256Reader::new(&word_u64(1 << 33));
    assert_eq!(r.next_param_i64(), Ok(1 << 33));
}
