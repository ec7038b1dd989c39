use evm_interpreter::address::Address;
use evm_interpreter::status::StatusCode;
use evm_interpreter::word::U256;

const TYPE_PADDING: &[u8] = &[0; 12];
const ID_ADDRESS_MARKER: &[u8] = &[0xff];
const GOOD_ADDRESS_PADDING: &[u8] = &[0x00; 11];

fn word(parts: &[&[u8]]) -> U256 {
    U256::from_be_slice(&parts.concat())
}

#[test]
fn good_address_1() {
    let w = word(&[TYPE_PADDING, ID_ADDRESS_MARKER, GOOD_ADDRESS_PADDING, &[0, 0, 0, 0, 0, 0, 0, 1]]);
    let addr = Address::try_from_word(w).unwrap();
    assert_eq!(addr.as_id(), Some(1));
    assert_eq!(Address::from_id(1), addr);
}

#[test]
fn good_address_2() {
    let w =
        word(&[TYPE_PADDING, ID_ADDRESS_MARKER, GOOD_ADDRESS_PADDING, &[0, 0, 0, 0, 0, 0, 0xff, 0xff]]);
    let addr = Address::try_from_word(w).unwrap();
    assert_eq!(addr.as_id(), Some(u16::MAX as u64));
    assert_eq!(Address::from_id(u16::MAX as u64), addr);
}

#[test]
fn bad_marker() {
    let w = word(&[TYPE_PADDING, &[0xfa], GOOD_ADDRESS_PADDING, &[0, 0, 0, 0, 0, 0, 0, 1]]);
    assert_eq!(Address::try_from_word(w).unwrap().as_id(), None);
}

#[test]
fn bad_padding() {
    let w = word(&[
        TYPE_PADDING,
        ID_ADDRESS_MARKER,
        &[0, 0, 0, 0, 0, 0, 0, 0, 0, 0, 1],
        &[0, 0, 0, 0, 0, 0, 0, 1],
    ]);
    assert_eq!(Address::try_from_word(w).unwrap().as_id(), None);
}

#[test]
fn bad_marker_and_padding() {
    let w = word(&[TYPE_PADDING, &[0xfa], &[0, 0, 0, 0, 0, 0, 0, 0, 0, 0, 1], &[0, 0, 0, 0, 0, 0, 0, 1]]);
    assert_eq!(Address::try_from_word(w).unwrap().as_id(), None);
}

#[test]
fn nonzero_top_byte_is_rejected() {
    for i in 0..12 {
        let mut bytes = vec![0u8; 32];
        bytes[i] = 1;
        let r = Address::try_from_word(U256::from_be_slice(&bytes));
        assert_eq!(r.err(), Some(StatusCode::BadAddress));
    }
    let mut bytes = vec![0u8; 32];
    bytes[12] = 1;
    assert!(Address::try_from_word(U256::from_be_slice(&bytes)).is_ok());
}

#[test]
fn id_round_trip() {
    for id in [0u64, 1, 32, 1000, u64::MAX] {
        let a = Address::from_id(id);
        assert_eq!(a.as_id(), Some(id));
        let w = a.as_evm_word().to_be_bytes();
        assert_eq!(w[12], 0xff);
        assert_eq!(&w[24..], &id.to_be_bytes());
    }
}
