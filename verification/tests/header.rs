use block_prover::guest::{reported_hash, verify_block_hash};
use block_prover::hash::B256;
use block_prover::header::Header;

fn raw_header() -> alloy_consensus::Header {
    alloy_consensus::Header {
        number: 7,
        parent_hash: alloy_primitives::B256::repeat_byte(0x11),
        state_root: alloy_primitives::B256::repeat_byte(0x22),
        base_fee_per_gas: Some(1_000),
        ..Default::default()
    }
}

#[test]
fn a_decoded_header_has_the_fields_of_the_encoded_one() {
    let raw = raw_header();
    let bytes = alloy_rlp::encode(&raw);
    let header = Header::decode(&bytes).unwrap();
    assert_eq!(header.number, 7);
    assert_eq!(header.parent_hash, B256([0x11; 32]));
    assert_eq!(header.state_root, B256([0x22; 32]));
    assert_eq!(header.rlp, bytes);
    assert_eq!(header.hash_slow(), B256(raw.hash_slow().0));
}

#[test]
fn what_follows_a_header_is_not_read() {
    let bytes = alloy_rlp::encode(&raw_header());
    let mut longer = bytes.clone();
    longer.extend_from_slice(&[0xde, 0xad]);
    let header = Header::decode(&longer).unwrap();
    assert_eq!(header.number, 7);
    assert_eq!(header.rlp, bytes);
}

#[test]
fn the_encoding_of_a_header_is_read_back_as_the_same_header() {
    let mut bytes = alloy_rlp::encode(&raw_header());
    bytes.push(0x00);
    let header = Header::decode(&bytes).unwrap();
    let again = Header::decode(&header.rlp).unwrap();
    assert_eq!(again.number, header.number);
    assert_eq!(again.parent_hash, header.parent_hash);
    assert_eq!(again.state_root, header.state_root);
    assert_eq!(again.rlp, header.rlp);
}

#[test]
fn bytes_without_a_header_do_not_decode() {
    let bytes = alloy_rlp::encode(&raw_header());
    assert!(Header::decode(&[]).is_none());
    assert!(Header::decode(&[0x80]).is_none());
    assert!(Header::decode(&bytes[..bytes.len() - 1]).is_none());
}

#[test]
fn the_hash_is_the_keccak_digest_of_the_encoding() {
    let header = Header {
        number: 0,
        parent_hash: B256::zero(),
        state_root: B256::zero(),
        rlp: vec![],
    };
    assert_eq!(
        header.hash_slow(),
        B256([
            0xc5, 0xd2, 0x46, 0x01, 0x86, 0xf7, 0x23, 0x3c, 0x92, 0x7e, 0x7d, 0xb2, 0xdc, 0xc7,
            0x03, 0xc0, 0xe5, 0x00, 0xb6, 0x53, 0xca, 0x82, 0x27, 0x3b, 0x7b, 0xfa, 0xd8, 0x04,
            0x5d, 0x85, 0xa4, 0x70,
        ])
    );
}

#[test]
fn hashes_are_equal_where_all_their_bytes_are() {
    let mut bytes = [9; 32];
    assert!(B256(bytes) == B256([9; 32]));
    bytes[31] = 8;
    assert!(B256(bytes) != B256([9; 32]));
    assert_eq!(B256::zero(), B256([0; 32]));
}

#[test]
fn the_guest_reports_the_hash_of_an_executed_block() {
    let raw = raw_header();
    let header = Header::decode(&alloy_rlp::encode(&raw)).unwrap();
    assert_eq!(verify_block_hash::<()>(Ok(header)), B256(raw.hash_slow().0));
    assert_eq!(reported_hash::<()>(Ok(B256([5; 32]))), B256([5; 32]));
}

#[test]
fn the_guest_reports_zero_for_a_block_that_failed() {
    assert_eq!(verify_block_hash(Err("out of gas")), B256([0; 32]));
    assert_eq!(reported_hash(Err("out of gas")), B256([0; 32]));
}
