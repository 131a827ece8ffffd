use std::sync::Arc;

use block_prover::ancestors::{link_ancestors, sort_by_number, StatelessValidationError};
use block_prover::hash::B256;
use block_prover::header::Header;
use block_prover::host_executor::{
    decode_headers, pre_state_root, FetchedBlock, HostError, HostExecutor,
};

fn header(number: u64, parent: u8, tag: u8) -> Header {
    Header {
        number,
        parent_hash: B256([parent; 32]),
        state_root: B256([tag; 32]),
        rlp: vec![tag],
    }
}

fn executor() -> HostExecutor<(), ()> {
    HostExecutor::new((), Arc::new(()))
}

/// Headers with the given numbers, each the parent of the next, oldest first.
fn chain(first: u64, len: u64) -> Vec<alloy_consensus::Header> {
    let mut headers: Vec<alloy_consensus::Header> = Vec::new();
    for i in 0..len {
        let parent_hash = match headers.last() {
            Some(parent) => parent.hash_slow(),
            None => alloy_primitives::B256::repeat_byte(0x77),
        };
        headers.push(alloy_consensus::Header {
            number: first + i,
            parent_hash,
            state_root: alloy_primitives::B256::repeat_byte(i as u8 + 1),
            ..Default::default()
        });
    }
    headers
}

fn encoded(headers: &[alloy_consensus::Header]) -> Vec<Vec<u8>> {
    headers.iter().map(|header| alloy_rlp::encode(header)).collect()
}

fn block_on(parent: &alloy_consensus::Header) -> FetchedBlock<()> {
    FetchedBlock {
        number: parent.number + 1,
        parent_hash: B256(parent.hash_slow().0),
        state_root: B256([0xee; 32]),
        block: (),
    }
}

#[test]
fn linked_headers_give_the_table_of_their_hashes() {
    let headers = [header(4, 1, 40), header(5, 2, 50), header(6, 3, 60)];
    let hashes = [B256([2; 32]), B256([3; 32]), B256([4; 32])];
    let table = link_ancestors(B256([4; 32]), 7, &headers, &hashes).unwrap();
    let entries: Vec<(u64, B256)> = table.into_iter().collect();
    assert_eq!(entries, vec![(4, B256([2; 32])), (5, B256([3; 32])), (6, B256([4; 32]))]);
}

#[test]
fn no_headers_are_linked_to_any_block() {
    let table = link_ancestors(B256([4; 32]), 7, &[], &[]).unwrap();
    assert!(table.is_empty());
}

#[test]
fn a_wrong_hash_breaks_the_chain() {
    let headers = [header(5, 2, 50), header(6, 3, 60)];
    let refused = Err(StatelessValidationError::InvalidAncestorChain);
    let hashes = [B256([3; 32]), B256([9; 32])];
    assert_eq!(link_ancestors(B256([4; 32]), 7, &headers, &hashes), refused);
    let hashes = [B256([9; 32]), B256([4; 32])];
    assert_eq!(link_ancestors(B256([4; 32]), 7, &headers, &hashes), refused);
}

#[test]
fn a_gap_in_the_numbers_breaks_the_chain() {
    let refused = Err(StatelessValidationError::InvalidAncestorChain);
    let hashes = [B256([3; 32]), B256([4; 32])];
    let headers = [header(4, 2, 40), header(6, 3, 60)];
    assert_eq!(link_ancestors(B256([4; 32]), 7, &headers, &hashes), refused);
    let headers = [header(5, 2, 50), header(6, 3, 60)];
    assert_eq!(link_ancestors(B256([4; 32]), 8, &headers, &hashes), refused);
    assert_eq!(link_ancestors(B256([4; 32]), 6, &headers, &hashes), refused);
}

#[test]
fn nothing_comes_before_the_first_block_or_after_the_last_number() {
    let refused = Err(StatelessValidationError::InvalidAncestorChain);
    let hashes = [B256([4; 32])];
    assert_eq!(link_ancestors(B256([4; 32]), 0, &[header(0, 1, 1)], &hashes), refused);
    assert_eq!(link_ancestors(B256([4; 32]), 0, &[header(u64::MAX, 1, 1)], &hashes), refused);
    let table = link_ancestors(B256([4; 32]), 1, &[header(0, 1, 1)], &hashes).unwrap();
    assert_eq!(table.get(&0), Some(&B256([4; 32])));
    assert_eq!(table.len(), 1);
}

#[test]
fn sorting_is_by_number_and_keeps_the_order_of_equal_numbers() {
    let mut headers =
        vec![header(9, 0, 1), header(3, 0, 2), header(9, 0, 3), header(1, 0, 4), header(3, 0, 5)];
    sort_by_number(&mut headers);
    let order: Vec<(u64, u8)> = headers.iter().map(|h| (h.number, h.rlp[0])).collect();
    assert_eq!(order, vec![(1, 4), (3, 2), (3, 5), (9, 1), (9, 3)]);
    sort_by_number(&mut headers);
    let again: Vec<(u64, u8)> = headers.iter().map(|h| (h.number, h.rlp[0])).collect();
    assert_eq!(again, order);
    let mut none: Vec<Header> = vec![];
    sort_by_number(&mut none);
    assert!(none.is_empty());
}

#[test]
fn a_real_chain_is_accepted_with_its_real_hashes() {
    let raw = chain(10, 4);
    let headers = decode_headers::<()>(&encoded(&raw)).unwrap();
    let table = executor().compute_ancestor_hashes(&block_on(&raw[3]), &headers).unwrap();
    assert_eq!(table.len(), 4);
    for header in &raw {
        assert_eq!(table.get(&header.number), Some(&B256(header.hash_slow().0)));
    }
}

#[test]
fn a_later_start_of_a_chain_is_accepted_too() {
    let raw = chain(10, 4);
    let headers = decode_headers::<()>(&encoded(&raw[2..])).unwrap();
    let table = executor().compute_ancestor_hashes(&block_on(&raw[3]), &headers).unwrap();
    assert_eq!(table.keys().copied().collect::<Vec<u64>>(), vec![12, 13]);
}

#[test]
fn what_comes_before_a_header_is_a_chain_of_its_ancestors() {
    let raw = chain(10, 4);
    let headers = decode_headers::<()>(&encoded(&raw[..2])).unwrap();
    let block = FetchedBlock {
        number: raw[2].number,
        parent_hash: B256(raw[2].parent_hash.0),
        state_root: B256(raw[2].state_root.0),
        block: (),
    };
    assert_eq!(executor().compute_ancestor_hashes(&block, &headers).unwrap().len(), 2);
}

#[test]
fn a_chain_that_was_tampered_with_is_refused() {
    let mut raw = chain(10, 4);
    let block = block_on(&raw[3]);
    raw[1].gas_limit = 1;
    let headers = decode_headers::<()>(&encoded(&raw)).unwrap();
    assert_eq!(
        executor().compute_ancestor_hashes(&block, &headers),
        Err(StatelessValidationError::InvalidAncestorChain)
    );
}

#[test]
fn headers_in_descending_order_are_not_a_chain() {
    let mut raw = chain(10, 3);
    let block = block_on(&raw[2]);
    raw.reverse();
    let headers = decode_headers::<()>(&encoded(&raw)).unwrap();
    assert_eq!(
        executor().compute_ancestor_hashes(&block, &headers),
        Err(StatelessValidationError::InvalidAncestorChain)
    );
}

#[test]
fn ancestors_may_arrive_in_any_order() {
    let raw = chain(10, 4);
    let block = block_on(&raw[3]);
    let shuffled =
        vec![raw[2].clone(), raw[0].clone(), raw[3].clone(), raw[1].clone()];
    let ancestors = executor().prepare_ancestors::<(), ()>(&block, &encoded(&shuffled)).unwrap();
    let numbers: Vec<u64> = ancestors.headers.iter().map(|h| h.number).collect();
    assert_eq!(numbers, vec![10, 11, 12, 13]);
    assert_eq!(ancestors.pre_state_root, B256([4; 32]));
    assert_eq!(ancestors.hashes.get(&13), Some(&block.parent_hash));
    assert_eq!(ancestors.hashes.len(), 4);
}

#[test]
fn ancestors_that_do_not_decode_are_refused_first() {
    let raw = chain(10, 2);
    let block = block_on(&raw[0]);
    let mut bytes = encoded(&raw);
    bytes.push(vec![0x01]);
    assert_eq!(
        executor().prepare_ancestors::<(), ()>(&block, &bytes).unwrap_err(),
        HostError::HeaderDeserializationFailed
    );
    assert_eq!(
        decode_headers::<()>(&bytes).unwrap_err(),
        HostError::HeaderDeserializationFailed
    );
}

#[test]
fn ancestors_of_another_block_are_refused() {
    let raw = chain(10, 2);
    let block = block_on(&raw[0]);
    assert_eq!(
        executor().prepare_ancestors::<(), ()>(&block, &encoded(&raw)).unwrap_err(),
        HostError::StatelessValidation(StatelessValidationError::InvalidAncestorChain)
    );
}

#[test]
fn a_block_needs_at_least_one_ancestor() {
    let raw = chain(10, 1);
    let block = block_on(&raw[0]);
    assert_eq!(
        executor().prepare_ancestors::<(), ()>(&block, &vec![]).unwrap_err(),
        HostError::MissingAncestorHeader
    );
    assert_eq!(pre_state_root::<()>(&[]), Err(HostError::MissingAncestorHeader));
    assert_eq!(
        pre_state_root::<()>(&[header(1, 0, 8), header(2, 0, 9)]),
        Ok(B256([9; 32]))
    );
}
