use block_prover::aggregation::{can_aggregate, generate_aggregation_proof, StdinWrite};
use block_prover::zk::{Proof, VerifyingKey, ZkProof};

fn make(block_number: u64, compressed: bool) -> Proof<String, String> {
    Proof {
        block_number,
        proof: ZkProof { compressed, inner: format!("proof {block_number}") },
        public_values: vec![block_number as u8; 2],
        vk: VerifyingKey { hash: [block_number as u32; 8], inner: format!("key {block_number}") },
    }
}

#[test]
fn proofs_are_laid_out_in_their_order() {
    let inputs = vec![make(5, true), make(4, true)];
    assert!(can_aggregate(&inputs));
    let layout = generate_aggregation_proof(inputs);
    assert_eq!(layout.block_numbers, vec![5, 4]);
    assert_eq!(layout.vkeys, vec![[5; 8], [4; 8]]);
    assert_eq!(layout.public_values, vec![vec![5, 5], vec![4, 4]]);
    assert_eq!(
        layout.proofs,
        vec![
            ("proof 5".to_string(), "key 5".to_string()),
            ("proof 4".to_string(), "key 4".to_string()),
        ]
    );
}

#[test]
fn only_compressed_proofs_can_be_aggregated() {
    assert!(!can_aggregate(&vec![make(5, true), make(4, false)]));
    assert!(can_aggregate::<String, String>(&vec![]));
}

#[test]
fn the_lists_are_written_before_the_proofs() {
    let writes = generate_aggregation_proof(vec![make(5, true), make(4, true)]).into_writes();
    assert_eq!(
        writes,
        vec![
            StdinWrite::BlockNumbers(vec![5, 4]),
            StdinWrite::VerifyingKeys(vec![[5; 8], [4; 8]]),
            StdinWrite::PublicValues(vec![vec![5, 5], vec![4, 4]]),
            StdinWrite::Proof("proof 5".to_string(), "key 5".to_string()),
            StdinWrite::Proof("proof 4".to_string(), "key 4".to_string()),
        ]
    );
}
