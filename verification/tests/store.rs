use block_prover::db::{
    on_aggregation_end, on_aggregation_failed, on_aggregation_start, stored_number,
    AggregationOutcome,
};
use block_prover::loading::{
    load_proof, start_loading, LoadAction, LoadEvent, LoadRequest, Loading, ProofQuery, ProofRow,
};
use block_prover::status::ProvableBlockStatus;
use block_prover::zk::{VerifyingKey, ZkProof};

type Event = LoadEvent<&'static str, &'static str, String>;
type Action = LoadAction<&'static str, &'static str, String>;

fn outcome() -> AggregationOutcome {
    AggregationOutcome {
        proving_millis: 1234,
        instruction_count: 99,
        proof: vec![1, 2, 3],
        public_values: vec![4, 5],
        vk_id: "0xkey".to_string(),
        vk: vec![6],
    }
}

fn row(proof: Vec<u8>) -> ProofRow {
    ProofRow { proof, public_values: vec![4, 5], vk_id: "0xkey".to_string() }
}

#[test]
fn the_words_of_the_statuses() {
    assert_eq!(ProvableBlockStatus::Queued.to_string(), "queued");
    assert_eq!(ProvableBlockStatus::Executed.to_string(), "executed");
    assert_eq!(ProvableBlockStatus::Proved.to_string(), "proved");
    assert_eq!(ProvableBlockStatus::Failed.to_string(), "failed");
}

#[test]
fn numbers_are_stored_modulo_two_to_the_sixty_four() {
    assert_eq!(stored_number(0), 0);
    assert_eq!(stored_number(42), 42);
    assert_eq!(stored_number(i64::MAX as u64), i64::MAX);
    assert_eq!(stored_number(i64::MAX as u64 + 1), i64::MIN);
    assert_eq!(stored_number(u64::MAX), -1);
}

#[test]
fn an_aggregation_begins_queued() {
    let task = on_aggregation_start(17);
    assert_eq!(task.block_number, 17);
    assert_eq!(task.status, "queued");
}

#[test]
fn a_success_is_recorded_with_its_key() {
    let (success, key) = on_aggregation_end(17, outcome());
    assert_eq!(success.block_number, 17);
    assert_eq!(success.proving_millis, 1234);
    assert_eq!(success.instruction_count, 99);
    assert_eq!(success.proof, vec![1, 2, 3]);
    assert_eq!(success.public_values, vec![4, 5]);
    assert_eq!(success.vk_id, "0xkey");
    assert_eq!(success.status, "proved");
    assert_eq!(key.id, "0xkey");
    assert_eq!(key.key, vec![6]);
}

#[test]
fn a_failure_is_recorded_with_its_reason() {
    let failure = on_aggregation_failed(17, "no memory".to_string());
    assert_eq!(failure.block_number, 17);
    assert_eq!(failure.status, "failed");
    assert_eq!(failure.reason, "no memory");
}

#[test]
fn the_query_names_the_kind_of_proof() {
    let block = LoadRequest { block_number: 5, is_aggregate: false };
    let aggregate = LoadRequest { block_number: 5, is_aggregate: true };
    assert_eq!(block.query(), ProofQuery::Block(5));
    assert_eq!(aggregate.query(), ProofQuery::Aggregation(5));
}

#[test]
fn an_empty_row_is_waited_for() {
    let request = LoadRequest { block_number: 5, is_aggregate: false };
    let (mut state, first): (Loading<&str>, Action) = start_loading(request);
    assert!(matches!(first, LoadAction::Query(ProofQuery::Block(5))));
    for _ in 0..3 {
        let (waiting, action): (Loading<&str>, Action) =
            load_proof(state, LoadEvent::Row(row(vec![])));
        assert!(matches!(action, LoadAction::Sleep(500)));
        let (asking, action): (Loading<&str>, Action) = load_proof(waiting, LoadEvent::Pause);
        assert!(matches!(action, LoadAction::Query(ProofQuery::Block(5))));
        state = asking;
    }
}

#[test]
fn what_was_recorded_is_read_back() {
    let (success, key) = on_aggregation_end(5, outcome());
    let request = LoadRequest { block_number: 5, is_aggregate: true };
    let (state, action): (Loading<&str>, Action) = start_loading(request);
    match action {
        LoadAction::Query(query) => {
            assert_eq!(query, ProofQuery::Aggregation(success.block_number))
        }
        other => panic!("unexpected {other:?}"),
    }
    let stored = ProofRow {
        proof: success.proof.clone(),
        public_values: success.public_values.clone(),
        vk_id: success.vk_id.clone(),
    };
    let (state, action): (Loading<&str>, Action) = load_proof(state, LoadEvent::Row(stored));
    match action {
        LoadAction::Decode { proof, public_values } => {
            assert_eq!(proof, vec![1, 2, 3]);
            assert_eq!(public_values, vec![4, 5]);
        }
        other => panic!("unexpected {other:?}"),
    }
    let decoded = ZkProof { compressed: true, inner: "proof" };
    let (state, action): (Loading<&str>, Action) =
        load_proof(state, LoadEvent::Contents(decoded, vec![8, 8]));
    match action {
        LoadAction::FetchKey(id) => assert_eq!(id, key.id),
        other => panic!("unexpected {other:?}"),
    }
    let vk = VerifyingKey { hash: [7; 8], inner: "key" };
    let (state, action): (Loading<&str>, Action) = load_proof(state, LoadEvent::Key(vk));
    assert!(matches!(state, Loading::Stopped));
    match action {
        LoadAction::Finish(proof) => {
            assert_eq!(proof.block_number, 5);
            assert!(proof.proof.compressed);
            assert_eq!(proof.proof.inner, "proof");
            assert_eq!(proof.public_values, vec![8, 8]);
            assert_eq!(proof.vk.hash, [7; 8]);
            assert_eq!(proof.vk.inner, "key");
        }
        other => panic!("unexpected {other:?}"),
    }
}

#[test]
fn a_failure_ends_the_reading() {
    let request = LoadRequest { block_number: 5, is_aggregate: true };
    let (state, _): (Loading<&str>, Action) = start_loading(request);
    let failed: Event = LoadEvent::Failed("locked".to_string());
    assert!(state.is_awaiting(&failed));
    let (state, action): (Loading<&str>, Action) = load_proof(state, failed);
    assert!(matches!(action, LoadAction::Fail(reason) if reason == "locked"));
    assert!(!state.is_awaiting(&Event::Pause));
}
