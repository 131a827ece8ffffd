use block_prover::aggregation::AggregationInput;
use block_prover::aggregator::{
    proof_aggregator, Aggregator, AggregatorAction, AggregatorEvent,
};
use block_prover::db::AggregationOutcome;
use block_prover::preparer::{
    data_preparer, received_proof, Preparer, PreparerAction, PreparerEvent,
};
use block_prover::zk::{Proof, ProofWithPublicValues, VerifyingKey, ZkProof};

type PState = Preparer<String, String>;
type PEvent = PreparerEvent<String, String, String>;
type PAction = PreparerAction<String, String, String>;
type AState = Aggregator<String, String>;
type AEvent = AggregatorEvent<String, String, String>;
type AAction = AggregatorAction<String, String, String>;

fn stored(name: &str, block_number: u64) -> Proof<String, String> {
    Proof {
        block_number,
        proof: ZkProof { compressed: true, inner: name.to_string() },
        public_values: vec![block_number as u8; 2],
        vk: VerifyingKey { hash: [block_number as u32; 8], inner: format!("key {block_number}") },
    }
}

fn input(block_number: u64) -> AggregationInput<String, String> {
    AggregationInput {
        block_number,
        first: stored("first", block_number),
        second: stored("second", block_number - 1),
    }
}

fn aggregate(name: &str) -> ProofWithPublicValues<String> {
    ProofWithPublicValues {
        proof: ZkProof { compressed: true, inner: name.to_string() },
        public_values: vec![1],
    }
}

fn own_key() -> VerifyingKey<String> {
    VerifyingKey { hash: [4; 8], inner: "own".to_string() }
}

fn outcome() -> AggregationOutcome {
    AggregationOutcome {
        proving_millis: 10,
        instruction_count: 20,
        proof: vec![1],
        public_values: vec![2],
        vk_id: "0xkey".to_string(),
        vk: vec![3],
    }
}

/// A short word for an action of the preparer.
fn preparer_word(action: &PAction) -> String {
    match action {
        PreparerAction::ReceiveNumber => "number".to_string(),
        PreparerAction::CreateTask(task) => format!("row {} {}", task.block_number, task.status),
        PreparerAction::LoadProof(request) => {
            format!("load {} {}", request.block_number, request.is_aggregate)
        }
        PreparerAction::ReceiveAggregate => "receive".to_string(),
        PreparerAction::Deliver(input) => format!(
            "deliver {}: {} {} and {} {}",
            input.block_number,
            input.first.proof.inner,
            input.first.block_number,
            input.second.proof.inner,
            input.second.block_number,
        ),
        PreparerAction::Stop => "stop".to_string(),
        PreparerAction::Fail(e) => format!("fail {e}"),
    }
}

/// What a preparer does on the numbers, where the `n`th step outside fails if
/// there is an `n`.
fn prepare(numbers: Vec<u64>, failing: Option<usize>) -> Vec<String> {
    let mut numbers = numbers.into_iter();
    let mut state: PState = Preparer::new();
    let mut event: PEvent = PreparerEvent::Number(numbers.next());
    let mut words = vec![];
    loop {
        assert!(state.is_awaiting(&event));
        let (next, action): (PState, PAction) = data_preparer(state, event);
        state = next;
        words.push(preparer_word(&action));
        event = match action {
            PreparerAction::Stop | PreparerAction::Fail(_) => {
                assert!(matches!(state, Preparer::Stopped));
                return words;
            }
            _ if failing == Some(words.len()) => PreparerEvent::Failed("gone".to_string()),
            PreparerAction::ReceiveNumber => PreparerEvent::Number(numbers.next()),
            PreparerAction::CreateTask(_) => PreparerEvent::TaskCreated,
            PreparerAction::LoadProof(request) => {
                let name = if request.is_aggregate { "aggregate" } else { "block" };
                PreparerEvent::Loaded(stored(name, request.block_number))
            }
            PreparerAction::ReceiveAggregate => {
                PreparerEvent::Received(aggregate("received"), own_key())
            }
            PreparerAction::Deliver(_) => PreparerEvent::Delivered,
        };
    }
}

#[test]
fn the_second_block_takes_the_first_two_proofs() {
    assert_eq!(
        prepare(vec![2], None),
        vec![
            "row 2 queued",
            "load 1 false",
            "load 2 false",
            "deliver 2: block 1 and block 2",
            "number",
            "stop",
        ]
    );
}

#[test]
fn after_a_restart_the_aggregate_comes_from_the_store_once() {
    assert_eq!(
        prepare(vec![9, 10, 11], None),
        vec![
            "row 9 queued",
            "load 9 false",
            "load 8 true",
            "deliver 9: block 9 and aggregate 8",
            "number",
            "row 10 queued",
            "load 10 false",
            "receive",
            "deliver 10: block 10 and received 9",
            "number",
            "row 11 queued",
            "load 11 false",
            "receive",
            "deliver 11: block 11 and received 10",
            "number",
            "stop",
        ]
    );
}

#[test]
fn the_third_block_takes_the_aggregate_back() {
    let words = prepare(vec![2, 3], None);
    assert_eq!(words[5..9], ["row 3 queued", "load 3 false", "receive", "deliver 3: block 3 and received 2"]);
}

#[test]
fn the_preparer_stops_when_there_are_no_more_blocks() {
    assert_eq!(prepare(vec![], None), vec!["stop"]);
}

#[test]
fn a_failed_step_ends_the_preparer() {
    for failing in [1, 2, 3, 4] {
        let whole = prepare(vec![9], None);
        let words = prepare(vec![9], Some(failing));
        assert_eq!(words.len(), failing + 1);
        assert_eq!(words[..failing], whole[..failing]);
        assert_eq!(words[failing], "fail gone");
    }
    let words = prepare(vec![9, 10], Some(8));
    assert_eq!(words.iter().filter(|w| w.starts_with("deliver")).count(), 1);
    assert_eq!(words.last().map(String::as_str), Some("fail gone"));
}

#[test]
fn aggregation_begins_with_the_second_block() {
    for block_number in [0, 1] {
        let (state, action): (PState, PAction) =
            data_preparer(Preparer::new(), PEvent::Number(Some(block_number)));
        assert!(matches!(action, PreparerAction::CreateTask(task) if task.block_number == block_number as i64));
        assert!(!state.is_awaiting(&PEvent::TaskCreated));
        assert!(state.is_awaiting(&PEvent::Failed("gone".to_string())));
    }
}

#[test]
fn the_preparer_takes_only_what_it_waits_for() {
    let state: PState = Preparer::new();
    assert!(state.is_awaiting(&PEvent::Number(None)));
    assert!(!state.is_awaiting(&PEvent::Failed("gone".to_string())));
    assert!(!state.is_awaiting(&PEvent::Delivered));
    let (state, _): (PState, PAction) = data_preparer(state, PEvent::Number(None));
    assert!(!state.is_awaiting(&PEvent::Number(None)));
    assert!(!state.is_awaiting(&PEvent::Failed("gone".to_string())));
}

#[test]
fn a_received_aggregate_is_a_proof_of_its_block() {
    let proof = received_proof(6, aggregate("aggregate"), own_key());
    assert_eq!(proof.block_number, 6);
    assert_eq!(proof.proof.inner, "aggregate");
    assert_eq!(proof.public_values, vec![1]);
    assert_eq!(proof.vk.hash, [4; 8]);
    assert_eq!(proof.vk.inner, "own");
}

/// A short word for an action of the aggregator.
fn aggregator_word(action: &AAction) -> String {
    match action {
        AggregatorAction::ReceiveInput => "input".to_string(),
        AggregatorAction::Announce(n) => format!("announce {n}"),
        AggregatorAction::Prove(proofs) => {
            let names: Vec<String> =
                proofs.iter().map(|p| format!("{} {}", p.proof.inner, p.block_number)).collect();
            format!("prove {}", names.join(", "))
        }
        AggregatorAction::RecordSuccess(s) => {
            format!("success {} {} {}", s.block_number, s.status, s.vk_id)
        }
        AggregatorAction::RecordKey(key) => format!("key {} {:?}", key.id, key.key),
        AggregatorAction::HandOver(a) => format!("hand over {} {:?}", a.proof.inner, a.public_values),
        AggregatorAction::RecordFailure(f) => {
            format!("failure {} {} {}", f.block_number, f.status, f.reason)
        }
        AggregatorAction::Stop => "stop".to_string(),
        AggregatorAction::Fail(e) => format!("fail {e}"),
    }
}

/// What an aggregator does on the inputs of these blocks, where the block
/// `unproved` cannot be proved and the `n`th step outside fails if there is an `n`.
fn aggregate_blocks(blocks: Vec<u64>, unproved: u64, failing: Option<usize>) -> Vec<String> {
    let mut blocks = blocks.into_iter();
    let mut current = blocks.next();
    let mut state: AState = Aggregator::Input;
    let mut event: AEvent = AggregatorEvent::Input(current.map(input));
    let mut words = vec![];
    loop {
        assert!(state.is_awaiting(&event));
        let (next, action): (AState, AAction) = proof_aggregator(state, event);
        state = next;
        words.push(aggregator_word(&action));
        event = match action {
            AggregatorAction::Stop | AggregatorAction::Fail(_) => {
                assert!(matches!(state, Aggregator::Stopped));
                return words;
            }
            _ if failing == Some(words.len()) => AggregatorEvent::Failed("gone".to_string()),
            AggregatorAction::ReceiveInput => {
                current = blocks.next();
                AggregatorEvent::Input(current.map(input))
            }
            AggregatorAction::Announce(_) => AggregatorEvent::Announced,
            AggregatorAction::Prove(_) if current == Some(unproved) => {
                AggregatorEvent::NotProved("crash".to_string())
            }
            AggregatorAction::Prove(_) => AggregatorEvent::Proved(outcome(), aggregate("made")),
            AggregatorAction::RecordSuccess(_) => AggregatorEvent::SuccessRecorded,
            AggregatorAction::RecordKey(_) => AggregatorEvent::KeyRecorded,
            AggregatorAction::HandOver(_) => AggregatorEvent::HandedOver,
            AggregatorAction::RecordFailure(_) => AggregatorEvent::FailureRecorded,
        };
    }
}

#[test]
fn an_aggregate_is_announced_proved_stored_and_handed_over() {
    assert_eq!(
        aggregate_blocks(vec![5], 0, None),
        vec![
            "announce 6",
            "prove first 5, second 4",
            "success 5 proved 0xkey",
            "key 0xkey [3]",
            "hand over made [1]",
            "input",
            "stop",
        ]
    );
}

#[test]
fn a_failed_aggregate_is_only_recorded() {
    assert_eq!(
        aggregate_blocks(vec![5, 6], 5, None),
        vec![
            "announce 6",
            "prove first 5, second 4",
            "failure 5 failed crash",
            "input",
            "announce 7",
            "prove first 6, second 5",
            "success 6 proved 0xkey",
            "key 0xkey [3]",
            "hand over made [1]",
            "input",
            "stop",
        ]
    );
}

#[test]
fn the_aggregator_stops_when_there_is_no_more_input() {
    assert_eq!(aggregate_blocks(vec![], 0, None), vec!["stop"]);
}

#[test]
fn a_failed_step_ends_the_aggregator() {
    let whole = aggregate_blocks(vec![5], 0, None);
    for failing in [1, 3, 4, 5] {
        let words = aggregate_blocks(vec![5], 0, Some(failing));
        assert_eq!(words.len(), failing + 1);
        assert_eq!(words[..failing], whole[..failing]);
        assert_eq!(words[failing], "fail gone");
    }
    assert_eq!(
        aggregate_blocks(vec![5], 5, Some(3)),
        vec!["announce 6", "prove first 5, second 4", "failure 5 failed crash", "fail gone"]
    );
}

#[test]
fn the_aggregator_takes_only_what_it_waits_for() {
    let state: AState = Aggregator::Input;
    assert!(state.is_awaiting(&AEvent::Input(Some(input(5)))));
    assert!(!state.is_awaiting(&AEvent::Input(Some(input(u64::MAX)))));
    assert!(!state.is_awaiting(&AEvent::Failed("gone".to_string())));
    let state: AState = Aggregator::Outcome { block_number: 5 };
    assert!(state.is_awaiting(&AEvent::NotProved("crash".to_string())));
    assert!(!state.is_awaiting(&AEvent::Failed("gone".to_string())));
    assert!(!state.is_awaiting(&AEvent::Input(None)));
    let state: AState = Aggregator::Stopped;
    assert!(!state.is_awaiting(&AEvent::Input(None)));
}

#[test]
fn the_workers_go_through_the_blocks_in_order() {
    let mut preparer: PState = Preparer::new();
    let mut aggregator: AState = Aggregator::Input;
    let mut handed: Option<ProofWithPublicValues<String>> = None;
    let mut block_number = 4;
    for expected in 4..8 {
        assert_eq!(block_number, expected);
        let (state, _): (PState, PAction) =
            data_preparer(preparer, PEvent::Number(Some(block_number)));
        let (state, _): (PState, PAction) = data_preparer(state, PEvent::TaskCreated);
        let (state, action): (PState, PAction) =
            data_preparer(state, PEvent::Loaded(stored("block", block_number)));
        let event = match action {
            PreparerAction::LoadProof(request) => {
                assert_eq!(expected, 4);
                assert_eq!(request.block_number, 3);
                PEvent::Loaded(stored("aggregate", 3))
            }
            PreparerAction::ReceiveAggregate => {
                PEvent::Received(handed.take().expect("an aggregate"), own_key())
            }
            other => panic!("unexpected {other:?}"),
        };
        let (state, action): (PState, PAction) = data_preparer(state, event);
        let delivery = match action {
            PreparerAction::Deliver(delivery) => delivery,
            other => panic!("unexpected {other:?}"),
        };
        assert_eq!(delivery.second.block_number, expected - 1);
        if expected > 4 {
            assert_eq!(delivery.second.proof.inner, format!("up to {}", expected - 1));
        }
        preparer = data_preparer(state, PEvent::Delivered).0;

        let (state, action): (AState, AAction) =
            proof_aggregator(aggregator, AEvent::Input(Some(delivery)));
        match action {
            AggregatorAction::Announce(next) => block_number = next,
            other => panic!("unexpected {other:?}"),
        }
        let (state, _): (AState, AAction) = proof_aggregator(state, AEvent::Announced);
        let made = aggregate(&format!("up to {expected}"));
        let (state, _): (AState, AAction) =
            proof_aggregator(state, AEvent::Proved(outcome(), made));
        let (state, _): (AState, AAction) = proof_aggregator(state, AEvent::SuccessRecorded);
        let (state, action): (AState, AAction) = proof_aggregator(state, AEvent::KeyRecorded);
        match action {
            AggregatorAction::HandOver(made) => handed = Some(made),
            other => panic!("unexpected {other:?}"),
        }
        aggregator = proof_aggregator(state, AEvent::HandedOver).0;
    }
}

#[test]
fn every_block_gets_one_record_and_only_proved_ones_are_handed_over() {
    let words = aggregate_blocks(vec![5, 6, 7], 6, None);
    let records: Vec<&str> = words
        .iter()
        .map(String::as_str)
        .filter(|w| w.starts_with("success") || w.starts_with("failure"))
        .collect();
    assert_eq!(
        records,
        vec!["success 5 proved 0xkey", "failure 6 failed crash", "success 7 proved 0xkey"]
    );
    assert_eq!(words.iter().filter(|w| w.starts_with("hand over")).count(), 2);
}
