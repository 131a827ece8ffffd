use std::sync::Arc;

use block_prover::ancestors::StatelessValidationError;
use block_prover::execution::{Execution, HostAction, HostEvent};
use block_prover::hash::B256;
use block_prover::host_executor::{ExecutionRequest, FetchedBlock, HostError, HostExecutor};

type State = Execution<&'static str, &'static str, u8, u16>;
type Event = HostEvent<&'static str, &'static str, u8, String>;
type Action = HostAction<&'static str, &'static str, Requests, u8, u16, String>;

/// State requests whose default differs from what a type of numbers would give.
#[derive(Debug, PartialEq)]
struct Requests(Vec<u8>);

impl Default for Requests {
    fn default() -> Self {
        Requests(vec![7])
    }
}

fn executor() -> HostExecutor<u32, u64> {
    HostExecutor::new(1, Arc::new(2))
}

fn request(block_number: u64) -> ExecutionRequest<u16> {
    ExecutionRequest {
        block_number,
        genesis: 77,
        custom_beneficiary: Some([3; 20]),
        opcode_tracking: true,
    }
}

fn parents() -> Vec<alloy_consensus::Header> {
    let older = alloy_consensus::Header { number: 8, ..Default::default() };
    let newer = alloy_consensus::Header {
        number: 9,
        parent_hash: older.hash_slow(),
        state_root: alloy_primitives::B256::repeat_byte(0x99),
        ..Default::default()
    };
    vec![older, newer]
}

fn block() -> FetchedBlock<&'static str> {
    FetchedBlock {
        number: 10,
        parent_hash: B256(parents()[1].hash_slow().0),
        state_root: B256([0xaa; 32]),
        block: "block",
    }
}

fn good_answers() -> Vec<Event> {
    let headers = vec![alloy_rlp::encode(&parents()[1]), alloy_rlp::encode(&parents()[0])];
    vec![
        HostEvent::CurrentBlock(Some(block())),
        HostEvent::PreviousBlock(Some(B256([0x99; 32]))),
        HostEvent::Witness(headers),
        HostEvent::ParentState("trie", vec![1, 2]),
        HostEvent::Senders(true),
        HostEvent::PreState,
        HostEvent::Output,
        HostEvent::Validation,
        HostEvent::StateRoot(B256([0xaa; 32])),
    ]
}

/// Runs the execution of block 10 on the answers and returns what it asks for.
fn run(answers: Vec<Event>) -> Vec<Action> {
    let (mut state, first): (State, Action) = executor().start(request(10));
    let mut actions = vec![first];
    for answer in answers {
        assert!(state.is_awaiting(&answer));
        let (next, action) = executor().execute(state, answer);
        state = next;
        actions.push(action);
    }
    actions
}

fn failure(actions: Vec<Action>) -> HostError<String> {
    match actions.into_iter().last() {
        Some(HostAction::Fail(error)) => error,
        other => panic!("expected a failure, got {other:?}"),
    }
}

#[test]
fn the_parts_of_an_executor_are_kept() {
    assert_eq!(executor().evm_config, 1);
    assert_eq!(*executor().chain_spec, 2);
}

#[test]
fn good_answers_lead_to_the_client_input() {
    let mut actions = run(good_answers()).into_iter();
    assert!(matches!(actions.next(), Some(HostAction::FetchBlock(10))));
    assert!(matches!(actions.next(), Some(HostAction::FetchBlock(9))));
    assert!(matches!(actions.next(), Some(HostAction::FetchWitness(10))));
    assert!(
        matches!(actions.next(), Some(HostAction::BuildParentState(root)) if root == B256([0x99; 32]))
    );
    assert!(matches!(actions.next(), Some(HostAction::RecoverSenders)));
    assert!(
        matches!(actions.next(), Some(HostAction::BuildPreState(root)) if root == B256([0x99; 32]))
    );
    match actions.next() {
        Some(HostAction::ExecuteBlock(hashes)) => {
            assert_eq!(hashes.len(), 2);
            assert_eq!(hashes.get(&9), Some(&block().parent_hash));
            assert_eq!(hashes.get(&8), Some(&B256(parents()[0].hash_slow().0)));
        }
        other => panic!("unexpected {other:?}"),
    }
    assert!(matches!(actions.next(), Some(HostAction::ValidateBlock)));
    assert!(matches!(actions.next(), Some(HostAction::CalculateStateRoot)));
    match actions.next() {
        Some(HostAction::Finish(input)) => {
            assert_eq!(input.current_block, "block");
            assert_eq!(input.parent_state, "trie");
            assert_eq!(input.state_requests, Requests(vec![7]));
            assert_eq!(input.bytecodes, vec![1, 2]);
            assert_eq!(input.genesis, 77);
            assert_eq!(input.custom_beneficiary, Some([3; 20]));
            assert!(input.opcode_tracking);
            let numbers: Vec<u64> = input.ancestor_headers.iter().map(|h| h.number).collect();
            assert_eq!(numbers, vec![8, 9]);
            let encodings: Vec<Vec<u8>> =
                input.ancestor_headers.into_iter().map(|h| h.rlp).collect();
            assert_eq!(
                encodings,
                vec![alloy_rlp::encode(&parents()[0]), alloy_rlp::encode(&parents()[1])]
            );
        }
        other => panic!("unexpected {other:?}"),
    }
    assert!(actions.next().is_none());
}

#[test]
fn an_unknown_block_is_expected() {
    assert_eq!(failure(run(vec![HostEvent::CurrentBlock(None)])), HostError::ExpectedBlock(10));
}

#[test]
fn an_unknown_previous_block_is_reported_under_the_requested_number() {
    let mut answers = good_answers();
    answers.truncate(1);
    answers.push(HostEvent::PreviousBlock(None));
    assert_eq!(failure(run(answers)), HostError::ExpectedBlock(10));
}

#[test]
fn senders_must_be_recovered() {
    let mut answers = good_answers();
    answers.truncate(4);
    answers.push(HostEvent::Senders(false));
    assert_eq!(failure(run(answers)), HostError::FailedToRecoverSenders);
}

#[test]
fn a_malformed_ancestor_ends_the_execution() {
    let mut answers = good_answers();
    answers.truncate(5);
    answers[2] = HostEvent::Witness(vec![vec![0xff]]);
    assert_eq!(failure(run(answers)), HostError::HeaderDeserializationFailed);
}

#[test]
fn ancestors_that_do_not_link_end_the_execution() {
    let mut answers = good_answers();
    answers.truncate(5);
    answers[2] = HostEvent::Witness(vec![alloy_rlp::encode(&parents()[0])]);
    assert_eq!(
        failure(run(answers)),
        HostError::StatelessValidation(StatelessValidationError::InvalidAncestorChain)
    );
}

#[test]
fn a_witness_without_headers_ends_the_execution() {
    let mut answers = good_answers();
    answers.truncate(5);
    answers[2] = HostEvent::Witness(vec![]);
    assert_eq!(failure(run(answers)), HostError::MissingAncestorHeader);
}

#[test]
fn the_first_block_of_a_chain_is_never_finished() {
    let mut answers = good_answers();
    answers.truncate(5);
    answers[0] = HostEvent::CurrentBlock(Some(FetchedBlock { number: 0, ..block() }));
    assert_eq!(
        failure(run(answers)),
        HostError::StatelessValidation(StatelessValidationError::InvalidAncestorChain)
    );
}

#[test]
fn another_state_root_is_a_mismatch() {
    let mut answers = good_answers();
    answers[8] = HostEvent::StateRoot(B256([0xab; 32]));
    assert_eq!(
        failure(run(answers)),
        HostError::StateRootMismatch(B256([0xab; 32]), B256([0xaa; 32]))
    );
}

#[test]
fn a_service_may_fail_at_any_step() {
    for n in 0..9 {
        let mut answers = good_answers();
        answers.truncate(n);
        answers.push(HostEvent::Failed("gone".to_string()));
        assert_eq!(failure(run(answers)), HostError::Service("gone".to_string()));
    }
}

#[test]
fn only_the_awaited_answer_is_taken() {
    let (state, _): (State, Action) = executor().start(request(10));
    assert!(!state.is_awaiting(&HostEvent::<_, _, _, String>::Output));
    let stopped: State = Execution::Stopped;
    assert!(!stopped.is_awaiting(&HostEvent::Failed("gone".to_string())));
    let (state, _): (State, Action) = executor().start(request(0));
    assert!(!state.is_awaiting::<String>(&HostEvent::CurrentBlock(Some(block()))));
    assert!(state.is_awaiting::<String>(&HostEvent::CurrentBlock(None)));
}

#[test]
fn the_order_of_the_witness_headers_does_not_matter() {
    let mut ascending = good_answers();
    ascending[2] = HostEvent::Witness(vec![
        alloy_rlp::encode(&parents()[0]),
        alloy_rlp::encode(&parents()[1]),
    ]);
    let inputs: Vec<_> = [good_answers(), ascending]
        .into_iter()
        .map(|answers| match run(answers).into_iter().last() {
            Some(HostAction::Finish(input)) => input,
            other => panic!("unexpected {other:?}"),
        })
        .collect();
    assert_eq!(inputs[0].current_block, inputs[1].current_block);
    assert_eq!(inputs[0].parent_state, inputs[1].parent_state);
    for (a, b) in inputs[0].ancestor_headers.iter().zip(inputs[1].ancestor_headers.iter()) {
        assert_eq!(a.number, b.number);
        assert_eq!(a.rlp, b.rlp);
    }
    assert_eq!(inputs[0].ancestor_headers.len(), 2);
    assert_eq!(inputs[1].ancestor_headers.len(), 2);
}
