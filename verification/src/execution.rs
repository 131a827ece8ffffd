//! One execution of a block on the host, step by step.
//!
//! The host asks a service for something, and what it does next depends on the
//! answer. [`Execution`] is where it stands, [`HostEvent`] an answer and
//! [`HostAction`] what is asked next.

use std::collections::BTreeMap;

use vstd::prelude::*;

use crate::ancestors::{
    header_hashes, is_ancestor_chain, is_hash_table, law_chain_numbers_are_consecutive,
    law_hash_table_covers_the_chain, linked_at, sorted_by_number,
};
use crate::hash::{keccak256_digest, B256};
use crate::header::{decoded_header, header_views, Header, HeaderView};
use crate::host_executor::{
    all_decode, all_well_formed, ancestors_outcome, byte_views, decoded_headers,
    law_accepted_ancestors_lead_back_from_the_block, law_ancestors_are_refused_for_a_reason,
    law_ancestors_that_lead_back_are_accepted, law_entries_stand_for_their_bytes,
    law_the_order_of_the_headers_does_not_matter, lemma_sorted_len, Ancestors,
    ClientExecutorInput, ExecutionRequest, FetchedBlock, HostError, HostExecutor,
};

verus! {

/// A block whose ancestors were checked, with all that goes into the client's input.
#[derive(Debug)]
pub struct Candidate<B, S, C, G> {
    pub request: ExecutionRequest<G>,
    pub block: FetchedBlock<B>,
    pub ancestor_headers: Vec<Header>,
    pub parent_state: S,
    pub bytecodes: Vec<C>,
}

/// Where an execution stands, named after the answer that it waits for.
///
/// `B` is a block, `S` a state trie, `C` a piece of bytecode and `G` a genesis
/// description.
#[derive(Debug)]
pub enum Execution<B, S, C, G> {
    CurrentBlock { request: ExecutionRequest<G> },
    PreviousBlock { request: ExecutionRequest<G>, block: FetchedBlock<B> },
    Witness { request: ExecutionRequest<G>, block: FetchedBlock<B>, previous_state_root: B256 },
    ParentState { request: ExecutionRequest<G>, block: FetchedBlock<B>, headers: Vec<Vec<u8>> },
    Senders {
        request: ExecutionRequest<G>,
        block: FetchedBlock<B>,
        headers: Vec<Vec<u8>>,
        parent_state: S,
        bytecodes: Vec<C>,
    },
    PreState { candidate: Candidate<B, S, C, G>, ancestor_hashes: BTreeMap<u64, B256> },
    Output { candidate: Candidate<B, S, C, G> },
    Validation { candidate: Candidate<B, S, C, G> },
    StateRoot { candidate: Candidate<B, S, C, G> },
    Stopped,
}

/// An answer of one of the services.
#[derive(Debug)]
pub enum HostEvent<B, S, C, E> {
    /// The block with the requested number, where the node knows it.
    CurrentBlock(Option<FetchedBlock<B>>),
    /// The state root of the block before it, where the node knows that block.
    PreviousBlock(Option<B256>),
    /// The serialized ancestor headers of the block's witness.
    Witness(Vec<Vec<u8>>),
    /// The state trie and the bytecodes of the witness.
    ParentState(S, Vec<C>),
    /// Whether the sender of every transaction was recovered.
    Senders(bool),
    /// The state that the block starts from was built.
    PreState,
    /// The block was executed.
    Output,
    /// The outcome agrees with what the block says of it.
    Validation,
    /// The root of the state after the block.
    StateRoot(B256),
    /// The service failed.
    Failed(E),
}

/// What is to be done next.
#[derive(Debug)]
pub enum HostAction<B, S, R, C, G, E> {
    /// Ask the node for the block with this number.
    FetchBlock(u64),
    /// Ask the node for the execution witness of the block with this number.
    FetchWitness(u64),
    /// Build the state trie with this root from the witness.
    BuildParentState(B256),
    /// Recover the senders of the block's transactions.
    RecoverSenders,
    /// Build the state trie with this root from the witness, to execute the block on.
    BuildPreState(B256),
    /// Execute the block on that state, with these hashes of its ancestors.
    ExecuteBlock(BTreeMap<u64, B256>),
    /// Hold what came out against what the block says of it.
    ValidateBlock,
    /// Apply what came out to the state and calculate the root.
    CalculateStateRoot,
    /// All is done: this is the client's input.
    Finish(ClientExecutorInput<B, S, R, C, G>),
    /// The execution ends with this error.
    Fail(HostError<E>),
}

impl<B, S, C, G> Execution<B, S, C, G> {
    /// Whether `event` answers what the execution waits for. A block without a
    /// predecessor, found where one was asked for, is not among the answers.
    pub open spec fn awaits<E>(self, event: HostEvent<B, S, C, E>) -> bool {
        match (self, event) {
            (Execution::Stopped, _) => false,
            (_, HostEvent::Failed(_)) => true,
            (Execution::CurrentBlock { request }, HostEvent::CurrentBlock(block)) => block is Some
                ==> request.block_number > 0,
            (Execution::PreviousBlock { .. }, HostEvent::PreviousBlock(_)) => true,
            (Execution::Witness { .. }, HostEvent::Witness(_)) => true,
            (Execution::ParentState { .. }, HostEvent::ParentState(_, _)) => true,
            (Execution::Senders { .. }, HostEvent::Senders(_)) => true,
            (Execution::PreState { .. }, HostEvent::PreState) => true,
            (Execution::Output { .. }, HostEvent::Output) => true,
            (Execution::Validation { .. }, HostEvent::Validation) => true,
            (Execution::StateRoot { .. }, HostEvent::StateRoot(_)) => true,
            _ => false,
        }
    }

    /// Whether the event answers what the execution waits for.
    pub fn is_awaiting<E>(&self, event: &HostEvent<B, S, C, E>) -> (r: bool)
        ensures
            r == self.awaits(*event),
    {
        match (self, event) {
            (Execution::Stopped, _) => false,
            (_, HostEvent::Failed(_)) => true,
            (Execution::CurrentBlock { request }, HostEvent::CurrentBlock(block)) => match block {
                Some(_) => request.block_number > 0,
                None => true,
            },
            (Execution::PreviousBlock { .. }, HostEvent::PreviousBlock(_)) => true,
            (Execution::Witness { .. }, HostEvent::Witness(_)) => true,
            (Execution::ParentState { .. }, HostEvent::ParentState(_, _)) => true,
            (Execution::Senders { .. }, HostEvent::Senders(_)) => true,
            (Execution::PreState { .. }, HostEvent::PreState) => true,
            (Execution::Output { .. }, HostEvent::Output) => true,
            (Execution::Validation { .. }, HostEvent::Validation) => true,
            (Execution::StateRoot { .. }, HostEvent::StateRoot(_)) => true,
            _ => false,
        }
    }
}

/// Whether the execution stops with the error `error`.
pub open spec fn fails<B, S, R, C, G, E>(
    after: Execution<B, S, C, G>,
    action: HostAction<B, S, R, C, G, E>,
    error: HostError<E>,
) -> bool {
    &&& after == Execution::<B, S, C, G>::Stopped
    &&& action == HostAction::<B, S, R, C, G, E>::Fail(error)
}

/// Whether `input` is what the client gets for a candidate. The state requests
/// are what `Default` gives for their type.
pub open spec fn is_input_of<B, S, R: Default, C, G>(
    input: ClientExecutorInput<B, S, R, C, G>,
    candidate: Candidate<B, S, C, G>,
) -> bool {
    &&& input.current_block == candidate.block.block
    &&& input.ancestor_headers == candidate.ancestor_headers
    &&& input.parent_state == candidate.parent_state
    &&& call_ensures(R::default, (), input.state_requests)
    &&& input.bytecodes == candidate.bytecodes
    &&& input.genesis == candidate.request.genesis
    &&& input.custom_beneficiary == candidate.request.custom_beneficiary
    &&& input.opcode_tracking == candidate.request.opcode_tracking
}

/// What follows when the senders were recovered: the ancestors are checked, and
/// either the block becomes a candidate or the execution ends.
pub open spec fn candidate_follows<B, S, R, C, G, E>(
    request: ExecutionRequest<G>,
    block: FetchedBlock<B>,
    headers: Seq<Seq<u8>>,
    parent_state: S,
    bytecodes: Vec<C>,
    after: Execution<B, S, C, G>,
    action: HostAction<B, S, R, C, G, E>,
) -> bool {
    exists|outcome: Result<Ancestors, HostError<E>>| #[trigger]
        ancestors_outcome(block, headers, outcome) && match outcome {
            Err(error) => fails(after, action, error),
            Ok(ancestors) => {
                &&& after == Execution::PreState {
                    candidate: Candidate {
                        request,
                        block,
                        ancestor_headers: ancestors.headers,
                        parent_state,
                        bytecodes,
                    },
                    ancestor_hashes: ancestors.hashes,
                }
                &&& action == HostAction::<B, S, R, C, G, E>::BuildPreState(ancestors.pre_state_root)
            },
        }
}

/// What an execution does with an answer that it waits for.
pub open spec fn follows<B, S, R: Default, C, G, E>(
    before: Execution<B, S, C, G>,
    event: HostEvent<B, S, C, E>,
    after: Execution<B, S, C, G>,
    action: HostAction<B, S, R, C, G, E>,
) -> bool {
    match (before, event) {
        (_, HostEvent::Failed(error)) => fails(after, action, HostError::Service(error)),
        (Execution::CurrentBlock { request }, HostEvent::CurrentBlock(Some(block))) => {
            &&& after == Execution::<B, S, C, G>::PreviousBlock { request, block }
            &&& action == HostAction::<B, S, R, C, G, E>::FetchBlock(
                (request.block_number - 1) as u64,
            )
        },
        (Execution::CurrentBlock { request }, HostEvent::CurrentBlock(None)) => fails(
            after,
            action,
            HostError::ExpectedBlock(request.block_number),
        ),
        (
            Execution::PreviousBlock { request, block },
            HostEvent::PreviousBlock(Some(previous_state_root)),
        ) => {
            &&& after == Execution::<B, S, C, G>::Witness { request, block, previous_state_root }
            &&& action == HostAction::<B, S, R, C, G, E>::FetchWitness(request.block_number)
        },
        (Execution::PreviousBlock { request, .. }, HostEvent::PreviousBlock(None)) => fails(
            after,
            action,
            HostError::ExpectedBlock(request.block_number),
        ),
        (
            Execution::Witness { request, block, previous_state_root },
            HostEvent::Witness(headers),
        ) => {
            &&& after == Execution::<B, S, C, G>::ParentState { request, block, headers }
            &&& action == HostAction::<B, S, R, C, G, E>::BuildParentState(previous_state_root)
        },
        (
            Execution::ParentState { request, block, headers },
            HostEvent::ParentState(parent_state, bytecodes),
        ) => {
            &&& after == Execution::Senders { request, block, headers, parent_state, bytecodes }
            &&& action == HostAction::<B, S, R, C, G, E>::RecoverSenders
        },
        (
            Execution::Senders { request, block, headers, parent_state, bytecodes },
            HostEvent::Senders(true),
        ) => candidate_follows(
            request,
            block,
            byte_views(headers@),
            parent_state,
            bytecodes,
            after,
            action,
        ),
        (Execution::Senders { .. }, HostEvent::Senders(false)) => fails(
            after,
            action,
            HostError::FailedToRecoverSenders,
        ),
        (Execution::PreState { candidate, ancestor_hashes }, HostEvent::PreState) => {
            &&& after == Execution::Output { candidate }
            &&& action == HostAction::<B, S, R, C, G, E>::ExecuteBlock(ancestor_hashes)
        },
        (Execution::Output { candidate }, HostEvent::Output) => {
            &&& after == Execution::Validation { candidate }
            &&& action == HostAction::<B, S, R, C, G, E>::ValidateBlock
        },
        (Execution::Validation { candidate }, HostEvent::Validation) => {
            &&& after == Execution::StateRoot { candidate }
            &&& action == HostAction::<B, S, R, C, G, E>::CalculateStateRoot
        },
        (Execution::StateRoot { candidate }, HostEvent::StateRoot(root)) => if root@
            == candidate.block.state_root@ {
            &&& after == Execution::<B, S, C, G>::Stopped
            &&& action matches HostAction::Finish(input)
            &&& is_input_of(input, candidate)
        } else {
            fails(after, action, HostError::StateRootMismatch(root, candidate.block.state_root))
        },
        _ => false,
    }
}

impl<Cfg, CS> HostExecutor<Cfg, CS> {
    /// Begins the execution of a block: the block itself is asked for first.
    pub fn start<B, S, R, C, G, E>(&self, request: ExecutionRequest<G>) -> (r: (
        Execution<B, S, C, G>,
        HostAction<B, S, R, C, G, E>,
    ))
        ensures
            r.0 == (Execution::<B, S, C, G>::CurrentBlock { request }),
            r.1 == HostAction::<B, S, R, C, G, E>::FetchBlock(request.block_number),
    {
        let block_number: u64 = request.block_number;
        (Execution::CurrentBlock { request }, HostAction::FetchBlock(block_number))
    }

    /// Takes the execution of a block one step further.
    pub fn execute<B, S, R: Default, C, G, E>(
        &self,
        state: Execution<B, S, C, G>,
        event: HostEvent<B, S, C, E>,
    ) -> (r: (Execution<B, S, C, G>, HostAction<B, S, R, C, G, E>))
        requires
            state.awaits(event),
        ensures
            follows(state, event, r.0, r.1),
    {
        match (state, event) {
            (_, HostEvent::Failed(error)) => (
                Execution::Stopped,
                HostAction::Fail(HostError::Service(error)),
            ),
            (Execution::CurrentBlock { request }, HostEvent::CurrentBlock(Some(block))) => {
                let previous: u64 = request.block_number - 1;
                (Execution::PreviousBlock { request, block }, HostAction::FetchBlock(previous))
            },
            (Execution::CurrentBlock { request }, HostEvent::CurrentBlock(None)) => (
                Execution::Stopped,
                HostAction::Fail(HostError::ExpectedBlock(request.block_number)),
            ),
            (
                Execution::PreviousBlock { request, block },
                HostEvent::PreviousBlock(Some(previous_state_root)),
            ) => {
                let block_number: u64 = request.block_number;
                (
                    Execution::Witness { request, block, previous_state_root },
                    HostAction::FetchWitness(block_number),
                )
            },
            (Execution::PreviousBlock { request, .. }, HostEvent::PreviousBlock(None)) => (
                Execution::Stopped,
                HostAction::Fail(HostError::ExpectedBlock(request.block_number)),
            ),
            (
                Execution::Witness { request, block, previous_state_root },
                HostEvent::Witness(headers),
            ) => (
                Execution::ParentState { request, block, headers },
                HostAction::BuildParentState(previous_state_root),
            ),
            (
                Execution::ParentState { request, block, headers },
                HostEvent::ParentState(parent_state, bytecodes),
            ) => (
                Execution::Senders { request, block, headers, parent_state, bytecodes },
                HostAction::RecoverSenders,
            ),
            (
                Execution::Senders { request, block, headers, parent_state, bytecodes },
                HostEvent::Senders(true),
            ) => {
                let outcome: Result<Ancestors, HostError<E>> = self.prepare_ancestors(
                    &block,
                    &headers,
                );
                assert(ancestors_outcome(block, byte_views(headers@), outcome));
                match outcome {
                    Err(error) => (Execution::Stopped, HostAction::Fail(error)),
                    Ok(ancestors) => {
                        let candidate = Candidate {
                            request,
                            block,
                            ancestor_headers: ancestors.headers,
                            parent_state,
                            bytecodes,
                        };
                        (
                            Execution::PreState { candidate, ancestor_hashes: ancestors.hashes },
                            HostAction::BuildPreState(ancestors.pre_state_root),
                        )
                    },
                }
            },
            (Execution::Senders { .. }, HostEvent::Senders(false)) => (
                Execution::Stopped,
                HostAction::Fail(HostError::FailedToRecoverSenders),
            ),
            (Execution::PreState { candidate, ancestor_hashes }, HostEvent::PreState) => (
                Execution::Output { candidate },
                HostAction::ExecuteBlock(ancestor_hashes),
            ),
            (Execution::Output { candidate }, HostEvent::Output) => (
                Execution::Validation { candidate },
                HostAction::ValidateBlock,
            ),
            (Execution::Validation { candidate }, HostEvent::Validation) => (
                Execution::StateRoot { candidate },
                HostAction::CalculateStateRoot,
            ),
            (Execution::StateRoot { candidate }, HostEvent::StateRoot(root)) => {
                if root != candidate.block.state_root {
                    let error = HostError::StateRootMismatch(root, candidate.block.state_root);
                    (Execution::Stopped, HostAction::Fail(error))
                } else {
                    let input = ClientExecutorInput {
                        current_block: candidate.block.block,
                        ancestor_headers: candidate.ancestor_headers,
                        parent_state: candidate.parent_state,
                        state_requests: R::default(),
                        bytecodes: candidate.bytecodes,
                        genesis: candidate.request.genesis,
                        custom_beneficiary: candidate.request.custom_beneficiary,
                        opcode_tracking: candidate.request.opcode_tracking,
                    };
                    (Execution::Stopped, HostAction::Finish(input))
                }
            },
            _ => vstd::pervasive::unreached(),
        }
    }
}

/// Whether an execution of `request` may go through `states` on the answers
/// `events`, where `actions[i]` is what it asks for after the answer `events[i]`.
pub open spec fn is_run<B, S, R: Default, C, G, E>(
    request: ExecutionRequest<G>,
    states: Seq<Execution<B, S, C, G>>,
    events: Seq<HostEvent<B, S, C, E>>,
    actions: Seq<HostAction<B, S, R, C, G, E>>,
) -> bool {
    &&& states.len() == events.len() + 1
    &&& actions.len() == events.len()
    &&& states[0] == Execution::<B, S, C, G>::CurrentBlock { request }
    &&& forall|i: int|
        0 <= i < events.len() ==> {
            &&& states[i].awaits(#[trigger] events[i])
            &&& follows(states[i], events[i], states[i + 1], actions[i])
        }
}

/// Whether the candidate is the block that was fetched, with the state that was
/// built for it, and its headers are those of its witness, in ascending order,
/// and an unbroken chain that leads back from it.
pub open spec fn candidate_is_checked<B, S, C, G, E>(
    request: ExecutionRequest<G>,
    events: Seq<HostEvent<B, S, C, E>>,
    candidate: Candidate<B, S, C, G>,
) -> bool {
    &&& candidate.request == request
    &&& events.len() >= 4
    &&& events[0] == HostEvent::<B, S, C, E>::CurrentBlock(Some(candidate.block))
    &&& events[1] matches HostEvent::PreviousBlock(Some(_))
    &&& events[2] matches HostEvent::Witness(serialized)
    &&& all_decode(byte_views(serialized@))
    &&& header_views(candidate.ancestor_headers@) == sorted_by_number(
        decoded_headers(byte_views(serialized@)),
    )
    &&& events[3] == HostEvent::<B, S, C, E>::ParentState(
        candidate.parent_state,
        candidate.bytecodes,
    )
    &&& candidate.ancestor_headers@.len() > 0
    &&& all_well_formed(header_views(candidate.ancestor_headers@))
    &&& is_ancestor_chain(
        header_views(candidate.ancestor_headers@),
        candidate.block.parent_hash@,
        candidate.block.number,
    )
}

/// What holds of an execution of `request` after it was given `events`.
spec fn reached<B, S, C, G, E>(
    request: ExecutionRequest<G>,
    events: Seq<HostEvent<B, S, C, E>>,
    state: Execution<B, S, C, G>,
) -> bool {
    match state {
        Execution::CurrentBlock { request: r } => events.len() == 0 && r == request,
        Execution::PreviousBlock { request: r, block } => {
            &&& events.len() == 1
            &&& r == request
            &&& events[0] == HostEvent::<B, S, C, E>::CurrentBlock(Some(block))
        },
        Execution::Witness { request: r, block, previous_state_root } => {
            &&& events.len() == 2
            &&& r == request
            &&& events[0] == HostEvent::<B, S, C, E>::CurrentBlock(Some(block))
            &&& events[1] == HostEvent::<B, S, C, E>::PreviousBlock(Some(previous_state_root))
        },
        Execution::ParentState { request: r, block, headers } => {
            &&& events.len() == 3
            &&& r == request
            &&& events[0] == HostEvent::<B, S, C, E>::CurrentBlock(Some(block))
            &&& events[1] matches HostEvent::PreviousBlock(Some(_))
            &&& events[2] == HostEvent::<B, S, C, E>::Witness(headers)
        },
        Execution::Senders { request: r, block, headers, parent_state, bytecodes } => {
            &&& events.len() == 4
            &&& r == request
            &&& events[0] == HostEvent::<B, S, C, E>::CurrentBlock(Some(block))
            &&& events[1] matches HostEvent::PreviousBlock(Some(_))
            &&& events[2] == HostEvent::<B, S, C, E>::Witness(headers)
            &&& events[3] == HostEvent::<B, S, C, E>::ParentState(parent_state, bytecodes)
        },
        Execution::PreState { candidate, ancestor_hashes } => {
            &&& events.len() == 5
            &&& candidate_is_checked(request, events, candidate)
            &&& events[4] == HostEvent::<B, S, C, E>::Senders(true)
            &&& is_hash_table(
                ancestor_hashes@,
                header_views(candidate.ancestor_headers@),
                header_hashes(header_views(candidate.ancestor_headers@)),
            )
        },
        Execution::Output { candidate } => {
            &&& events.len() == 6
            &&& candidate_is_checked(request, events, candidate)
            &&& events[4] == HostEvent::<B, S, C, E>::Senders(true)
            &&& events[5] is PreState
        },
        Execution::Validation { candidate } => {
            &&& events.len() == 7
            &&& candidate_is_checked(request, events, candidate)
            &&& events[4] == HostEvent::<B, S, C, E>::Senders(true)
            &&& events[5] is PreState
            &&& events[6] is Output
        },
        Execution::StateRoot { candidate } => {
            &&& events.len() == 8
            &&& candidate_is_checked(request, events, candidate)
            &&& events[4] == HostEvent::<B, S, C, E>::Senders(true)
            &&& events[5] is PreState
            &&& events[6] is Output
            &&& events[7] is Validation
        },
        Execution::Stopped => true,
    }
}

proof fn lemma_reached<B, S, R: Default, C, G, E>(
    request: ExecutionRequest<G>,
    states: Seq<Execution<B, S, C, G>>,
    events: Seq<HostEvent<B, S, C, E>>,
    actions: Seq<HostAction<B, S, R, C, G, E>>,
    n: int,
)
    requires
        is_run(request, states, events, actions),
        0 <= n <= events.len(),
    ensures
        reached(request, events.take(n), states[n]),
    decreases n,
{
    if n > 0 {
        lemma_reached(request, states, events, actions, n - 1);
        let earlier = events.take(n - 1);
        let now = events.take(n);
        assert forall|i: int| 0 <= i < n - 1 implies now[i] == earlier[i] by {}
        assert(now[n - 1] == events[n - 1]);
        assert(states[n - 1].awaits(events[n - 1]));
        assert(follows(states[n - 1], events[n - 1], states[n - 1 + 1], actions[n - 1]));
    }
}

/// An execution finishes only where the answers are good. The input holds the
/// block that was fetched, the headers of its witness in ascending order, the
/// state that was built for it from the state root of the block before it, and
/// no state requests beyond the default.
pub proof fn law_finished_input_was_checked<B, S, R: Default, C, G, E>(
    request: ExecutionRequest<G>,
    states: Seq<Execution<B, S, C, G>>,
    events: Seq<HostEvent<B, S, C, E>>,
    actions: Seq<HostAction<B, S, R, C, G, E>>,
    input: ClientExecutorInput<B, S, R, C, G>,
)
    requires
        is_run(request, states, events, actions),
        actions.len() > 0,
        actions.last() == HostAction::<B, S, R, C, G, E>::Finish(input),
    ensures
        answers_are_good(events),
        ({
            &&& events[0] matches HostEvent::CurrentBlock(Some(block))
            &&& events[1] matches HostEvent::PreviousBlock(Some(previous_state_root))
            &&& events[2] matches HostEvent::Witness(serialized)
            &&& input.current_block == block.block
            &&& header_views(input.ancestor_headers@) == sorted_by_number(
                decoded_headers(byte_views(serialized@)),
            )
            &&& all_well_formed(header_views(input.ancestor_headers@))
            &&& actions[2] == HostAction::<B, S, R, C, G, E>::BuildParentState(
                previous_state_root,
            )
        }),
        events[3] == HostEvent::<B, S, C, E>::ParentState(input.parent_state, input.bytecodes),
        call_ensures(R::default, (), input.state_requests),
        input.genesis == request.genesis,
        input.custom_beneficiary == request.custom_beneficiary,
        input.opcode_tracking == request.opcode_tracking,
{
    let n = events.len() as int - 1;
    lemma_reached(request, states, events, actions, n);
    assert(states[n].awaits(events[n]));
    assert(follows(states[n], events[n], states[n + 1], actions[n]));
    assert forall|i: int| 0 <= i < n implies #[trigger] events.take(n)[i] == events[i] by {}
    assert(events.take(n)[0] == events[0]);
    assert(events.take(n)[2] == events[2]);
    let witness: int = 2;
    lemma_reached(request, states, events, actions, witness);
    assert(events.take(witness)[1] == events[1]);
    assert(states[witness].awaits(events[witness]));
    assert(follows(
        states[witness],
        events[witness],
        states[witness + 1],
        actions[witness],
    ));
    if let HostEvent::Witness(serialized) = events[2] {
        lemma_sorted_len(byte_views(serialized@));
    }
}

/// A block that has no predecessor is never finished.
pub proof fn law_first_block_is_never_finished<B, S, R: Default, C, G, E>(
    request: ExecutionRequest<G>,
    states: Seq<Execution<B, S, C, G>>,
    events: Seq<HostEvent<B, S, C, E>>,
    actions: Seq<HostAction<B, S, R, C, G, E>>,
    block: FetchedBlock<B>,
)
    requires
        is_run(request, states, events, actions),
        events.len() > 0,
        events[0] == HostEvent::<B, S, C, E>::CurrentBlock(Some(block)),
        block.number == 0,
    ensures
        actions.last() !is Finish,
{
    if let HostAction::Finish(input) = actions.last() {
        law_finished_input_was_checked(request, states, events, actions, input);
        let headers = header_views(input.ancestor_headers@);
        law_chain_numbers_are_consecutive(
            headers,
            header_hashes(headers),
            block.parent_hash@,
            block.number,
            headers.len() - 1,
        );
    }
}

/// The hashes that a block is executed with are exactly those of its ancestors
/// that were checked: one for each of the blocks just below it, as many as there
/// are headers, each under its own number, and the first of them is the hash of
/// the parent that the block names.
pub proof fn law_block_is_executed_with_its_ancestors<B, S, R: Default, C, G, E>(
    request: ExecutionRequest<G>,
    states: Seq<Execution<B, S, C, G>>,
    events: Seq<HostEvent<B, S, C, E>>,
    actions: Seq<HostAction<B, S, R, C, G, E>>,
    table: BTreeMap<u64, B256>,
)
    requires
        is_run(request, states, events, actions),
        actions.len() > 0,
        actions.last() == HostAction::<B, S, R, C, G, E>::ExecuteBlock(table),
    ensures
        ({
            &&& events[0] matches HostEvent::CurrentBlock(Some(block))
            &&& events[2] matches HostEvent::Witness(serialized)
            &&& all_decode(byte_views(serialized@))
            &&& {
                let headers = sorted_by_number(decoded_headers(byte_views(serialized@)));
                &&& 0 < headers.len() <= block.number
                &&& is_ancestor_chain(headers, block.parent_hash@, block.number)
                &&& is_hash_table(table@, headers, header_hashes(headers))
                &&& forall|k: u64| #[trigger]
                    table@.contains_key(k) <==> block.number - headers.len() <= k < block.number
                &&& table@[(block.number - 1) as u64]@ == block.parent_hash@
            }
        }),
{
    let n = events.len() as int - 1;
    lemma_reached(request, states, events, actions, n);
    assert(states[n].awaits(events[n]));
    assert(follows(states[n], events[n], states[n + 1], actions[n]));
    assert(events.take(n)[0] == events[0]);
    assert(events.take(n)[2] == events[2]);
    if let Execution::PreState { candidate, ancestor_hashes } = states[n] {
        let headers = header_views(candidate.ancestor_headers@);
        let hashes = header_hashes(headers);
        let parent_hash = candidate.block.parent_hash@;
        let number = candidate.block.number;
        let last = headers.len() - 1;
        assert(linked_at(headers, hashes, parent_hash, number, last));
        law_hash_table_covers_the_chain(
            table@,
            headers,
            hashes,
            parent_hash,
            number,
        );
        law_chain_numbers_are_consecutive(headers, hashes, parent_hash, number, 0);
        assert(table@.contains_key((number - 1) as u64));
    }
}

/// The state that a block is executed on is the one that its parent left
/// behind: the newest of the ancestors that were checked, whose hash and number
/// are those of the parent that the block names.
pub proof fn law_a_block_starts_from_the_state_of_its_parent<B, S, R: Default, C, G, E>(
    request: ExecutionRequest<G>,
    states: Seq<Execution<B, S, C, G>>,
    events: Seq<HostEvent<B, S, C, E>>,
    actions: Seq<HostAction<B, S, R, C, G, E>>,
    root: B256,
)
    requires
        is_run(request, states, events, actions),
        actions.len() > 0,
        actions.last() == HostAction::<B, S, R, C, G, E>::BuildPreState(root),
    ensures
        ({
            &&& events[0] matches HostEvent::CurrentBlock(Some(block))
            &&& states.last() matches Execution::PreState { candidate, .. }
            &&& candidate.ancestor_headers@.len() > 0
            &&& candidate.ancestor_headers@.last()@.state_root == root@
            &&& candidate.ancestor_headers@.last()@.hash() == block.parent_hash@
            &&& candidate.ancestor_headers@.last()@.number + 1 == block.number
        }),
{
    let n = events.len() as int - 1;
    lemma_reached(request, states, events, actions, n);
    lemma_reached(request, states, events, actions, n + 1);
    assert(states[n].awaits(events[n]));
    assert(follows(states[n], events[n], states[n + 1], actions[n]));
    assert(events.take(n + 1)[0] == events[0]);
    if let Execution::PreState { candidate, .. } = states[n + 1] {
        let headers = header_views(candidate.ancestor_headers@);
        assert(linked_at(
            headers,
            header_hashes(headers),
            candidate.block.parent_hash@,
            candidate.block.number,
            headers.len() - 1,
        ));
        assert(headers.last() == candidate.ancestor_headers@.last()@);
    }
}

/// Nothing follows once an execution has ended, by finishing or by failing.
pub proof fn law_an_execution_ends_once<B, S, R: Default, C, G, E>(
    request: ExecutionRequest<G>,
    states: Seq<Execution<B, S, C, G>>,
    events: Seq<HostEvent<B, S, C, E>>,
    actions: Seq<HostAction<B, S, R, C, G, E>>,
    i: int,
)
    requires
        is_run(request, states, events, actions),
        0 <= i < actions.len(),
        actions[i] is Finish || actions[i] is Fail,
    ensures
        i == actions.len() - 1,
        states.last() == Execution::<B, S, C, G>::Stopped,
{
    assert(states[i].awaits(events[i]));
    assert(follows(states[i], events[i], states[i + 1], actions[i]));
    if i + 1 < events.len() {
        assert(states[i + 1].awaits(events[i + 1]));
    }
}

/// Whether the answers are all that a block needs to be accepted: it and the
/// block before it are known, its senders are recovered, its ancestor headers
/// are well formed and, in ascending order, lead back from it, and executing it
/// leads to the state root that it names.
pub open spec fn answers_are_good<B, S, C, E>(events: Seq<HostEvent<B, S, C, E>>) -> bool {
    &&& events.len() == 9
    &&& events[0] matches HostEvent::CurrentBlock(Some(block))
    &&& events[1] matches HostEvent::PreviousBlock(Some(_))
    &&& events[2] matches HostEvent::Witness(serialized)
    &&& events[3] is ParentState
    &&& events[4] == HostEvent::<B, S, C, E>::Senders(true)
    &&& events[5] is PreState
    &&& events[6] is Output
    &&& events[7] is Validation
    &&& events[8] matches HostEvent::StateRoot(root)
    &&& serialized@.len() > 0
    &&& all_decode(byte_views(serialized@))
    &&& is_ancestor_chain(
        sorted_by_number(decoded_headers(byte_views(serialized@))),
        block.parent_hash@,
        block.number,
    )
    &&& root@ == block.state_root@
}

/// An execution finishes whenever the answers are good.
pub proof fn law_good_answers_finish<B, S, R: Default, C, G, E>(
    request: ExecutionRequest<G>,
    states: Seq<Execution<B, S, C, G>>,
    events: Seq<HostEvent<B, S, C, E>>,
    actions: Seq<HostAction<B, S, R, C, G, E>>,
)
    requires
        is_run(request, states, events, actions),
        answers_are_good(events),
    ensures
        actions.last() is Finish,
{
    assert(states[0].awaits(events[0]));
    assert(states[1].awaits(events[1]));
    assert(states[2].awaits(events[2]));
    assert(states[3].awaits(events[3]));
    assert(states[4].awaits(events[4]));
    assert(states[5].awaits(events[5]));
    assert(states[6].awaits(events[6]));
    assert(states[7].awaits(events[7]));
    assert(states[8].awaits(events[8]));
    if let HostEvent::Witness(serialized) = events[2] {
        lemma_sorted_len(byte_views(serialized@));
    }
}

/// Whether the answers are the same but for the order in which the serialized
/// headers of the witness come.
pub open spec fn differ_in_header_order<B, S, C, E>(
    a: Seq<HostEvent<B, S, C, E>>,
    b: Seq<HostEvent<B, S, C, E>>,
) -> bool {
    &&& a.len() == b.len()
    &&& forall|i: int| 0 <= i < a.len() && i != 2 ==> #[trigger] a[i] == b[i]
    &&& a.len() > 2 ==> {
        &&& a[2] matches HostEvent::Witness(x)
        &&& b[2] matches HostEvent::Witness(y)
        &&& byte_views(x@).to_multiset() == byte_views(y@).to_multiset()
    }
}

proof fn lemma_good_in_either_order<B, S, C, E>(
    a: Seq<HostEvent<B, S, C, E>>,
    b: Seq<HostEvent<B, S, C, E>>,
)
    requires
        differ_in_header_order(a, b),
        answers_are_good(a),
    ensures
        answers_are_good(b),
{
    if let (
        HostEvent::CurrentBlock(Some(block)),
        HostEvent::Witness(x),
        HostEvent::Witness(y),
    ) = (a[0], a[2], b[2]) {
        law_the_order_of_the_headers_does_not_matter(
            byte_views(x@),
            byte_views(y@),
            block.parent_hash@,
            block.number,
        );
    }
}

/// The order of the headers in a witness changes neither whether an execution
/// finishes nor the input that it finishes with. (Of the state requests, each
/// input has what `Default` gives.)
pub proof fn law_the_order_of_the_witness_headers_does_not_matter<B, S, R: Default, C, G, E>(
    request: ExecutionRequest<G>,
    states_a: Seq<Execution<B, S, C, G>>,
    events_a: Seq<HostEvent<B, S, C, E>>,
    actions_a: Seq<HostAction<B, S, R, C, G, E>>,
    states_b: Seq<Execution<B, S, C, G>>,
    events_b: Seq<HostEvent<B, S, C, E>>,
    actions_b: Seq<HostAction<B, S, R, C, G, E>>,
    a: ClientExecutorInput<B, S, R, C, G>,
)
    requires
        is_run(request, states_a, events_a, actions_a),
        is_run(request, states_b, events_b, actions_b),
        differ_in_header_order(events_a, events_b),
        events_a.len() > 0,
        actions_a.last() == HostAction::<B, S, R, C, G, E>::Finish(a),
    ensures
        ({
            &&& actions_b.last() matches HostAction::Finish(b)
            &&& b.current_block == a.current_block
            &&& header_views(b.ancestor_headers@) == header_views(a.ancestor_headers@)
            &&& b.parent_state == a.parent_state
            &&& call_ensures(R::default, (), a.state_requests)
            &&& call_ensures(R::default, (), b.state_requests)
            &&& b.bytecodes == a.bytecodes
            &&& b.genesis == a.genesis
            &&& b.custom_beneficiary == a.custom_beneficiary
            &&& b.opcode_tracking == a.opcode_tracking
        }),
{
    law_finished_input_was_checked(request, states_a, events_a, actions_a, a);
    lemma_good_in_either_order(events_a, events_b);
    law_good_answers_finish(request, states_b, events_b, actions_b);
    if let HostAction::Finish(b) = actions_b.last() {
        law_finished_input_was_checked(request, states_b, events_b, actions_b, b);
        if let (
            HostEvent::CurrentBlock(Some(block)),
            HostEvent::Witness(x),
            HostEvent::Witness(y),
        ) = (events_a[0], events_a[2], events_b[2]) {
            law_the_order_of_the_headers_does_not_matter(
                byte_views(x@),
                byte_views(y@),
                block.parent_hash@,
                block.number,
            );
        }
    }
}

/// What an execution asks for after each answer, in terms of the request and of
/// the answers before it. After the block comes the block numbered one below the
/// request, then the witness of the requested block, then the state with the
/// root of the block below; and at the end the block is accepted exactly where
/// executing it leads to the root that it names. Where the node knows no such
/// block, or a service fails, the execution ends with that.
pub proof fn law_what_an_execution_asks_for<B, S, R: Default, C, G, E>(
    request: ExecutionRequest<G>,
    states: Seq<Execution<B, S, C, G>>,
    events: Seq<HostEvent<B, S, C, E>>,
    actions: Seq<HostAction<B, S, R, C, G, E>>,
    i: int,
)
    requires
        is_run(request, states, events, actions),
        0 <= i < events.len(),
    ensures
        match events[i] {
            HostEvent::CurrentBlock(Some(_)) => {
                &&& i == 0
                &&& actions[i] matches HostAction::FetchBlock(n)
                &&& n + 1 == request.block_number
            },
            HostEvent::CurrentBlock(None) => {
                &&& i == 0
                &&& actions[i] matches HostAction::Fail(HostError::ExpectedBlock(n))
                &&& n == request.block_number
            },
            HostEvent::PreviousBlock(Some(_)) => {
                &&& i == 1
                &&& actions[i] matches HostAction::FetchWitness(n)
                &&& n == request.block_number
            },
            HostEvent::PreviousBlock(None) => {
                &&& i == 1
                &&& actions[i] matches HostAction::Fail(HostError::ExpectedBlock(n))
                &&& n == request.block_number
            },
            HostEvent::Witness(_) => {
                &&& i == 2
                &&& events[1] matches HostEvent::PreviousBlock(Some(root))
                &&& actions[i] == HostAction::<B, S, R, C, G, E>::BuildParentState(root)
            },
            HostEvent::ParentState(_, _) => i == 3 && actions[i] is RecoverSenders,
            HostEvent::Senders(recovered) => {
                &&& i == 4
                &&& !recovered ==> actions[i] matches HostAction::Fail(
                    HostError::FailedToRecoverSenders,
                )
            },
            HostEvent::PreState => i == 5 && actions[i] is ExecuteBlock,
            HostEvent::Output => i == 6 && actions[i] is ValidateBlock,
            HostEvent::Validation => i == 7 && actions[i] is CalculateStateRoot,
            HostEvent::StateRoot(root) => {
                &&& i == 8
                &&& events[0] matches HostEvent::CurrentBlock(Some(block))
                &&& root.0@ == block.state_root.0@ ==> actions[i] is Finish
                &&& root.0@ != block.state_root.0@ ==> {
                    &&& actions[i] matches HostAction::Fail(
                        HostError::StateRootMismatch(reached, named),
                    )
                    &&& reached == root
                    &&& named == block.state_root
                }
            },
            HostEvent::Failed(error) => actions[i] == HostAction::<B, S, R, C, G, E>::Fail(
                HostError::Service(error),
            ),
        },
{
    lemma_reached(request, states, events, actions, i);
    assert(states[i].awaits(events[i]));
    assert(follows(states[i], events[i], states[i + 1], actions[i]));
    if i > 0 {
        assert(events.take(i)[0] == events[0]);
    }
    if i > 1 {
        assert(events.take(i)[1] == events[1]);
    }
}

/// An execution takes every answer to what it asked for, and a failure in its
/// place, whatever block was requested. Only a block numbered zero that is
/// found leads no further, as there is none below it; and once the execution
/// has ended it takes nothing.
pub proof fn law_an_execution_takes_every_answer<B, S, R: Default, C, G, E>(
    request: ExecutionRequest<G>,
    states: Seq<Execution<B, S, C, G>>,
    events: Seq<HostEvent<B, S, C, E>>,
    actions: Seq<HostAction<B, S, R, C, G, E>>,
    block: FetchedBlock<B>,
    root: B256,
    headers: Vec<Vec<u8>>,
    state: S,
    bytecodes: Vec<C>,
    recovered: bool,
    error: E,
)
    requires
        is_run(request, states, events, actions),
    ensures
        actions.len() == 0 ==> {
            &&& states.last().awaits(HostEvent::<B, S, C, E>::CurrentBlock(None))
            &&& states.last().awaits(HostEvent::<B, S, C, E>::CurrentBlock(Some(block)))
                <==> request.block_number > 0
        },
        actions.len() > 0 && actions.last() is FetchBlock ==> {
            &&& states.last().awaits(HostEvent::<B, S, C, E>::PreviousBlock(Some(root)))
            &&& states.last().awaits(HostEvent::<B, S, C, E>::PreviousBlock(None))
        },
        actions.len() > 0 && actions.last() is FetchWitness ==> states.last().awaits(
            HostEvent::<B, S, C, E>::Witness(headers),
        ),
        actions.len() > 0 && actions.last() is BuildParentState ==> states.last().awaits(
            HostEvent::<B, S, C, E>::ParentState(state, bytecodes),
        ),
        actions.len() > 0 && actions.last() is RecoverSenders ==> states.last().awaits(
            HostEvent::<B, S, C, E>::Senders(recovered),
        ),
        actions.len() > 0 && actions.last() is BuildPreState ==> states.last().awaits(
            HostEvent::<B, S, C, E>::PreState,
        ),
        actions.len() > 0 && actions.last() is ExecuteBlock ==> states.last().awaits(
            HostEvent::<B, S, C, E>::Output,
        ),
        actions.len() > 0 && actions.last() is ValidateBlock ==> states.last().awaits(
            HostEvent::<B, S, C, E>::Validation,
        ),
        actions.len() > 0 && actions.last() is CalculateStateRoot ==> states.last().awaits(
            HostEvent::<B, S, C, E>::StateRoot(root),
        ),
        states.last().awaits(HostEvent::<B, S, C, E>::Failed(error)) <==> !(actions.len() > 0 && (
        actions.last() is Finish || actions.last() is Fail)),
{
    let n = events.len() as int;
    if n > 0 {
        assert(states[n - 1].awaits(events[n - 1]));
        assert(follows(states[n - 1], events[n - 1], states[n - 1 + 1], actions[n - 1]));
    }
}

/// When the senders were recovered, the headers of the witness decide. They are
/// refused where one of them does not decode, where there are none, and where
/// they do not lead back from the block. Where they are accepted, the block is
/// executed on the state that the newest of them left behind, which is the
/// parent that the block names; and what goes into the input is exactly these
/// headers, each the parent of the next.
pub proof fn law_the_headers_of_the_witness_decide<B, S, R: Default, C, G, E>(
    request: ExecutionRequest<G>,
    states: Seq<Execution<B, S, C, G>>,
    events: Seq<HostEvent<B, S, C, E>>,
    actions: Seq<HostAction<B, S, R, C, G, E>>,
)
    requires
        is_run(request, states, events, actions),
        events.len() > 4,
        events[4] == HostEvent::<B, S, C, E>::Senders(true),
    ensures
        events[0] matches HostEvent::CurrentBlock(Some(block)) && events[2] matches HostEvent::Witness(
            serialized,
        ) && match actions[4] {
            HostAction::Fail(HostError::HeaderDeserializationFailed) => exists|j: int|
                0 <= j < serialized@.len() && decoded_header(
                    (#[trigger] serialized@[j])@,
                ) is None,
            HostAction::Fail(HostError::StatelessValidation(_)) => {
                &&& serialized@.len() > 0
                &&& forall|j: int|
                    0 <= j < serialized@.len() ==> decoded_header(
                        (#[trigger] serialized@[j])@,
                    ) is Some
            },
            HostAction::Fail(HostError::MissingAncestorHeader) => serialized@.len() == 0,
            HostAction::BuildPreState(root) => {
                &&& states[5] matches Execution::PreState { candidate, ancestor_hashes }
                &&& candidate.request == request
                &&& candidate.block == block
                &&& events[3] == HostEvent::<B, S, C, E>::ParentState(
                    candidate.parent_state,
                    candidate.bytecodes,
                )
                &&& {
                    let headers = candidate.ancestor_headers@;
                    &&& headers.len() == serialized@.len()
                    &&& headers.len() > 0
                    &&& headers.map_values(|header: Header| header@).to_multiset()
                        == serialized@.map_values(
                        |bytes: Vec<u8>| decoded_header(bytes@)->Some_0,
                    ).to_multiset()
                    &&& keccak256_digest(headers.last().rlp@) == block.parent_hash.0@
                    &&& headers.last().number + 1 == block.number
                    &&& forall|i: int|
                        0 <= i < headers.len() - 1 ==> {
                            &&& keccak256_digest((#[trigger] headers[i]).rlp@) == headers[i
                                + 1].parent_hash.0@
                            &&& headers[i].number + 1 == headers[i + 1].number
                        }
                    &&& root.0@ == headers.last().state_root.0@
                    &&& forall|k: u64| #[trigger]
                        ancestor_hashes@.contains_key(k) <==> block.number - headers.len() <= k
                            < block.number
                    &&& forall|i: int|
                        0 <= i < headers.len() ==> ancestor_hashes@[(
                        #[trigger] headers[i]).number].0@ == keccak256_digest(headers[i].rlp@)
                }
            },
            _ => false,
        },
{
    let senders: int = 4;
    lemma_reached(request, states, events, actions, senders);
    assert(events.take(senders)[0] == events[0]);
    assert(events.take(senders)[2] == events[2]);
    assert(events.take(senders)[3] == events[3]);
    assert(states[senders].awaits(events[senders]));
    assert(follows(states[senders], events[senders], states[senders + 1], actions[senders]));
    if let Execution::Senders { block, headers, .. } = states[senders] {
        let bytes = byte_views(headers@);
        law_entries_stand_for_their_bytes(headers@);
        assert forall|j: int| 0 <= j < headers@.len() implies #[trigger] bytes[j]
            == headers@[j]@ by {}
        let outcome = choose|outcome: Result<Ancestors, HostError<E>>| #[trigger]
            ancestors_outcome(block, bytes, outcome) && match outcome {
                Err(error) => fails(states[senders + 1], actions[senders], error),
                Ok(ancestors) => {
                    &&& states[senders + 1] matches Execution::PreState {
                        candidate,
                        ancestor_hashes,
                    }
                    &&& candidate.ancestor_headers == ancestors.headers
                    &&& ancestor_hashes == ancestors.hashes
                    &&& actions[senders] == HostAction::<B, S, R, C, G, E>::BuildPreState(
                        ancestors.pre_state_root,
                    )
                },
            };
        match outcome {
            Err(error) => {
                law_ancestors_are_refused_for_a_reason(block, bytes, error);
                if error is HeaderDeserializationFailed {
                    let j = choose|j: int|
                        0 <= j < bytes.len() && decoded_header(#[trigger] bytes[j]) is None;
                    assert(decoded_header(headers@[j]@) is None);
                } else if error is StatelessValidation {
                    assert forall|j: int| 0 <= j < headers@.len() implies decoded_header(
                        (#[trigger] headers@[j])@,
                    ) is Some by {
                        assert(decoded_header(bytes[j]) is Some);
                    }
                }
            },
            Ok(ancestors) => {
                law_accepted_ancestors_lead_back_from_the_block::<B, E>(block, bytes, ancestors);
                assert(bytes.map_values(|bytes: Seq<u8>| decoded_header(bytes)->Some_0)
                    =~= headers@.map_values(|bytes: Vec<u8>| decoded_header(bytes@)->Some_0));
            },
        }
    }
}

/// Headers that, put in some order, lead back from the block are accepted: the
/// execution goes on with the state that the newest of them left behind.
pub proof fn law_headers_that_lead_back_are_accepted<B, S, R: Default, C, G, E>(
    request: ExecutionRequest<G>,
    states: Seq<Execution<B, S, C, G>>,
    events: Seq<HostEvent<B, S, C, E>>,
    actions: Seq<HostAction<B, S, R, C, G, E>>,
    block: FetchedBlock<B>,
    serialized: Vec<Vec<u8>>,
    chain: Seq<HeaderView>,
)
    requires
        is_run(request, states, events, actions),
        events.len() > 4,
        events[0] == HostEvent::<B, S, C, E>::CurrentBlock(Some(block)),
        events[2] == HostEvent::<B, S, C, E>::Witness(serialized),
        events[4] == HostEvent::<B, S, C, E>::Senders(true),
        forall|j: int|
            0 <= j < serialized@.len() ==> decoded_header((#[trigger] serialized@[j])@) is Some,
        chain.len() > 0,
        chain.to_multiset() == serialized@.map_values(
            |bytes: Vec<u8>| decoded_header(bytes@)->Some_0,
        ).to_multiset(),
        keccak256_digest(chain.last().rlp) == block.parent_hash.0@,
        chain.last().number + 1 == block.number,
        forall|i: int|
            0 <= i < chain.len() - 1 ==> keccak256_digest((#[trigger] chain[i]).rlp) == chain[i
                + 1].parent_hash && chain[i].number + 1 == chain[i + 1].number,
    ensures
        actions[4] matches HostAction::BuildPreState(root) && root.0@ == chain.last().state_root,
{
    let senders: int = 4;
    law_the_headers_of_the_witness_decide(request, states, events, actions);
    lemma_reached(request, states, events, actions, senders);
    assert(events.take(senders)[0] == events[0]);
    assert(events.take(senders)[2] == events[2]);
    assert(states[senders].awaits(events[senders]));
    assert(follows(states[senders], events[senders], states[senders + 1], actions[senders]));
    let bytes = byte_views(serialized@);
    law_entries_stand_for_their_bytes(serialized@);
    assert forall|j: int| 0 <= j < bytes.len() implies decoded_header(
        #[trigger] bytes[j],
    ) is Some by {
        assert(decoded_header(serialized@[j]@) is Some);
    }
    assert(bytes.map_values(|bytes: Seq<u8>| decoded_header(bytes)->Some_0)
        =~= serialized@.map_values(|bytes: Vec<u8>| decoded_header(bytes@)->Some_0));
    let outcome = choose|outcome: Result<Ancestors, HostError<E>>| #[trigger]
        ancestors_outcome(block, bytes, outcome) && match outcome {
            Err(error) => fails(states[senders + 1], actions[senders], error),
            Ok(ancestors) => actions[senders]
                == HostAction::<B, S, R, C, G, E>::BuildPreState(ancestors.pre_state_root),
        };
    law_ancestors_that_lead_back_are_accepted(block, bytes, chain, outcome);
    if let Ok(ancestors) = outcome {
        law_accepted_ancestors_lead_back_from_the_block::<B, E>(block, bytes, ancestors);
        assert(ancestors.headers@.map_values(|header: Header| header@).last()
            == ancestors.headers@.last()@);
    }
}

/// What an execution finishes with holds the block that was fetched, the state
/// and the bytecodes that were built for it, the headers that were checked, and
/// what was requested; and the block was executed with the hashes of those
/// headers, on the state that the newest of them left behind.
pub proof fn law_a_finished_input_is_made_of_the_answers<B, S, R: Default, C, G, E>(
    request: ExecutionRequest<G>,
    states: Seq<Execution<B, S, C, G>>,
    events: Seq<HostEvent<B, S, C, E>>,
    actions: Seq<HostAction<B, S, R, C, G, E>>,
    input: ClientExecutorInput<B, S, R, C, G>,
)
    requires
        is_run(request, states, events, actions),
        actions.len() > 0,
        actions.last() == HostAction::<B, S, R, C, G, E>::Finish(input),
    ensures
        events.len() == 9,
        events[0] matches HostEvent::CurrentBlock(Some(block)) && events[2] matches HostEvent::Witness(
            serialized,
        ) && {
            let headers = input.ancestor_headers@;
            &&& input.current_block == block.block
            &&& headers.len() == serialized@.len()
            &&& headers.len() > 0
            &&& headers.map_values(|header: Header| header@).to_multiset()
                == serialized@.map_values(
                |bytes: Vec<u8>| decoded_header(bytes@)->Some_0,
            ).to_multiset()
            &&& keccak256_digest(headers.last().rlp@) == block.parent_hash.0@
            &&& headers.last().number + 1 == block.number
            &&& forall|i: int|
                0 <= i < headers.len() - 1 ==> {
                    &&& keccak256_digest((#[trigger] headers[i]).rlp@) == headers[i
                        + 1].parent_hash.0@
                    &&& headers[i].number + 1 == headers[i + 1].number
                }
            &&& actions[4] matches HostAction::BuildPreState(root)
            &&& root.0@ == headers.last().state_root.0@
            &&& actions[5] matches HostAction::ExecuteBlock(table)
            &&& forall|k: u64| #[trigger]
                table@.contains_key(k) <==> block.number - headers.len() <= k < block.number
            &&& forall|i: int|
                0 <= i < headers.len() ==> table@[(#[trigger] headers[i]).number].0@
                    == keccak256_digest(headers[i].rlp@)
            &&& events[8] matches HostEvent::StateRoot(reached)
            &&& reached.0@ == block.state_root.0@
        },
        events[3] == HostEvent::<B, S, C, E>::ParentState(input.parent_state, input.bytecodes),
        actions[0] matches HostAction::FetchBlock(below) && below + 1 == request.block_number,
        events[1] matches HostEvent::PreviousBlock(Some(root)) && actions[2]
            == HostAction::<B, S, R, C, G, E>::BuildParentState(root),
        call_ensures(R::default, (), input.state_requests),
        input.genesis == request.genesis,
        input.custom_beneficiary == request.custom_beneficiary,
        input.opcode_tracking == request.opcode_tracking,
{
    let n = events.len() as int - 1;
    law_finished_input_was_checked(request, states, events, actions, input);
    law_the_headers_of_the_witness_decide(request, states, events, actions);
    law_what_an_execution_asks_for(request, states, events, actions, 0);
    law_what_an_execution_asks_for(request, states, events, actions, 2);
    law_what_an_execution_asks_for(request, states, events, actions, 8);
    let pre_state: int = 5;
    lemma_reached(request, states, events, actions, pre_state);
    assert(states[4].awaits(events[4]));
    assert(states[pre_state].awaits(events[pre_state]));
    assert(follows(
        states[pre_state],
        events[pre_state],
        states[pre_state + 1],
        actions[pre_state],
    ));
    let output: int = 6;
    assert(states[output].awaits(events[output]));
    assert(follows(states[output], events[output], states[output + 1], actions[output]));
    let validation: int = 7;
    assert(states[validation].awaits(events[validation]));
    assert(follows(
        states[validation],
        events[validation],
        states[validation + 1],
        actions[validation],
    ));
    let end: int = 8;
    assert(states[end].awaits(events[end]));
    assert(follows(states[end], events[end], states[end + 1], actions[end]));
    let senders: int = 4;
    assert(follows(states[senders], events[senders], states[senders + 1], actions[senders]));
}

} // verus!
