//! The worker that proves one aggregate after the other.
//!
//! [`Aggregator`] is where it stands, [`AggregatorEvent`] what came of its last
//! step and [`AggregatorAction`] its next one. Each action is one thing that is
//! done outside, and the next one follows only when that has succeeded.

use vstd::prelude::*;

use crate::aggregation::AggregationInput;
use crate::db::{
    on_aggregation_end, on_aggregation_failed, records, records_failure, stored,
    AggregationFailure, AggregationOutcome, AggregationSuccess, VerifierKey,
};
use crate::zk::{Proof, ProofWithPublicValues};

verus! {

/// Where the aggregator stands, named after what it waits for.
#[derive(Debug)]
pub enum Aggregator<P, K> {
    /// The proofs of the next aggregate.
    Input,
    /// That the next block is announced.
    Announcement { block_number: u64, proofs: Vec<Proof<P, K>> },
    /// What comes of proving the aggregate.
    Outcome { block_number: u64 },
    /// That the outcome is written.
    Success { block_number: u64, key: VerifierKey, aggregate: ProofWithPublicValues<P> },
    /// That the key is written.
    Key { block_number: u64, aggregate: ProofWithPublicValues<P> },
    /// That the aggregate is handed over.
    HandOver { block_number: u64 },
    /// That the failure is written.
    Failure { block_number: u64 },
    Stopped,
}

/// What came of the aggregator's last step.
#[derive(Debug)]
pub enum AggregatorEvent<P, K, E> {
    /// The proofs of the next aggregate, or `None` when there are no more.
    Input(Option<AggregationInput<P, K>>),
    /// The next block was announced.
    Announced,
    /// The aggregate was proved.
    Proved(AggregationOutcome, ProofWithPublicValues<P>),
    /// The aggregate could not be proved.
    NotProved(String),
    /// The outcome was written.
    SuccessRecorded,
    /// The key was written.
    KeyRecorded,
    /// The aggregate was handed over.
    HandedOver,
    /// The failure was written.
    FailureRecorded,
    /// The step failed.
    Failed(E),
}

/// What the aggregator does next.
#[derive(Debug)]
pub enum AggregatorAction<P, K, E> {
    /// Take the proofs of the next aggregate.
    ReceiveInput,
    /// Announce the number of the next block to the preparer.
    Announce(u64),
    /// Prove the aggregate of the proofs.
    Prove(Vec<Proof<P, K>>),
    /// Write the outcome.
    RecordSuccess(AggregationSuccess),
    /// Write the key.
    RecordKey(VerifierKey),
    /// Hand the aggregate to the preparer.
    HandOver(ProofWithPublicValues<P>),
    /// Write that the aggregation failed.
    RecordFailure(AggregationFailure),
    /// All is done.
    Stop,
    /// The aggregator ends with this error.
    Fail(E),
}

impl<P, K> Aggregator<P, K> {
    /// Whether `event` can come of the aggregator's last step. A block without a
    /// successor cannot be aggregated, as the number after it is announced.
    pub open spec fn awaits<E>(self, event: AggregatorEvent<P, K, E>) -> bool {
        match (self, event) {
            (Aggregator::Input, AggregatorEvent::Input(Some(input))) => input.block_number
                < u64::MAX,
            (Aggregator::Input, AggregatorEvent::Input(None)) => true,
            (Aggregator::Outcome { .. }, AggregatorEvent::Proved(_, _)) => true,
            (Aggregator::Outcome { .. }, AggregatorEvent::NotProved(_)) => true,
            (Aggregator::Announcement { .. }, AggregatorEvent::Announced) => true,
            (Aggregator::Announcement { .. }, AggregatorEvent::Failed(_)) => true,
            (Aggregator::Success { .. }, AggregatorEvent::SuccessRecorded) => true,
            (Aggregator::Success { .. }, AggregatorEvent::Failed(_)) => true,
            (Aggregator::Key { .. }, AggregatorEvent::KeyRecorded) => true,
            (Aggregator::Key { .. }, AggregatorEvent::Failed(_)) => true,
            (Aggregator::HandOver { .. }, AggregatorEvent::HandedOver) => true,
            (Aggregator::HandOver { .. }, AggregatorEvent::Failed(_)) => true,
            (Aggregator::Failure { .. }, AggregatorEvent::FailureRecorded) => true,
            (Aggregator::Failure { .. }, AggregatorEvent::Failed(_)) => true,
            _ => false,
        }
    }

    /// Whether the event can come of the aggregator's last step.
    pub fn is_awaiting<E>(&self, event: &AggregatorEvent<P, K, E>) -> (r: bool)
        ensures
            r == self.awaits(*event),
    {
        match (self, event) {
            (Aggregator::Input, AggregatorEvent::Input(Some(input))) => input.block_number
                < u64::MAX,
            (Aggregator::Input, AggregatorEvent::Input(None)) => true,
            (Aggregator::Outcome { .. }, AggregatorEvent::Proved(_, _)) => true,
            (Aggregator::Outcome { .. }, AggregatorEvent::NotProved(_)) => true,
            (Aggregator::Announcement { .. }, AggregatorEvent::Announced) => true,
            (Aggregator::Announcement { .. }, AggregatorEvent::Failed(_)) => true,
            (Aggregator::Success { .. }, AggregatorEvent::SuccessRecorded) => true,
            (Aggregator::Success { .. }, AggregatorEvent::Failed(_)) => true,
            (Aggregator::Key { .. }, AggregatorEvent::KeyRecorded) => true,
            (Aggregator::Key { .. }, AggregatorEvent::Failed(_)) => true,
            (Aggregator::HandOver { .. }, AggregatorEvent::HandedOver) => true,
            (Aggregator::HandOver { .. }, AggregatorEvent::Failed(_)) => true,
            (Aggregator::Failure { .. }, AggregatorEvent::FailureRecorded) => true,
            (Aggregator::Failure { .. }, AggregatorEvent::Failed(_)) => true,
            _ => false,
        }
    }
}

/// What the aggregator does with what came of its last step.
pub open spec fn aggregates<P, K, E>(
    before: Aggregator<P, K>,
    event: AggregatorEvent<P, K, E>,
    after: Aggregator<P, K>,
    action: AggregatorAction<P, K, E>,
) -> bool {
    match (before, event) {
        (_, AggregatorEvent::Failed(error)) => {
            &&& after == Aggregator::<P, K>::Stopped
            &&& action == AggregatorAction::<P, K, E>::Fail(error)
        },
        (Aggregator::Input, AggregatorEvent::Input(None)) => {
            &&& after == Aggregator::<P, K>::Stopped
            &&& action == AggregatorAction::<P, K, E>::Stop
        },
        (Aggregator::Input, AggregatorEvent::Input(Some(input))) => {
            &&& after matches Aggregator::Announcement { block_number, proofs }
            &&& block_number == input.block_number
            &&& proofs@ == seq![input.first, input.second]
            &&& action == AggregatorAction::<P, K, E>::Announce((input.block_number + 1) as u64)
        },
        (Aggregator::Announcement { block_number, proofs }, AggregatorEvent::Announced) => {
            &&& after == Aggregator::<P, K>::Outcome { block_number }
            &&& action == AggregatorAction::<P, K, E>::Prove(proofs)
        },
        (Aggregator::Outcome { block_number }, AggregatorEvent::Proved(outcome, aggregate)) => {
            &&& action matches AggregatorAction::RecordSuccess(success)
            &&& after matches Aggregator::Success { block_number: b, key, aggregate: a }
            &&& b == block_number
            &&& a == aggregate
            &&& records(block_number, outcome, success, key)
        },
        (Aggregator::Outcome { block_number }, AggregatorEvent::NotProved(reason)) => {
            &&& after == Aggregator::<P, K>::Failure { block_number }
            &&& action matches AggregatorAction::RecordFailure(failure)
            &&& records_failure(block_number, reason, failure)
        },
        (
            Aggregator::Success { block_number, key, aggregate },
            AggregatorEvent::SuccessRecorded,
        ) => {
            &&& after == Aggregator::<P, K>::Key { block_number, aggregate }
            &&& action == AggregatorAction::<P, K, E>::RecordKey(key)
        },
        (Aggregator::Key { block_number, aggregate }, AggregatorEvent::KeyRecorded) => {
            &&& after == Aggregator::<P, K>::HandOver { block_number }
            &&& action == AggregatorAction::<P, K, E>::HandOver(aggregate)
        },
        (Aggregator::HandOver { .. }, AggregatorEvent::HandedOver) => {
            &&& after == Aggregator::<P, K>::Input
            &&& action == AggregatorAction::<P, K, E>::ReceiveInput
        },
        (Aggregator::Failure { .. }, AggregatorEvent::FailureRecorded) => {
            &&& after == Aggregator::<P, K>::Input
            &&& action == AggregatorAction::<P, K, E>::ReceiveInput
        },
        _ => false,
    }
}

/// Takes the work of the aggregator one step further.
pub fn proof_aggregator<P, K, E>(
    state: Aggregator<P, K>,
    event: AggregatorEvent<P, K, E>,
) -> (r: (Aggregator<P, K>, AggregatorAction<P, K, E>))
    requires
        state.awaits(event),
    ensures
        aggregates(state, event, r.0, r.1),
{
    match (state, event) {
        (_, AggregatorEvent::Failed(error)) => (Aggregator::Stopped, AggregatorAction::Fail(error)),
        (Aggregator::Input, AggregatorEvent::Input(None)) => (
            Aggregator::Stopped,
            AggregatorAction::Stop,
        ),
        (Aggregator::Input, AggregatorEvent::Input(Some(input))) => {
            let block_number: u64 = input.block_number;
            let mut proofs: Vec<Proof<P, K>> = Vec::new();
            proofs.push(input.first);
            proofs.push(input.second);
            assert(proofs@ =~= seq![input.first, input.second]);
            (
                Aggregator::Announcement { block_number, proofs },
                AggregatorAction::Announce(block_number + 1),
            )
        },
        (Aggregator::Announcement { block_number, proofs }, AggregatorEvent::Announced) => (
            Aggregator::Outcome { block_number },
            AggregatorAction::Prove(proofs),
        ),
        (Aggregator::Outcome { block_number }, AggregatorEvent::Proved(outcome, aggregate)) => {
            let (success, key): (AggregationSuccess, VerifierKey) = on_aggregation_end(
                block_number,
                outcome,
            );
            (
                Aggregator::Success { block_number, key, aggregate },
                AggregatorAction::RecordSuccess(success),
            )
        },
        (Aggregator::Outcome { block_number }, AggregatorEvent::NotProved(reason)) => {
            let failure = on_aggregation_failed(block_number, reason);
            (Aggregator::Failure { block_number }, AggregatorAction::RecordFailure(failure))
        },
        (
            Aggregator::Success { block_number, key, aggregate },
            AggregatorEvent::SuccessRecorded,
        ) => (Aggregator::Key { block_number, aggregate }, AggregatorAction::RecordKey(key)),
        (Aggregator::Key { block_number, aggregate }, AggregatorEvent::KeyRecorded) => (
            Aggregator::HandOver { block_number },
            AggregatorAction::HandOver(aggregate),
        ),
        (Aggregator::HandOver { .. }, AggregatorEvent::HandedOver) => (
            Aggregator::Input,
            AggregatorAction::ReceiveInput,
        ),
        (Aggregator::Failure { .. }, AggregatorEvent::FailureRecorded) => (
            Aggregator::Input,
            AggregatorAction::ReceiveInput,
        ),
        _ => vstd::pervasive::unreached(),
    }
}

/// Whether a new aggregator may go through `states` where `events` came of its
/// steps and `actions[i]` is the step that follows `events[i]`.
pub open spec fn is_run<P, K, E>(
    states: Seq<Aggregator<P, K>>,
    events: Seq<AggregatorEvent<P, K, E>>,
    actions: Seq<AggregatorAction<P, K, E>>,
) -> bool {
    &&& states.len() == events.len() + 1
    &&& actions.len() == events.len()
    &&& states[0] == Aggregator::<P, K>::Input
    &&& forall|i: int|
        0 <= i < events.len() ==> {
            &&& states[i].awaits(#[trigger] events[i])
            &&& aggregates(states[i], events[i], states[i + 1], actions[i])
        }
}

/// How many steps lie between taking an input and where the aggregator stands.
pub open spec fn steps_since_input<P, K>(state: Aggregator<P, K>) -> int {
    match state {
        Aggregator::Input => 0,
        Aggregator::Announcement { .. } => 1,
        Aggregator::Outcome { .. } => 2,
        Aggregator::Success { .. } => 3,
        Aggregator::Failure { .. } => 3,
        Aggregator::Key { .. } => 4,
        Aggregator::HandOver { .. } => 5,
        Aggregator::Stopped => 0,
    }
}

/// Whether, from `i` on, the proofs of `block_number` are taken, the number
/// after it is announced, and then, once that is done, the aggregate of exactly
/// these proofs is proved.
pub open spec fn announces_then_proves<P, K, E>(
    events: Seq<AggregatorEvent<P, K, E>>,
    actions: Seq<AggregatorAction<P, K, E>>,
    i: int,
    block_number: u64,
) -> bool {
    &&& 0 <= i < events.len() - 1
    &&& events[i] matches AggregatorEvent::Input(Some(input))
    &&& input.block_number == block_number
    &&& block_number < u64::MAX
    &&& actions[i] == AggregatorAction::<P, K, E>::Announce((block_number + 1) as u64)
    &&& events[i + 1] == AggregatorEvent::<P, K, E>::Announced
    &&& actions[i + 1] matches AggregatorAction::Prove(proofs)
    &&& proofs@ == seq![input.first, input.second]
}

/// What led the aggregator to where it stands after `n` events.
spec fn round_so_far<P, K, E>(
    events: Seq<AggregatorEvent<P, K, E>>,
    actions: Seq<AggregatorAction<P, K, E>>,
    state: Aggregator<P, K>,
    n: int,
) -> bool {
    match state {
        Aggregator::Announcement { block_number, proofs } => {
            &&& n >= 1
            &&& events[n - 1] matches AggregatorEvent::Input(Some(input))
            &&& input.block_number == block_number
            &&& block_number < u64::MAX
            &&& proofs@ == seq![input.first, input.second]
            &&& actions[n - 1] == AggregatorAction::<P, K, E>::Announce((block_number + 1) as u64)
        },
        Aggregator::Outcome { block_number } => {
            &&& n >= 2
            &&& announces_then_proves(events, actions, n - 2, block_number)
        },
        Aggregator::Success { block_number, key, aggregate } => {
            &&& n >= 3
            &&& announces_then_proves(events, actions, n - 3, block_number)
            &&& events[n - 1] matches AggregatorEvent::Proved(outcome, proved)
            &&& proved == aggregate
            &&& actions[n - 1] matches AggregatorAction::RecordSuccess(success)
            &&& records(block_number, outcome, success, key)
        },
        Aggregator::Failure { block_number } => {
            &&& n >= 3
            &&& announces_then_proves(events, actions, n - 3, block_number)
            &&& events[n - 1] matches AggregatorEvent::NotProved(reason)
            &&& actions[n - 1] matches AggregatorAction::RecordFailure(failure)
            &&& records_failure(block_number, reason, failure)
        },
        Aggregator::Key { block_number, aggregate } => {
            &&& n >= 4
            &&& announces_then_proves(events, actions, n - 4, block_number)
            &&& stores(events, actions, n - 2, block_number, aggregate)
        },
        Aggregator::HandOver { block_number } => {
            &&& n >= 5
            &&& announces_then_proves(events, actions, n - 5, block_number)
            &&& actions[n - 1] matches AggregatorAction::HandOver(aggregate)
            &&& stores(events, actions, n - 3, block_number, aggregate)
            &&& events[n - 1] == AggregatorEvent::<P, K, E>::KeyRecorded
        },
        _ => true,
    }
}

/// Whether, from `i` on, `aggregate` comes out of proving, what came out is
/// written under `block_number`, and then, once that is done, the key is written.
pub open spec fn stores<P, K, E>(
    events: Seq<AggregatorEvent<P, K, E>>,
    actions: Seq<AggregatorAction<P, K, E>>,
    i: int,
    block_number: u64,
    aggregate: ProofWithPublicValues<P>,
) -> bool {
    &&& 0 <= i < events.len() - 1
    &&& events[i] matches AggregatorEvent::Proved(outcome, proved)
    &&& proved == aggregate
    &&& actions[i] matches AggregatorAction::RecordSuccess(success)
    &&& events[i + 1] == AggregatorEvent::<P, K, E>::SuccessRecorded
    &&& actions[i + 1] matches AggregatorAction::RecordKey(key)
    &&& records(block_number, outcome, success, key)
}

proof fn lemma_round_so_far<P, K, E>(
    states: Seq<Aggregator<P, K>>,
    events: Seq<AggregatorEvent<P, K, E>>,
    actions: Seq<AggregatorAction<P, K, E>>,
    n: int,
)
    requires
        is_run(states, events, actions),
        0 <= n <= events.len(),
    ensures
        round_so_far(events, actions, states[n], n),
    decreases n,
{
    if n > 0 {
        lemma_round_so_far(states, events, actions, n - 1);
        assert(states[n - 1].awaits(events[n - 1]));
        assert(aggregates(states[n - 1], events[n - 1], states[n - 1 + 1], actions[n - 1]));
    }
}

/// The steps of one aggregate come in this order: the next block is announced,
/// the aggregate is proved, the outcome and the key are written, and only then
/// is the aggregate handed over, as it came out of proving.
pub proof fn law_an_aggregate_is_stored_before_it_is_handed_over<P, K, E>(
    states: Seq<Aggregator<P, K>>,
    events: Seq<AggregatorEvent<P, K, E>>,
    actions: Seq<AggregatorAction<P, K, E>>,
    i: int,
    aggregate: ProofWithPublicValues<P>,
)
    requires
        is_run(states, events, actions),
        0 <= i < actions.len(),
        actions[i] == AggregatorAction::<P, K, E>::HandOver(aggregate),
    ensures
        states[i + 1] matches Aggregator::HandOver { block_number } && announces_then_proves(
            events,
            actions,
            i - 4,
            block_number,
        ) && stores(events, actions, i - 2, block_number, aggregate),
        events[i] == AggregatorEvent::<P, K, E>::KeyRecorded,
{
    lemma_round_so_far(states, events, actions, i + 1);
    assert(states[i].awaits(events[i]));
    assert(aggregates(states[i], events[i], states[i + 1], actions[i]));
}

/// The next block is announced before the aggregate of a block is proved.
pub proof fn law_the_next_block_is_announced_before_proving<P, K, E>(
    states: Seq<Aggregator<P, K>>,
    events: Seq<AggregatorEvent<P, K, E>>,
    actions: Seq<AggregatorAction<P, K, E>>,
    i: int,
)
    requires
        is_run(states, events, actions),
        0 <= i < actions.len(),
        actions[i] is Prove,
    ensures
        states[i + 1] matches Aggregator::Outcome { block_number } && announces_then_proves(
            events,
            actions,
            i - 1,
            block_number,
        ),
{
    lemma_round_so_far(states, events, actions, i + 1);
    assert(states[i].awaits(events[i]));
    assert(aggregates(states[i], events[i], states[i + 1], actions[i]));
}

/// An input whose proving succeeds, and whose records and aggregate get through,
/// is announced, proved, written and handed over, after which the aggregator
/// takes the next input.
pub proof fn law_a_proved_aggregate_is_handed_over<P, K, E>(
    states: Seq<Aggregator<P, K>>,
    events: Seq<AggregatorEvent<P, K, E>>,
    actions: Seq<AggregatorAction<P, K, E>>,
    i: int,
    outcome: AggregationOutcome,
    aggregate: ProofWithPublicValues<P>,
)
    requires
        is_run(states, events, actions),
        0 <= i,
        i + 5 < events.len(),
        events[i] matches AggregatorEvent::Input(Some(_)),
        events[i + 1] == AggregatorEvent::<P, K, E>::Announced,
        events[i + 2] == AggregatorEvent::<P, K, E>::Proved(outcome, aggregate),
        events[i + 3] == AggregatorEvent::<P, K, E>::SuccessRecorded,
        events[i + 4] == AggregatorEvent::<P, K, E>::KeyRecorded,
        events[i + 5] == AggregatorEvent::<P, K, E>::HandedOver,
    ensures
        actions[i] is Announce,
        actions[i + 1] is Prove,
        actions[i + 2] is RecordSuccess,
        actions[i + 3] is RecordKey,
        actions[i + 4] == AggregatorAction::<P, K, E>::HandOver(aggregate),
        actions[i + 5] == AggregatorAction::<P, K, E>::ReceiveInput,
        states[i + 6] == Aggregator::<P, K>::Input,
{
    assert(states[i].awaits(events[i]));
    assert(aggregates(states[i], events[i], states[i + 1], actions[i]));
    assert(aggregates(states[i + 1], events[i + 1], states[i + 1 + 1], actions[i + 1]));
    assert(aggregates(states[i + 2], events[i + 2], states[i + 2 + 1], actions[i + 2]));
    assert(aggregates(states[i + 3], events[i + 3], states[i + 3 + 1], actions[i + 3]));
    assert(aggregates(states[i + 4], events[i + 4], states[i + 4 + 1], actions[i + 4]));
    assert(aggregates(states[i + 5], events[i + 5], states[i + 5 + 1], actions[i + 5]));
}

/// An aggregate that could not be proved is written down as failed under its
/// own block. Nothing is handed over for it, and the aggregator goes on.
pub proof fn law_a_failed_aggregate_is_only_written_down<P, K, E>(
    states: Seq<Aggregator<P, K>>,
    events: Seq<AggregatorEvent<P, K, E>>,
    actions: Seq<AggregatorAction<P, K, E>>,
    i: int,
    reason: String,
)
    requires
        is_run(states, events, actions),
        0 <= i,
        i + 1 < events.len(),
        events[i] == AggregatorEvent::<P, K, E>::NotProved(reason),
        events[i + 1] !is Failed,
    ensures
        ({
            &&& states[i] matches Aggregator::Outcome { block_number }
            &&& actions[i] matches AggregatorAction::RecordFailure(failure)
            &&& records_failure(block_number, reason, failure)
        }),
        actions[i + 1] == AggregatorAction::<P, K, E>::ReceiveInput,
        states[i + 2] == Aggregator::<P, K>::Input,
{
    assert(states[i].awaits(events[i]));
    assert(aggregates(states[i], events[i], states[i + 1], actions[i]));
    assert(states[i + 1].awaits(events[i + 1]));
    assert(aggregates(states[i + 1], events[i + 1], states[i + 1 + 1], actions[i + 1]));
}

/// A step that fails ends the aggregator with that error: it takes no further
/// input, and nothing was handed over for the block that it was at, unless it
/// is the hand-over itself that failed. Where the announcement failed, nothing
/// was proved or written.
pub proof fn law_a_failed_step_ends_the_aggregator<P, K, E>(
    states: Seq<Aggregator<P, K>>,
    events: Seq<AggregatorEvent<P, K, E>>,
    actions: Seq<AggregatorAction<P, K, E>>,
    i: int,
    error: E,
)
    requires
        is_run(states, events, actions),
        0 <= i < events.len(),
        events[i] == AggregatorEvent::<P, K, E>::Failed(error),
    ensures
        i == events.len() - 1,
        states.last() == Aggregator::<P, K>::Stopped,
        actions.last() == AggregatorAction::<P, K, E>::Fail(error),
        ({
            let start = i - steps_since_input(states[i]);
            &&& 0 <= start < i
            &&& events[start] matches AggregatorEvent::Input(Some(_))
            &&& forall|j: int|
                start <= j < i ==> (#[trigger] actions[j] is HandOver ==> j == i - 1 && states[i]
                    is HandOver)
            &&& states[i] is Announcement ==> start == i - 1 && actions[i - 1] is Announce
        }),
{
    lemma_round_so_far(states, events, actions, i);
    assert(states[i].awaits(events[i]));
    assert(aggregates(states[i], events[i], states[i + 1], actions[i]));
    if i + 1 < events.len() {
        assert(states[i + 1].awaits(events[i + 1]));
    }
}

/// When the inputs end, the aggregator stops without an error.
pub proof fn law_the_aggregator_stops_with_its_input<P, K, E>(
    states: Seq<Aggregator<P, K>>,
    events: Seq<AggregatorEvent<P, K, E>>,
    actions: Seq<AggregatorAction<P, K, E>>,
    i: int,
)
    requires
        is_run(states, events, actions),
        0 <= i < events.len(),
        events[i] == AggregatorEvent::<P, K, E>::Input(None),
    ensures
        i == events.len() - 1,
        states.last() == Aggregator::<P, K>::Stopped,
        actions.last() == AggregatorAction::<P, K, E>::Stop,
{
    assert(states[i].awaits(events[i]));
    assert(aggregates(states[i], events[i], states[i + 1], actions[i]));
    if i + 1 < events.len() {
        assert(states[i + 1].awaits(events[i + 1]));
    }
}

/// The inputs that were taken by the first `n` events, in order.
pub open spec fn taken_inputs<P, K, E>(
    events: Seq<AggregatorEvent<P, K, E>>,
    n: int,
) -> Seq<AggregationInput<P, K>>
    decreases n,
{
    if n <= 0 {
        Seq::empty()
    } else {
        match events[n - 1] {
            AggregatorEvent::Input(Some(input)) => taken_inputs(events, n - 1).push(input),
            _ => taken_inputs(events, n - 1),
        }
    }
}

/// The blocks whose proofs were taken by the first `n` events, in order.
pub open spec fn taken<P, K, E>(events: Seq<AggregatorEvent<P, K, E>>, n: int) -> Seq<u64> {
    taken_inputs(events, n).map_values(|input: AggregationInput<P, K>| input.block_number)
}

/// The numbers that the first `n` actions announce, in order.
pub open spec fn announced<P, K, E>(actions: Seq<AggregatorAction<P, K, E>>, n: int) -> Seq<u64>
    decreases n,
{
    if n <= 0 {
        Seq::empty()
    } else {
        match actions[n - 1] {
            AggregatorAction::Announce(next) => announced(actions, n - 1).push(next),
            _ => announced(actions, n - 1),
        }
    }
}

/// The aggregates that came out of proving by the first `n` events, each with
/// the block whose proofs were taken last, in order.
pub open spec fn proved<P, K, E>(
    events: Seq<AggregatorEvent<P, K, E>>,
    n: int,
) -> Seq<(u64, ProofWithPublicValues<P>)>
    decreases n,
{
    if n <= 0 {
        Seq::empty()
    } else {
        match events[n - 1] {
            AggregatorEvent::Proved(_, aggregate) => proved(events, n - 1).push(
                (taken(events, n).last(), aggregate),
            ),
            _ => proved(events, n - 1),
        }
    }
}

/// Whether each of the aggregates that the first `n` events tell of could be
/// proved, in order.
pub open spec fn verdicts<P, K, E>(events: Seq<AggregatorEvent<P, K, E>>, n: int) -> Seq<bool>
    decreases n,
{
    if n <= 0 {
        Seq::empty()
    } else {
        match events[n - 1] {
            AggregatorEvent::Proved(_, _) => verdicts(events, n - 1).push(true),
            AggregatorEvent::NotProved(_) => verdicts(events, n - 1).push(false),
            _ => verdicts(events, n - 1),
        }
    }
}

/// The stored numbers of the blocks that the first `n` actions write a record
/// of, in order, each with whether it is the record of a success.
pub open spec fn recorded<P, K, E>(
    actions: Seq<AggregatorAction<P, K, E>>,
    n: int,
) -> Seq<(i64, bool)>
    decreases n,
{
    if n <= 0 {
        Seq::empty()
    } else {
        match actions[n - 1] {
            AggregatorAction::RecordSuccess(success) => recorded(actions, n - 1).push(
                (success.block_number, true),
            ),
            AggregatorAction::RecordFailure(failure) => recorded(actions, n - 1).push(
                (failure.block_number, false),
            ),
            _ => recorded(actions, n - 1),
        }
    }
}

/// The aggregates that the first `n` actions hand over, in order.
pub open spec fn handed_over<P, K, E>(
    actions: Seq<AggregatorAction<P, K, E>>,
    n: int,
) -> Seq<ProofWithPublicValues<P>>
    decreases n,
{
    if n <= 0 {
        Seq::empty()
    } else {
        match actions[n - 1] {
            AggregatorAction::HandOver(aggregate) => handed_over(actions, n - 1).push(aggregate),
            _ => handed_over(actions, n - 1),
        }
    }
}

proof fn lemma_taken_step<P, K, E>(events: Seq<AggregatorEvent<P, K, E>>, n: int)
    requires
        0 < n <= events.len(),
    ensures
        taken(events, n) == match events[n - 1] {
            AggregatorEvent::Input(Some(input)) => taken(events, n - 1).push(input.block_number),
            _ => taken(events, n - 1),
        },
{
    assert(taken(events, n) =~= match events[n - 1] {
        AggregatorEvent::Input(Some(input)) => taken(events, n - 1).push(input.block_number),
        _ => taken(events, n - 1),
    });
}

/// For every block whose proofs are taken, the number after it is announced,
/// once and in the same order.
pub proof fn law_every_block_announces_the_next<P, K, E>(
    states: Seq<Aggregator<P, K>>,
    events: Seq<AggregatorEvent<P, K, E>>,
    actions: Seq<AggregatorAction<P, K, E>>,
    n: int,
)
    requires
        is_run(states, events, actions),
        0 <= n <= events.len(),
    ensures
        announced(actions, n).len() == taken(events, n).len(),
        forall|i: int|
            0 <= i < announced(actions, n).len() ==> #[trigger] announced(actions, n)[i] == taken(
                events,
                n,
            )[i] + 1,
    decreases n,
{
    if n > 0 {
        law_every_block_announces_the_next(states, events, actions, n - 1);
        lemma_taken_step(events, n);
        assert(states[n - 1].awaits(events[n - 1]));
        assert(aggregates(states[n - 1], events[n - 1], states[n - 1 + 1], actions[n - 1]));
    }
}

/// Whether the aggregator is at a block of which it does not know yet whether
/// it can be proved.
pub open spec fn is_undecided<P, K>(state: Aggregator<P, K>) -> bool {
    state is Announcement || state is Outcome
}

/// Whether the aggregator has proved an aggregate and not handed it over yet.
pub open spec fn is_storing<P, K>(state: Aggregator<P, K>) -> bool {
    state is Success || state is Key
}

/// The block that the aggregator is at.
spec fn is_at<P, K>(state: Aggregator<P, K>, block_number: u64) -> bool {
    match state {
        Aggregator::Announcement { block_number: b, .. } => b == block_number,
        Aggregator::Outcome { block_number: b } => b == block_number,
        Aggregator::Success { block_number: b, .. } => b == block_number,
        Aggregator::Key { block_number: b, .. } => b == block_number,
        Aggregator::HandOver { block_number: b } => b == block_number,
        Aggregator::Failure { block_number: b } => b == block_number,
        _ => true,
    }
}

/// Those of the numbers that go with a `true`, in order.
pub open spec fn selected(numbers: Seq<u64>, known: Seq<bool>) -> Seq<u64>
    decreases known.len(),
{
    if known.len() == 0 {
        Seq::empty()
    } else {
        let before = selected(numbers, known.drop_last());
        if known.last() {
            before.push(numbers[known.len() - 1])
        } else {
            before
        }
    }
}

proof fn lemma_selected_push(numbers: Seq<u64>, number: u64, known: Seq<bool>)
    requires
        known.len() <= numbers.len(),
    ensures
        selected(numbers.push(number), known) == selected(numbers, known),
    decreases known.len(),
{
    if known.len() > 0 {
        lemma_selected_push(numbers, number, known.drop_last());
    }
}

/// The blocks that the aggregates are of.
pub open spec fn blocks_of<P>(aggregates: Seq<(u64, ProofWithPublicValues<P>)>) -> Seq<u64> {
    aggregates.map_values(|aggregate: (u64, ProofWithPublicValues<P>)| aggregate.0)
}

/// What was proved, recorded and handed over when the aggregator stands at `state`.
spec fn accounts<P, K, E>(
    events: Seq<AggregatorEvent<P, K, E>>,
    actions: Seq<AggregatorAction<P, K, E>>,
    state: Aggregator<P, K>,
    n: int,
) -> bool {
    let numbers = taken(events, n);
    let aggregates = proved(events, n);
    let given = handed_over(actions, n);
    let known = verdicts(events, n);
    let rows = recorded(actions, n);
    &&& state is Input || state is Stopped || (numbers.len() > 0 && is_at(state, numbers.last()))
    &&& known.len() <= numbers.len() <= known.len() + 1
    &&& state !is Stopped ==> numbers.len() == known.len() + if is_undecided(state) {
        1int
    } else {
        0int
    }
    &&& rows.len() == known.len()
    &&& forall|i: int|
        0 <= i < rows.len() ==> (#[trigger] rows[i]).0 == stored(numbers[i]) && rows[i].1
            == known[i]
    &&& given.len() <= aggregates.len() <= given.len() + 1
    &&& state !is Stopped ==> aggregates.len() == given.len() + if is_storing(state) {
        1int
    } else {
        0int
    }
    &&& forall|i: int| 0 <= i < given.len() ==> #[trigger] given[i] == aggregates[i].1
    &&& match state {
        Aggregator::Success { aggregate, .. } => aggregates.last() == (numbers.last(), aggregate),
        Aggregator::Key { aggregate, .. } => aggregates.last() == (numbers.last(), aggregate),
        Aggregator::Stopped => n > 0 && (events[n - 1] !is Failed ==> {
            &&& numbers.len() == known.len()
            &&& aggregates.len() == given.len()
        }),
        _ => true,
    }
    &&& blocks_of(aggregates) == selected(numbers, known)
    &&& aggregates.len() <= known.len()
    &&& aggregates.len() == known.len() ==> forall|i: int|
        0 <= i < aggregates.len() ==> (#[trigger] aggregates[i]).0 == numbers[i]
}

proof fn lemma_accounts<P, K, E>(
    states: Seq<Aggregator<P, K>>,
    events: Seq<AggregatorEvent<P, K, E>>,
    actions: Seq<AggregatorAction<P, K, E>>,
    n: int,
)
    requires
        is_run(states, events, actions),
        0 <= n <= events.len(),
    ensures
        accounts(events, actions, states[n], n),
    decreases n,
{
    if n > 0 {
        lemma_accounts(states, events, actions, n - 1);
        lemma_taken_step(events, n);
        assert(states[n - 1].awaits(events[n - 1]));
        assert(aggregates(states[n - 1], events[n - 1], states[n - 1 + 1], actions[n - 1]));
        let known = verdicts(events, n - 1);
        match events[n - 1] {
            AggregatorEvent::Input(Some(input)) => {
                lemma_selected_push(taken(events, n - 1), input.block_number, known);
            },
            AggregatorEvent::Proved(_, _) => {
                assert(known.push(true).drop_last() =~= known);
                assert(blocks_of(proved(events, n)) =~= blocks_of(proved(events, n - 1)).push(
                    taken(events, n).last(),
                ));
            },
            AggregatorEvent::NotProved(_) => {
                assert(known.push(false).drop_last() =~= known);
            },
            _ => {},
        }
    } else {
        assert(blocks_of(proved(events, n)) =~= Seq::empty());
    }
}

/// Whether nothing is left to be done for the inputs that were taken by the
/// first `n` events.
pub open spec fn is_at_rest<P, K, E>(
    states: Seq<Aggregator<P, K>>,
    events: Seq<AggregatorEvent<P, K, E>>,
    n: int,
) -> bool {
    states[n] is Input || (n > 0 && events[n - 1] matches AggregatorEvent::Input(None))
}

/// Exactly the aggregates that were proved are handed over, in the order in
/// which they were proved, whichever others could not be proved. Only the last
/// one may be still to come, while it is written, or not come at all, where
/// writing it has failed.
pub proof fn law_exactly_the_proved_aggregates_are_handed_over<P, K, E>(
    states: Seq<Aggregator<P, K>>,
    events: Seq<AggregatorEvent<P, K, E>>,
    actions: Seq<AggregatorAction<P, K, E>>,
    n: int,
)
    requires
        is_run(states, events, actions),
        0 <= n <= events.len(),
    ensures
        ({
            let aggregates = proved(events, n);
            let given = handed_over(actions, n);
            &&& given.len() <= aggregates.len() <= given.len() + 1
            &&& forall|i: int| 0 <= i < given.len() ==> #[trigger] given[i] == aggregates[i].1
            &&& is_at_rest(states, events, n) ==> given.len() == aggregates.len()
            &&& states[n] !is Stopped ==> (aggregates.len() == given.len() + 1 <==> is_storing(
                states[n],
            ))
        }),
{
    lemma_accounts(states, events, actions, n);
}

/// Every block whose proofs are taken gets exactly one record, in the order of
/// the blocks: that of a success where it was proved, and that of a failure
/// where it was not. Only the last block may be without one, while it is not
/// known whether it can be proved, or where its announcement has failed.
pub proof fn law_every_block_gets_one_record<P, K, E>(
    states: Seq<Aggregator<P, K>>,
    events: Seq<AggregatorEvent<P, K, E>>,
    actions: Seq<AggregatorAction<P, K, E>>,
    n: int,
)
    requires
        is_run(states, events, actions),
        0 <= n <= events.len(),
    ensures
        ({
            let numbers = taken(events, n);
            let known = verdicts(events, n);
            let rows = recorded(actions, n);
            &&& rows.len() == known.len()
            &&& rows.len() <= numbers.len() <= rows.len() + 1
            &&& forall|i: int|
                0 <= i < rows.len() ==> (#[trigger] rows[i]).0 == stored(numbers[i]) && rows[i].1
                    == known[i]
            &&& is_at_rest(states, events, n) ==> rows.len() == numbers.len()
            &&& states[n] !is Stopped ==> (numbers.len() == rows.len() + 1 <==> is_undecided(
                states[n],
            ))
        }),
{
    lemma_accounts(states, events, actions, n);
}

/// The aggregates are those of the inputs that could be proved, in the order of
/// the inputs. So where there is one for every input, none was left out.
pub proof fn law_aggregates_are_proved_in_order<P, K, E>(
    states: Seq<Aggregator<P, K>>,
    events: Seq<AggregatorEvent<P, K, E>>,
    actions: Seq<AggregatorAction<P, K, E>>,
    n: int,
)
    requires
        is_run(states, events, actions),
        0 <= n <= events.len(),
    ensures
        ({
            let numbers = taken(events, n);
            let aggregates = proved(events, n);
            &&& blocks_of(aggregates) == selected(numbers, verdicts(events, n))
            &&& aggregates.len() <= numbers.len()
            &&& aggregates.len() == numbers.len() ==> forall|i: int|
                0 <= i < aggregates.len() ==> (#[trigger] aggregates[i]).0 == numbers[i]
        }),
{
    lemma_accounts(states, events, actions, n);
}

/// Whether the event `j` is that the aggregate of `block_number` was proved.
pub open spec fn proves_at<P, K, E>(
    events: Seq<AggregatorEvent<P, K, E>>,
    j: int,
    block_number: u64,
    aggregate: ProofWithPublicValues<P>,
) -> bool {
    &&& 0 <= j < events.len()
    &&& events[j] matches AggregatorEvent::Proved(_, proved)
    &&& proved == aggregate
    &&& taken(events, j).len() > 0
    &&& taken(events, j).last() == block_number
}

/// Every aggregate among those proved came out of proving at some event, for
/// the block that it stands with.
pub proof fn law_what_is_proved_was_proved_at_an_event<P, K, E>(
    states: Seq<Aggregator<P, K>>,
    events: Seq<AggregatorEvent<P, K, E>>,
    actions: Seq<AggregatorAction<P, K, E>>,
    n: int,
    i: int,
)
    requires
        is_run(states, events, actions),
        0 <= n <= events.len(),
        0 <= i < proved(events, n).len(),
    ensures
        exists|j: int|
            0 <= j < n && #[trigger] proves_at(
                events,
                j,
                proved(events, n)[i].0,
                proved(events, n)[i].1,
            ),
    decreases n,
{
    if n > 0 {
        lemma_taken_step(events, n);
        if i < proved(events, n - 1).len() {
            law_what_is_proved_was_proved_at_an_event(states, events, actions, n - 1, i);
            let j = choose|j: int|
                0 <= j < n - 1 && #[trigger] proves_at(
                    events,
                    j,
                    proved(events, n - 1)[i].0,
                    proved(events, n - 1)[i].1,
                );
            assert(proves_at(events, j, proved(events, n)[i].0, proved(events, n)[i].1));
        } else {
            lemma_accounts(states, events, actions, n - 1);
            assert(states[n - 1].awaits(events[n - 1]));
            assert(proves_at(events, n - 1, proved(events, n)[i].0, proved(events, n)[i].1));
        }
    }
}

/// What is handed to the prover are the two proofs of the input that was taken last.
pub proof fn law_the_proofs_of_the_last_input_are_proved<P, K, E>(
    states: Seq<Aggregator<P, K>>,
    events: Seq<AggregatorEvent<P, K, E>>,
    actions: Seq<AggregatorAction<P, K, E>>,
    j: int,
    proofs: Vec<Proof<P, K>>,
)
    requires
        is_run(states, events, actions),
        0 <= j < actions.len(),
        actions[j] == AggregatorAction::<P, K, E>::Prove(proofs),
    ensures
        j > 0,
        events[j - 1] is Input,
        taken_inputs(events, j).len() > 0,
        taken_inputs(events, j + 1) == taken_inputs(events, j),
        proofs@ == seq![
            taken_inputs(events, j).last().first,
            taken_inputs(events, j).last().second,
        ],
{
    lemma_round_so_far(states, events, actions, j);
    assert(states[j].awaits(events[j]));
    assert(aggregates(states[j], events[j], states[j + 1], actions[j]));
}

/// What the aggregator does after each step, in terms of what its steps brought
/// before. An input leads to the announcement of the number after its block,
/// that to proving its two proofs in their order; an aggregate to its record as
/// proved under the number of the block, that to the record of its key, and that
/// to the aggregate being handed over as it was proved; and an aggregate that
/// could not be proved to its record as failed under the number of the block.
pub proof fn law_what_the_aggregator_does_next<P, K, E>(
    states: Seq<Aggregator<P, K>>,
    events: Seq<AggregatorEvent<P, K, E>>,
    actions: Seq<AggregatorAction<P, K, E>>,
    i: int,
)
    requires
        is_run(states, events, actions),
        0 <= i < events.len(),
    ensures
        match events[i] {
            AggregatorEvent::Input(None) => actions[i] == AggregatorAction::<P, K, E>::Stop,
            AggregatorEvent::Input(Some(input)) => {
                &&& actions[i] matches AggregatorAction::Announce(next)
                &&& next == input.block_number + 1
            },
            AggregatorEvent::Announced => {
                &&& i >= 1
                &&& events[i - 1] matches AggregatorEvent::Input(Some(input))
                &&& actions[i] matches AggregatorAction::Prove(proofs)
                &&& proofs@.len() == 2
                &&& proofs@[0] == input.first
                &&& proofs@[1] == input.second
            },
            AggregatorEvent::Proved(outcome, _) => {
                &&& i >= 2
                &&& events[i - 2] matches AggregatorEvent::Input(Some(input))
                &&& events[i - 1] is Announced
                &&& actions[i] matches AggregatorAction::RecordSuccess(success)
                &&& success.status@ == "proved"@
                &&& success.block_number == input.block_number || success.block_number
                    == input.block_number - 0x1_0000_0000_0000_0000
                &&& success.proving_millis == outcome.proving_millis
                &&& success.instruction_count == outcome.instruction_count
                    || success.instruction_count == outcome.instruction_count
                    - 0x1_0000_0000_0000_0000
                &&& success.proof@ == outcome.proof@
                &&& success.public_values@ == outcome.public_values@
                &&& success.vk_id@ == outcome.vk_id@
            },
            AggregatorEvent::NotProved(reason) => {
                &&& i >= 2
                &&& events[i - 2] matches AggregatorEvent::Input(Some(input))
                &&& events[i - 1] is Announced
                &&& actions[i] matches AggregatorAction::RecordFailure(failure)
                &&& failure.status@ == "failed"@
                &&& failure.block_number == input.block_number || failure.block_number
                    == input.block_number - 0x1_0000_0000_0000_0000
                &&& failure.reason@ == reason@
            },
            AggregatorEvent::SuccessRecorded => {
                &&& i >= 1
                &&& events[i - 1] matches AggregatorEvent::Proved(outcome, _)
                &&& actions[i] matches AggregatorAction::RecordKey(key)
                &&& key.id@ == outcome.vk_id@
                &&& key.key@ == outcome.vk@
            },
            AggregatorEvent::KeyRecorded => {
                &&& i >= 2
                &&& events[i - 2] matches AggregatorEvent::Proved(_, aggregate)
                &&& events[i - 1] is SuccessRecorded
                &&& actions[i] == AggregatorAction::<P, K, E>::HandOver(aggregate)
            },
            AggregatorEvent::HandedOver => actions[i] == AggregatorAction::<
                P,
                K,
                E,
            >::ReceiveInput,
            AggregatorEvent::FailureRecorded => actions[i] == AggregatorAction::<
                P,
                K,
                E,
            >::ReceiveInput,
            AggregatorEvent::Failed(error) => actions[i] == AggregatorAction::<P, K, E>::Fail(
                error,
            ),
        },
{
    lemma_round_so_far(states, events, actions, i);
    assert(states[i].awaits(events[i]));
    assert(aggregates(states[i], events[i], states[i + 1], actions[i]));
}

/// The aggregator takes whatever can come of the step that it asked for, and a
/// failure in its place where that step is not the proving itself. Only the
/// largest number there is leads no further, as none comes after it; and once
/// the aggregator has ended it takes nothing.
pub proof fn law_the_aggregator_takes_every_outcome<P, K, E>(
    states: Seq<Aggregator<P, K>>,
    events: Seq<AggregatorEvent<P, K, E>>,
    actions: Seq<AggregatorAction<P, K, E>>,
    input: AggregationInput<P, K>,
    outcome: AggregationOutcome,
    aggregate: ProofWithPublicValues<P>,
    reason: String,
    error: E,
)
    requires
        is_run(states, events, actions),
    ensures
        actions.len() == 0 || actions.last() is ReceiveInput ==> {
            &&& states.last().awaits(AggregatorEvent::<P, K, E>::Input(None))
            &&& states.last().awaits(AggregatorEvent::<P, K, E>::Input(Some(input)))
                <==> input.block_number < u64::MAX
        },
        actions.len() > 0 && actions.last() is Announce ==> {
            &&& states.last().awaits(AggregatorEvent::<P, K, E>::Announced)
            &&& states.last().awaits(AggregatorEvent::<P, K, E>::Failed(error))
        },
        actions.len() > 0 && actions.last() is Prove ==> {
            &&& states.last().awaits(AggregatorEvent::<P, K, E>::Proved(outcome, aggregate))
            &&& states.last().awaits(AggregatorEvent::<P, K, E>::NotProved(reason))
        },
        actions.len() > 0 && actions.last() is RecordSuccess ==> {
            &&& states.last().awaits(AggregatorEvent::<P, K, E>::SuccessRecorded)
            &&& states.last().awaits(AggregatorEvent::<P, K, E>::Failed(error))
        },
        actions.len() > 0 && actions.last() is RecordKey ==> {
            &&& states.last().awaits(AggregatorEvent::<P, K, E>::KeyRecorded)
            &&& states.last().awaits(AggregatorEvent::<P, K, E>::Failed(error))
        },
        actions.len() > 0 && actions.last() is HandOver ==> {
            &&& states.last().awaits(AggregatorEvent::<P, K, E>::HandedOver)
            &&& states.last().awaits(AggregatorEvent::<P, K, E>::Failed(error))
        },
        actions.len() > 0 && actions.last() is RecordFailure ==> {
            &&& states.last().awaits(AggregatorEvent::<P, K, E>::FailureRecorded)
            &&& states.last().awaits(AggregatorEvent::<P, K, E>::Failed(error))
        },
        actions.len() > 0 && (actions.last() is Stop || actions.last() is Fail) ==> {
            &&& !states.last().awaits(AggregatorEvent::<P, K, E>::Input(None))
            &&& !states.last().awaits(AggregatorEvent::<P, K, E>::Failed(error))
        },
{
    let n = events.len() as int;
    if n > 0 {
        assert(states[n - 1].awaits(events[n - 1]));
        assert(aggregates(states[n - 1], events[n - 1], states[n - 1 + 1], actions[n - 1]));
    }
}

} // verus!
