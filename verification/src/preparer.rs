//! The worker that gathers the proofs of one aggregate after the other.
//!
//! [`Preparer`] is where it stands, [`PreparerEvent`] what came of its last step
//! and [`PreparerAction`] its next one. Each action is one thing that is done
//! outside, and the next one follows only when that has succeeded.

use vstd::prelude::*;

use crate::aggregation::{sources, AggregationInput, ProofSource};
use crate::db::{on_aggregation_start, queues, stored, AggregationTask};
use crate::loading::{law_a_loaded_proof_carries_its_number, loads, LoadRequest};
use crate::zk::{Proof, ProofWithPublicValues, VerifyingKey};

verus! {

/// Where the preparer stands, named after what it waits for.
#[derive(Debug)]
pub enum Preparer<P, K> {
    /// The number of a block. `restart` says that none was prepared yet, so that
    /// the aggregator has nothing to hand back.
    Number { restart: bool },
    /// That the row of the block is made.
    Task { restart: bool, block_number: u64 },
    /// The first proof.
    First { block_number: u64, second: ProofSource },
    /// The second proof, from this source.
    Second { block_number: u64, second: ProofSource, first: Proof<P, K> },
    /// That the proofs are handed over.
    Delivery { block_number: u64 },
    Stopped,
}

/// What came of the preparer's last step.
#[derive(Debug)]
pub enum PreparerEvent<P, K, E> {
    /// The number of a block, or `None` when no more will come.
    Number(Option<u64>),
    /// The row was made.
    TaskCreated,
    /// The proof that was loaded.
    Loaded(Proof<P, K>),
    /// The aggregate that the aggregator handed back, and the key that verifies it.
    Received(ProofWithPublicValues<P>, VerifyingKey<K>),
    /// The proofs were handed over.
    Delivered,
    /// The step failed.
    Failed(E),
}

/// What the preparer does next.
#[derive(Debug)]
pub enum PreparerAction<P, K, E> {
    /// Take the number of a block.
    ReceiveNumber,
    /// Make the row of the block.
    CreateTask(AggregationTask),
    /// Load a proof from the store.
    LoadProof(LoadRequest),
    /// Take the aggregate that the aggregator hands back.
    ReceiveAggregate,
    /// Hand the proofs to the aggregator.
    Deliver(AggregationInput<P, K>),
    /// All is done.
    Stop,
    /// The preparer ends with this error.
    Fail(E),
}

impl<P, K> Preparer<P, K> {
    /// Whether `event` can come of the preparer's last step. Aggregation begins
    /// with the second block: nothing follows the row of a block before it.
    pub open spec fn awaits<E>(self, event: PreparerEvent<P, K, E>) -> bool {
        match (self, event) {
            (Preparer::Number { .. }, PreparerEvent::Number(_)) => true,
            (Preparer::Number { .. }, _) => false,
            (Preparer::Stopped, _) => false,
            (_, PreparerEvent::Failed(_)) => true,
            (Preparer::Task { block_number, .. }, PreparerEvent::TaskCreated) => block_number >= 2,
            (Preparer::First { .. }, PreparerEvent::Loaded(_)) => true,
            (Preparer::Second { second, .. }, PreparerEvent::Loaded(_)) => second
                !is ReceivedAggregate,
            (Preparer::Second { second, .. }, PreparerEvent::Received(_, _)) => second
                is ReceivedAggregate,
            (Preparer::Delivery { .. }, PreparerEvent::Delivered) => true,
            _ => false,
        }
    }

    /// Whether the event can come of the preparer's last step.
    pub fn is_awaiting<E>(&self, event: &PreparerEvent<P, K, E>) -> (r: bool)
        ensures
            r == self.awaits(*event),
    {
        match (self, event) {
            (Preparer::Number { .. }, PreparerEvent::Number(_)) => true,
            (Preparer::Number { .. }, _) => false,
            (Preparer::Stopped, _) => false,
            (_, PreparerEvent::Failed(_)) => true,
            (Preparer::Task { block_number, .. }, PreparerEvent::TaskCreated) => *block_number
                >= 2,
            (Preparer::First { .. }, PreparerEvent::Loaded(_)) => true,
            (Preparer::Second { second, .. }, PreparerEvent::Loaded(_)) => match second {
                ProofSource::ReceivedAggregate(_) => false,
                _ => true,
            },
            (Preparer::Second { second, .. }, PreparerEvent::Received(_, _)) => match second {
                ProofSource::ReceivedAggregate(_) => true,
                _ => false,
            },
            (Preparer::Delivery { .. }, PreparerEvent::Delivered) => true,
            _ => false,
        }
    }

    /// A preparer that has not prepared a block yet.
    pub fn new() -> (r: Preparer<P, K>)
        ensures
            r == (Preparer::<P, K>::Number { restart: true }),
    {
        Preparer::Number { restart: true }
    }
}

/// How a proof is got from its source.
pub open spec fn getting<P, K, E>(source: ProofSource) -> PreparerAction<P, K, E> {
    match source {
        ProofSource::Block(block_number) => PreparerAction::LoadProof(
            LoadRequest { block_number, is_aggregate: false },
        ),
        ProofSource::StoredAggregate(block_number) => PreparerAction::LoadProof(
            LoadRequest { block_number, is_aggregate: true },
        ),
        ProofSource::ReceivedAggregate(_) => PreparerAction::ReceiveAggregate,
    }
}

/// The step that gets a proof from its source.
pub fn get_proof<P, K, E>(source: ProofSource) -> (r: PreparerAction<P, K, E>)
    ensures
        match source {
            ProofSource::Block(block_number) => r == PreparerAction::<P, K, E>::LoadProof(
                LoadRequest { block_number, is_aggregate: false },
            ),
            ProofSource::StoredAggregate(block_number) => r == PreparerAction::<
                P,
                K,
                E,
            >::LoadProof(LoadRequest { block_number, is_aggregate: true }),
            ProofSource::ReceivedAggregate(_) => r == PreparerAction::<P, K, E>::ReceiveAggregate,
        },
        r == getting::<P, K, E>(source),
{
    match source {
        ProofSource::Block(block_number) => PreparerAction::LoadProof(
            LoadRequest { block_number, is_aggregate: false },
        ),
        ProofSource::StoredAggregate(block_number) => PreparerAction::LoadProof(
            LoadRequest { block_number, is_aggregate: true },
        ),
        ProofSource::ReceivedAggregate(_) => PreparerAction::ReceiveAggregate,
    }
}

/// The aggregate of all blocks up to `block_number`, as the aggregator hands it
/// back, in the form in which the next aggregate takes it.
pub fn received_proof<P, K>(
    block_number: u64,
    aggregate: ProofWithPublicValues<P>,
    vk: VerifyingKey<K>,
) -> (r: Proof<P, K>)
    ensures
        r.block_number == block_number,
        r.proof == aggregate.proof,
        r.public_values == aggregate.public_values,
        r.vk == vk,
{
    Proof { block_number, proof: aggregate.proof, public_values: aggregate.public_values, vk }
}

/// What the preparer does with what came of its last step.
pub open spec fn prepares<P, K, E>(
    before: Preparer<P, K>,
    event: PreparerEvent<P, K, E>,
    after: Preparer<P, K>,
    action: PreparerAction<P, K, E>,
) -> bool {
    match (before, event) {
        (_, PreparerEvent::Failed(error)) => {
            &&& after == Preparer::<P, K>::Stopped
            &&& action == PreparerAction::<P, K, E>::Fail(error)
        },
        (Preparer::Number { .. }, PreparerEvent::Number(None)) => {
            &&& after == Preparer::<P, K>::Stopped
            &&& action == PreparerAction::<P, K, E>::Stop
        },
        (Preparer::Number { restart }, PreparerEvent::Number(Some(block_number))) => {
            &&& after == Preparer::<P, K>::Task { restart, block_number }
            &&& action matches PreparerAction::CreateTask(task)
            &&& queues(block_number, task)
        },
        (Preparer::Task { restart, block_number }, PreparerEvent::TaskCreated) => {
            &&& after == Preparer::<P, K>::First {
                block_number,
                second: sources(restart, block_number).1,
            }
            &&& action == getting::<P, K, E>(sources(restart, block_number).0)
        },
        (Preparer::First { block_number, second }, PreparerEvent::Loaded(first)) => {
            &&& after == Preparer::Second { block_number, second, first }
            &&& action == getting::<P, K, E>(second)
        },
        (Preparer::Second { block_number, second: _, first }, PreparerEvent::Loaded(proof)) => {
            &&& after == Preparer::<P, K>::Delivery { block_number }
            &&& action == PreparerAction::<P, K, E>::Deliver(
                AggregationInput { block_number, first, second: proof },
            )
        },
        (
            Preparer::Second {
                block_number,
                second: ProofSource::ReceivedAggregate(aggregated),
                first,
            },
            PreparerEvent::Received(aggregate, vk),
        ) => {
            &&& after == Preparer::<P, K>::Delivery { block_number }
            &&& action == PreparerAction::<P, K, E>::Deliver(
                AggregationInput {
                    block_number,
                    first,
                    second: Proof {
                        block_number: aggregated,
                        proof: aggregate.proof,
                        public_values: aggregate.public_values,
                        vk,
                    },
                },
            )
        },
        (Preparer::Delivery { .. }, PreparerEvent::Delivered) => {
            &&& after == Preparer::<P, K>::Number { restart: false }
            &&& action == PreparerAction::<P, K, E>::ReceiveNumber
        },
        _ => false,
    }
}

/// Takes the work of the preparer one step further.
pub fn data_preparer<P, K, E>(state: Preparer<P, K>, event: PreparerEvent<P, K, E>) -> (r: (
    Preparer<P, K>,
    PreparerAction<P, K, E>,
))
    requires
        state.awaits(event),
    ensures
        prepares(state, event, r.0, r.1),
{
    match (state, event) {
        (_, PreparerEvent::Failed(error)) => (Preparer::Stopped, PreparerAction::Fail(error)),
        (Preparer::Number { .. }, PreparerEvent::Number(None)) => (
            Preparer::Stopped,
            PreparerAction::Stop,
        ),
        (Preparer::Number { restart }, PreparerEvent::Number(Some(block_number))) => {
            let task = on_aggregation_start(block_number);
            (Preparer::Task { restart, block_number }, PreparerAction::CreateTask(task))
        },
        (Preparer::Task { restart, block_number }, PreparerEvent::TaskCreated) => {
            let (first, second): (ProofSource, ProofSource) = if block_number == 2 {
                (ProofSource::Block(1), ProofSource::Block(2))
            } else if restart {
                (
                    ProofSource::Block(block_number),
                    ProofSource::StoredAggregate(block_number - 1),
                )
            } else {
                (
                    ProofSource::Block(block_number),
                    ProofSource::ReceivedAggregate(block_number - 1),
                )
            };
            (Preparer::First { block_number, second }, get_proof(first))
        },
        (Preparer::First { block_number, second }, PreparerEvent::Loaded(first)) => (
            Preparer::Second { block_number, second, first },
            get_proof(second),
        ),
        (Preparer::Second { block_number, second: _, first }, PreparerEvent::Loaded(proof)) => {
            let input = AggregationInput { block_number, first, second: proof };
            (Preparer::Delivery { block_number }, PreparerAction::Deliver(input))
        },
        (
            Preparer::Second {
                block_number,
                second: ProofSource::ReceivedAggregate(aggregated),
                first,
            },
            PreparerEvent::Received(aggregate, vk),
        ) => {
            let second = received_proof(aggregated, aggregate, vk);
            let input = AggregationInput { block_number, first, second };
            (Preparer::Delivery { block_number }, PreparerAction::Deliver(input))
        },
        (Preparer::Delivery { .. }, PreparerEvent::Delivered) => (
            Preparer::Number { restart: false },
            PreparerAction::ReceiveNumber,
        ),
        _ => vstd::pervasive::unreached(),
    }
}

/// Whether a new preparer may go through `states` where `events` came of its
/// steps and `actions[i]` is the step that follows `events[i]`.
pub open spec fn is_run<P, K, E>(
    states: Seq<Preparer<P, K>>,
    events: Seq<PreparerEvent<P, K, E>>,
    actions: Seq<PreparerAction<P, K, E>>,
) -> bool {
    &&& states.len() == events.len() + 1
    &&& actions.len() == events.len()
    &&& states[0] == Preparer::<P, K>::Number { restart: true }
    &&& forall|i: int|
        0 <= i < events.len() ==> {
            &&& states[i].awaits(#[trigger] events[i])
            &&& prepares(states[i], events[i], states[i + 1], actions[i])
        }
}

/// The numbers that were taken by the first `n` events, in order.
pub open spec fn taken<P, K, E>(events: Seq<PreparerEvent<P, K, E>>, n: int) -> Seq<u64>
    decreases n,
{
    if n <= 0 {
        Seq::empty()
    } else {
        match events[n - 1] {
            PreparerEvent::Number(Some(block_number)) => taken(events, n - 1).push(block_number),
            _ => taken(events, n - 1),
        }
    }
}

/// The stored numbers of the rows that the first `n` actions make, in order.
pub open spec fn queued<P, K, E>(actions: Seq<PreparerAction<P, K, E>>, n: int) -> Seq<i64>
    decreases n,
{
    if n <= 0 {
        Seq::empty()
    } else {
        match actions[n - 1] {
            PreparerAction::CreateTask(task) => queued(actions, n - 1).push(task.block_number),
            _ => queued(actions, n - 1),
        }
    }
}

/// The blocks whose proofs were handed over by the first `n` events, in order.
pub open spec fn delivered<P, K, E>(
    events: Seq<PreparerEvent<P, K, E>>,
    actions: Seq<PreparerAction<P, K, E>>,
    n: int,
) -> Seq<u64>
    decreases n,
{
    if n <= 1 {
        Seq::empty()
    } else {
        match (actions[n - 2], events[n - 1]) {
            (PreparerAction::Deliver(input), PreparerEvent::Delivered) => delivered(
                events,
                actions,
                n - 1,
            ).push(input.block_number),
            _ => delivered(events, actions, n - 1),
        }
    }
}

/// What was taken, queued and handed over when the preparer stands at `state`.
spec fn reached<P, K, E>(
    events: Seq<PreparerEvent<P, K, E>>,
    actions: Seq<PreparerAction<P, K, E>>,
    state: Preparer<P, K>,
    n: int,
) -> bool {
    let numbers = taken(events, n);
    let rows = queued(actions, n);
    let done = delivered(events, actions, n);
    &&& rows.len() == numbers.len()
    &&& forall|i: int| 0 <= i < rows.len() ==> #[trigger] rows[i] == stored(numbers[i])
    &&& forall|i: int| 0 <= i < done.len() ==> #[trigger] done[i] >= 2
    &&& match state {
        Preparer::Number { restart } => done == numbers && restart == (numbers.len() == 0),
        Preparer::Task { restart, block_number } => {
            &&& pending(numbers, done, block_number)
            &&& restart == (numbers.len() == 1)
        },
        Preparer::First { block_number, second } => {
            &&& pending(numbers, done, block_number)
            &&& block_number >= 2
            &&& second == sources(numbers.len() == 1, block_number).1
        },
        Preparer::Second { block_number, second, .. } => {
            &&& pending(numbers, done, block_number)
            &&& block_number >= 2
            &&& second == sources(numbers.len() == 1, block_number).1
        },
        Preparer::Delivery { block_number } => {
            &&& pending(numbers, done, block_number)
            &&& block_number >= 2
            &&& n > 0
            &&& actions[n - 1] matches PreparerAction::Deliver(input)
            &&& input.block_number == block_number
        },
        Preparer::Stopped => {
            &&& n > 0
            &&& match events[n - 1] {
                PreparerEvent::Failed(_) => numbers.len() > 0 && done == numbers.drop_last(),
                _ => done == numbers,
            }
        },
    }
}

/// Whether all numbers but the last, which is `block_number`, are done.
spec fn pending(numbers: Seq<u64>, done: Seq<u64>, block_number: u64) -> bool {
    &&& numbers.len() > 0
    &&& numbers.last() == block_number
    &&& done == numbers.drop_last()
}

proof fn lemma_reached<P, K, E>(
    states: Seq<Preparer<P, K>>,
    events: Seq<PreparerEvent<P, K, E>>,
    actions: Seq<PreparerAction<P, K, E>>,
    n: int,
)
    requires
        is_run(states, events, actions),
        0 <= n <= events.len(),
    ensures
        reached(events, actions, states[n], n),
    decreases n,
{
    if n > 0 {
        lemma_reached(states, events, actions, n - 1);
        assert(states[n - 1].awaits(events[n - 1]));
        assert(prepares(states[n - 1], events[n - 1], states[n - 1 + 1], actions[n - 1]));
        let numbers = taken(events, n - 1);
        match events[n - 1] {
            PreparerEvent::Number(Some(block_number)) => {
                assert(numbers.push(block_number).drop_last() =~= numbers);
            },
            PreparerEvent::Delivered => {
                assert(numbers.drop_last().push(numbers.last()) =~= numbers);
            },
            _ => {},
        }
        assert(n == 1 ==> delivered(events, actions, n) =~= Seq::empty());
    }
}

/// The row of a block is asked for as soon as its number is taken, once for
/// each number and in the order of the numbers.
pub proof fn law_every_number_gets_one_row<P, K, E>(
    states: Seq<Preparer<P, K>>,
    events: Seq<PreparerEvent<P, K, E>>,
    actions: Seq<PreparerAction<P, K, E>>,
)
    requires
        is_run(states, events, actions),
    ensures
        ({
            let n = events.len() as int;
            &&& queued(actions, n).len() == taken(events, n).len()
            &&& forall|i: int|
                0 <= i < queued(actions, n).len() ==> #[trigger] queued(actions, n)[i] == stored(
                    taken(events, n)[i],
                )
        }),
{
    lemma_reached(states, events, actions, events.len() as int);
}

/// When the numbers end and nothing has failed, the preparer stops without an
/// error, and the proofs of every number that it took have been handed over, in
/// the order of the numbers. Where there was no number, nothing was done.
pub proof fn law_every_number_is_handed_over<P, K, E>(
    states: Seq<Preparer<P, K>>,
    events: Seq<PreparerEvent<P, K, E>>,
    actions: Seq<PreparerAction<P, K, E>>,
)
    requires
        is_run(states, events, actions),
        events.len() > 0,
        events.last() == PreparerEvent::<P, K, E>::Number(None),
    ensures
        actions.last() == PreparerAction::<P, K, E>::Stop,
        states.last() == Preparer::<P, K>::Stopped,
        ({
            let n = events.len() as int;
            &&& delivered(events, actions, n) == taken(events, n)
            &&& taken(events, n).len() == 0 ==> n == 1
        }),
{
    let n = events.len() as int;
    lemma_reached(states, events, actions, n);
    assert(states[n - 1].awaits(events[n - 1]));
    assert(prepares(states[n - 1], events[n - 1], states[n - 1 + 1], actions[n - 1]));
    if n > 1 {
        let first: int = 0;
        assert(states[first].awaits(events[first]));
        assert(prepares(states[first], events[first], states[first + 1], actions[first]));
        assert(states[first + 1].awaits(events[first + 1]));
        lemma_taken_grows(events, 1, n);
        assert(taken(events, 1).len() == 1) by {
            reveal_with_fuel(taken, 2);
        }
    }
}

proof fn lemma_taken_grows<P, K, E>(events: Seq<PreparerEvent<P, K, E>>, m: int, n: int)
    requires
        0 <= m <= n,
    ensures
        taken(events, m).len() <= taken(events, n).len(),
    decreases n,
{
    if m < n {
        lemma_taken_grows(events, m, n - 1);
    }
}

/// A step that fails ends the preparer with that error: it takes no further
/// number, nothing is handed over for the block that it was at, and what was
/// handed over for the blocks before it is what was taken.
pub proof fn law_a_failed_step_ends_the_preparer<P, K, E>(
    states: Seq<Preparer<P, K>>,
    events: Seq<PreparerEvent<P, K, E>>,
    actions: Seq<PreparerAction<P, K, E>>,
    i: int,
    error: E,
)
    requires
        is_run(states, events, actions),
        0 <= i < events.len(),
        events[i] == PreparerEvent::<P, K, E>::Failed(error),
    ensures
        i == events.len() - 1,
        states.last() == Preparer::<P, K>::Stopped,
        actions.last() == PreparerAction::<P, K, E>::Fail(error),
        ({
            let n = events.len() as int;
            &&& taken(events, n).len() > 0
            &&& delivered(events, actions, n) == taken(events, n).drop_last()
        }),
{
    assert(states[i].awaits(events[i]));
    assert(prepares(states[i], events[i], states[i + 1], actions[i]));
    if i + 1 < events.len() {
        assert(states[i + 1].awaits(events[i + 1]));
    }
    lemma_reached(states, events, actions, i + 1);
}

/// Whether the events and actions from `i` on take the number `block_number`
/// and make its row before anything else is done.
pub open spec fn begins_round<P, K, E>(
    events: Seq<PreparerEvent<P, K, E>>,
    actions: Seq<PreparerAction<P, K, E>>,
    i: int,
    block_number: u64,
) -> bool {
    &&& 0 <= i < events.len() - 1
    &&& events[i] == PreparerEvent::<P, K, E>::Number(Some(block_number))
    &&& actions[i] matches PreparerAction::CreateTask(task)
    &&& queues(block_number, task)
    &&& events[i + 1] == PreparerEvent::<P, K, E>::TaskCreated
}

/// What led the preparer to where it stands after `n` events.
spec fn round_so_far<P, K, E>(
    events: Seq<PreparerEvent<P, K, E>>,
    actions: Seq<PreparerAction<P, K, E>>,
    state: Preparer<P, K>,
    n: int,
) -> bool {
    let restart = taken(events, n).len() == 1;
    match state {
        Preparer::Task { block_number, .. } => {
            &&& n >= 1
            &&& events[n - 1] == PreparerEvent::<P, K, E>::Number(Some(block_number))
            &&& actions[n - 1] matches PreparerAction::CreateTask(task)
            &&& queues(block_number, task)
        },
        Preparer::First { block_number, .. } => {
            &&& n >= 2
            &&& begins_round(events, actions, n - 2, block_number)
            &&& actions[n - 1] == getting::<P, K, E>(sources(restart, block_number).0)
        },
        Preparer::Second { block_number, first, .. } => {
            &&& n >= 3
            &&& begins_round(events, actions, n - 3, block_number)
            &&& actions[n - 2] == getting::<P, K, E>(sources(restart, block_number).0)
            &&& events[n - 1] == PreparerEvent::<P, K, E>::Loaded(first)
            &&& actions[n - 1] == getting::<P, K, E>(sources(restart, block_number).1)
        },
        _ => true,
    }
}

proof fn lemma_round_so_far<P, K, E>(
    states: Seq<Preparer<P, K>>,
    events: Seq<PreparerEvent<P, K, E>>,
    actions: Seq<PreparerAction<P, K, E>>,
    n: int,
)
    requires
        is_run(states, events, actions),
        0 <= n <= events.len(),
    ensures
        round_so_far(events, actions, states[n], n),
    decreases n,
{
    if n > 0 {
        lemma_round_so_far(states, events, actions, n - 1);
        lemma_reached(states, events, actions, n - 1);
        lemma_reached(states, events, actions, n);
        assert(states[n - 1].awaits(events[n - 1]));
        assert(prepares(states[n - 1], events[n - 1], states[n - 1 + 1], actions[n - 1]));
    }
}

/// No proof is asked for before the row of its block has been made: between the
/// number and the first proof lies the row, and the second proof is asked for
/// only when the first is there.
pub proof fn law_the_row_comes_before_the_proofs<P, K, E>(
    states: Seq<Preparer<P, K>>,
    events: Seq<PreparerEvent<P, K, E>>,
    actions: Seq<PreparerAction<P, K, E>>,
    i: int,
)
    requires
        is_run(states, events, actions),
        0 <= i < actions.len(),
        actions[i] is LoadProof || actions[i] is ReceiveAggregate,
    ensures
        ({
            let block_number = taken(events, i + 1).last();
            &&& taken(events, i + 1).len() > 0
            &&& begins_round(events, actions, i - 1, block_number) || (begins_round(
                events,
                actions,
                i - 2,
                block_number,
            ) && events[i] is Loaded)
        }),
{
    lemma_round_so_far(states, events, actions, i + 1);
    lemma_reached(states, events, actions, i + 1);
    assert(states[i].awaits(events[i]));
    assert(prepares(states[i], events[i], states[i + 1], actions[i]));
}

/// What is handed over for a block is made of the two proofs that its aggregate
/// takes. They were asked for one after the other, after the row of the block
/// was made; and only for the first number after a restart may the aggregate
/// before the block come from the store.
pub proof fn law_an_input_is_made_of_the_proofs_asked_for<P, K, E>(
    states: Seq<Preparer<P, K>>,
    events: Seq<PreparerEvent<P, K, E>>,
    actions: Seq<PreparerAction<P, K, E>>,
    i: int,
    input: AggregationInput<P, K>,
)
    requires
        is_run(states, events, actions),
        0 <= i < actions.len(),
        actions[i] == PreparerAction::<P, K, E>::Deliver(input),
    ensures
        input.block_number >= 2,
        begins_round(events, actions, i - 3, input.block_number),
        ({
            let (first, second) = sources(taken(events, i + 1).len() == 1, input.block_number);
            &&& actions[i - 2] == getting::<P, K, E>(first)
            &&& events[i - 1] == PreparerEvent::<P, K, E>::Loaded(input.first)
            &&& actions[i - 1] == getting::<P, K, E>(second)
            &&& match second {
                ProofSource::ReceivedAggregate(aggregated) => {
                    &&& events[i] matches PreparerEvent::Received(aggregate, vk)
                    &&& input.second == Proof {
                        block_number: aggregated,
                        proof: aggregate.proof,
                        public_values: aggregate.public_values,
                        vk,
                    }
                },
                _ => events[i] == PreparerEvent::<P, K, E>::Loaded(input.second),
            }
        }),
{
    lemma_round_so_far(states, events, actions, i);
    lemma_reached(states, events, actions, i);
    assert(states[i].awaits(events[i]));
    assert(prepares(states[i], events[i], states[i + 1], actions[i]));
}

/// The inputs that the first `n` actions hand over, in order.
pub open spec fn offered<P, K, E>(
    actions: Seq<PreparerAction<P, K, E>>,
    n: int,
) -> Seq<AggregationInput<P, K>>
    decreases n,
{
    if n <= 0 {
        Seq::empty()
    } else {
        match actions[n - 1] {
            PreparerAction::Deliver(input) => offered(actions, n - 1).push(input),
            _ => offered(actions, n - 1),
        }
    }
}

/// The aggregates that were taken back by the first `n` events, in order.
pub open spec fn received<P, K, E>(
    events: Seq<PreparerEvent<P, K, E>>,
    n: int,
) -> Seq<ProofWithPublicValues<P>>
    decreases n,
{
    if n <= 0 {
        Seq::empty()
    } else {
        match events[n - 1] {
            PreparerEvent::Received(aggregate, _) => received(events, n - 1).push(aggregate),
            _ => received(events, n - 1),
        }
    }
}

/// Whether the preparer is at a block whose proofs it has not handed over.
pub open spec fn is_gathering<P, K>(state: Preparer<P, K>) -> bool {
    state is Task || state is First || state is Second
}

/// What is handed over is what was taken, in the same order; only blocks from
/// the second on are handed over; and it is only while the proofs of a block are
/// gathered, or where that has failed, that its number has not led to an input.
pub proof fn law_what_is_handed_over_was_taken<P, K, E>(
    states: Seq<Preparer<P, K>>,
    events: Seq<PreparerEvent<P, K, E>>,
    actions: Seq<PreparerAction<P, K, E>>,
    n: int,
)
    requires
        is_run(states, events, actions),
        0 <= n <= events.len(),
    ensures
        ({
            let numbers = taken(events, n);
            let given = offered(actions, n);
            &&& given.len() <= numbers.len() <= given.len() + 1
            &&& is_gathering(states[n]) ==> numbers.len() == given.len() + 1
            &&& states[n] !is Stopped && !is_gathering(states[n]) ==> numbers.len() == given.len()
            &&& forall|i: int|
                0 <= i < given.len() ==> (#[trigger] given[i]).block_number == numbers[i]
                    && numbers[i] >= 2
        }),
    decreases n,
{
    if n > 0 {
        law_what_is_handed_over_was_taken(states, events, actions, n - 1);
        lemma_reached(states, events, actions, n - 1);
        assert(states[n - 1].awaits(events[n - 1]));
        assert(prepares(states[n - 1], events[n - 1], states[n - 1 + 1], actions[n - 1]));
    }
}

/// Every input among those handed over is handed over by some action, and by
/// then as many numbers were taken as there are inputs up to it.
pub proof fn law_an_input_is_handed_over_by_an_action<P, K, E>(
    states: Seq<Preparer<P, K>>,
    events: Seq<PreparerEvent<P, K, E>>,
    actions: Seq<PreparerAction<P, K, E>>,
    n: int,
    k: int,
) -> (i: int)
    requires
        is_run(states, events, actions),
        0 <= n <= events.len(),
        0 <= k < offered(actions, n).len(),
    ensures
        0 <= i < n,
        actions[i] == PreparerAction::<P, K, E>::Deliver(offered(actions, n)[k]),
        taken(events, i + 1).len() == k + 1,
    decreases n,
{
    if k < offered(actions, n - 1).len() {
        law_an_input_is_handed_over_by_an_action(states, events, actions, n - 1, k)
    } else {
        law_what_is_handed_over_was_taken(states, events, actions, n);
        assert(states[n - 1].awaits(events[n - 1]));
        assert(prepares(states[n - 1], events[n - 1], states[n - 1 + 1], actions[n - 1]));
        n - 1
    }
}

proof fn lemma_received<P, K, E>(
    states: Seq<Preparer<P, K>>,
    events: Seq<PreparerEvent<P, K, E>>,
    actions: Seq<PreparerAction<P, K, E>>,
    n: int,
)
    requires
        is_run(states, events, actions),
        0 <= n <= events.len(),
        forall|i: int| 0 < i < taken(events, n).len() ==> #[trigger] taken(events, n)[i] != 2,
    ensures
        states[n] !is Stopped ==> {
            let begun = taken(events, n).len() - if is_gathering(states[n]) {
                1int
            } else {
                0int
            };
            received(events, n).len() == if begun > 0 {
                begun - 1
            } else {
                0
            }
        },
    decreases n,
{
    if n > 0 {
        assert forall|i: int| 0 < i < taken(events, n - 1).len() implies #[trigger] taken(
            events,
            n - 1,
        )[i] != 2 by {
            assert(taken(events, n)[i] == taken(events, n - 1)[i]);
        }
        assert(states[n - 1].awaits(events[n - 1]));
        assert(prepares(states[n - 1], events[n - 1], states[n - 1 + 1], actions[n - 1]));
        lemma_received(states, events, actions, n - 1);
        lemma_reached(states, events, actions, n - 1);
    }
}

/// Every block but the first takes one aggregate back, as long as the second
/// block of all does not come after another. So while the proofs of a block are
/// gathered, there is one for each block between it and the first.
pub proof fn law_one_aggregate_is_taken_back_for_each_block<P, K, E>(
    states: Seq<Preparer<P, K>>,
    events: Seq<PreparerEvent<P, K, E>>,
    actions: Seq<PreparerAction<P, K, E>>,
    n: int,
)
    requires
        is_run(states, events, actions),
        0 <= n <= events.len(),
        is_gathering(states[n]),
        forall|i: int| 0 < i < taken(events, n).len() ==> #[trigger] taken(events, n)[i] != 2,
    ensures
        received(events, n).len() == if taken(events, n).len() > 1 {
            taken(events, n).len() - 2
        } else {
            0
        },
{
    lemma_received(states, events, actions, n);
    law_what_is_handed_over_was_taken(states, events, actions, n);
}

/// Whether each proof that was loaded is what loading it, as it was asked for,
/// finishes with. `F` is an error of the store or of the decoder.
pub open spec fn is_loaded<P, K, E, F>(
    events: Seq<PreparerEvent<P, K, E>>,
    actions: Seq<PreparerAction<P, K, E>>,
) -> bool {
    forall|i: int|
        0 < i < events.len() ==> match (actions[i - 1], #[trigger] events[i]) {
            (PreparerAction::LoadProof(request), PreparerEvent::Loaded(proof)) => loads::<P, K, F>(
                request,
                proof,
            ),
            _ => true,
        }
}

/// Each of the two proofs of an input carries the number of the block that it
/// was asked for, where the proofs that were loaded are what loading them
/// finishes with.
pub proof fn law_the_proofs_of_an_input_carry_the_numbers_asked_for<P, K, E, F>(
    states: Seq<Preparer<P, K>>,
    events: Seq<PreparerEvent<P, K, E>>,
    actions: Seq<PreparerAction<P, K, E>>,
    i: int,
    input: AggregationInput<P, K>,
)
    requires
        is_run(states, events, actions),
        is_loaded::<P, K, E, F>(events, actions),
        0 <= i < actions.len(),
        actions[i] == PreparerAction::<P, K, E>::Deliver(input),
    ensures
        ({
            let (first, second) = sources(taken(events, i + 1).len() == 1, input.block_number);
            &&& input.first.block_number == first.number()
            &&& input.second.block_number == second.number()
        }),
{
    law_an_input_is_made_of_the_proofs_asked_for(states, events, actions, i, input);
    let (first, second) = sources(taken(events, i + 1).len() == 1, input.block_number);
    assert(events[i - 1] is Loaded);
    if let PreparerAction::LoadProof(request) = getting::<P, K, E>(first) {
        assert(loads::<P, K, F>(request, input.first));
        law_a_loaded_proof_carries_its_number::<P, K, F>(request, input.first);
    }
    if let PreparerAction::LoadProof(request) = getting::<P, K, E>(second) {
        assert(events[i] is Loaded);
        assert(loads::<P, K, F>(request, input.second));
        law_a_loaded_proof_carries_its_number::<P, K, F>(request, input.second);
    }
}

proof fn lemma_first_round<P, K, E>(
    states: Seq<Preparer<P, K>>,
    events: Seq<PreparerEvent<P, K, E>>,
    actions: Seq<PreparerAction<P, K, E>>,
    i: int,
    n: int,
)
    requires
        is_run(states, events, actions),
        0 <= i < n <= events.len(),
        events[i] matches PreparerEvent::Number(Some(_)),
        forall|j: int| i < j < n ==> #[trigger] events[j] !is Number,
    ensures
        taken(events, n).len() == 1 <==> i == 0,
    decreases n,
{
    if i + 1 < n {
        assert(events[n - 1] !is Number);
        lemma_first_round(states, events, actions, i, n - 1);
    } else if i > 0 {
        let first: int = 0;
        assert(states[first].awaits(events[first]));
        assert(prepares(states[first], events[first], states[first + 1], actions[first]));
        assert(states[first + 1].awaits(events[first + 1]));
        reveal_with_fuel(taken, 2);
        lemma_taken_grows(events, 1, i);
    } else {
        reveal_with_fuel(taken, 2);
    }
}

/// What the preparer does after each step, in terms of what its steps brought
/// before. A number leads to a queued row of that block; the row to the request
/// for the first proof; that proof to the request for the second; and both to
/// the input of the block. For the second block of all, the two proofs are those
/// of the first two blocks; for any other, they are the proof of the block and
/// the aggregate of the block before, which is read from the store for the
/// number that the preparer began with and taken back from the aggregator
/// afterwards.
pub proof fn law_what_the_preparer_does_next<P, K, E>(
    states: Seq<Preparer<P, K>>,
    events: Seq<PreparerEvent<P, K, E>>,
    actions: Seq<PreparerAction<P, K, E>>,
    i: int,
)
    requires
        is_run(states, events, actions),
        0 <= i < events.len(),
    ensures
        match events[i] {
            PreparerEvent::Number(Some(n)) => {
                &&& actions[i] matches PreparerAction::CreateTask(task)
                &&& task.status@ == "queued"@
                &&& task.block_number == n || task.block_number == n - 0x1_0000_0000_0000_0000
            },
            PreparerEvent::Number(None) => actions[i] == PreparerAction::<P, K, E>::Stop,
            PreparerEvent::TaskCreated => {
                &&& i >= 1
                &&& events[i - 1] matches PreparerEvent::Number(Some(n))
                &&& n >= 2
                &&& actions[i] matches PreparerAction::LoadProof(request)
                &&& !request.is_aggregate
                &&& n == 2 ==> request.block_number == 1
                &&& n > 2 ==> request.block_number == n
            },
            PreparerEvent::Loaded(proof) => {
                &&& i >= 2
                &&& events[i - 1] is TaskCreated ==> {
                    &&& events[i - 2] matches PreparerEvent::Number(Some(n))
                    &&& n == 2 ==> {
                        &&& actions[i] matches PreparerAction::LoadProof(request)
                        &&& request.block_number == 2
                        &&& !request.is_aggregate
                    }
                    &&& n > 2 && i == 2 ==> {
                        &&& actions[i] matches PreparerAction::LoadProof(request)
                        &&& request.block_number + 1 == n
                        &&& request.is_aggregate
                    }
                    &&& n > 2 && i > 2 ==> actions[i] is ReceiveAggregate
                }
                &&& events[i - 1] !is TaskCreated ==> {
                    &&& i >= 3
                    &&& events[i - 3] matches PreparerEvent::Number(Some(n))
                    &&& events[i - 2] is TaskCreated
                    &&& events[i - 1] matches PreparerEvent::Loaded(first)
                    &&& n == 2 || i == 3
                    &&& actions[i] matches PreparerAction::Deliver(input)
                    &&& input.block_number == n
                    &&& input.first == first
                    &&& input.second == proof
                }
            },
            PreparerEvent::Received(aggregate, vk) => {
                &&& i > 3
                &&& events[i - 3] matches PreparerEvent::Number(Some(n))
                &&& events[i - 2] is TaskCreated
                &&& events[i - 1] matches PreparerEvent::Loaded(first)
                &&& n > 2
                &&& actions[i] matches PreparerAction::Deliver(input)
                &&& input.block_number == n
                &&& input.first == first
                &&& input.second.block_number + 1 == n
                &&& input.second.proof == aggregate.proof
                &&& input.second.public_values@ == aggregate.public_values@
                &&& input.second.vk == vk
            },
            PreparerEvent::Delivered => actions[i] == PreparerAction::<P, K, E>::ReceiveNumber,
            PreparerEvent::Failed(error) => actions[i] == PreparerAction::<P, K, E>::Fail(error),
        },
{
    lemma_round_so_far(states, events, actions, i);
    lemma_reached(states, events, actions, i);
    assert(states[i].awaits(events[i]));
    assert(prepares(states[i], events[i], states[i + 1], actions[i]));
    match states[i] {
        Preparer::Task { .. } => {
            lemma_first_round(states, events, actions, i - 1, i);
        },
        Preparer::First { .. } => {
            lemma_first_round(states, events, actions, i - 2, i);
        },
        Preparer::Second { .. } => {
            lemma_first_round(states, events, actions, i - 3, i);
        },
        _ => {},
    }
}

/// The preparer takes whatever can come of the step that it asked for, and a
/// failure in its place. Only the row of a block before the second leads no
/// further, and once the preparer has ended it takes nothing.
pub proof fn law_the_preparer_takes_every_outcome<P, K, E>(
    states: Seq<Preparer<P, K>>,
    events: Seq<PreparerEvent<P, K, E>>,
    actions: Seq<PreparerAction<P, K, E>>,
    number: Option<u64>,
    proof: Proof<P, K>,
    aggregate: ProofWithPublicValues<P>,
    vk: VerifyingKey<K>,
    error: E,
)
    requires
        is_run(states, events, actions),
    ensures
        actions.len() == 0 || actions.last() is ReceiveNumber ==> states.last().awaits(
            PreparerEvent::<P, K, E>::Number(number),
        ),
        actions.len() > 0 && actions.last() is CreateTask ==> {
            &&& events.last() matches PreparerEvent::Number(Some(n))
            &&& states.last().awaits(PreparerEvent::<P, K, E>::TaskCreated) <==> n >= 2
            &&& states.last().awaits(PreparerEvent::<P, K, E>::Failed(error))
        },
        actions.len() > 0 && actions.last() is LoadProof ==> {
            &&& states.last().awaits(PreparerEvent::<P, K, E>::Loaded(proof))
            &&& states.last().awaits(PreparerEvent::<P, K, E>::Failed(error))
        },
        actions.len() > 0 && actions.last() is ReceiveAggregate ==> {
            &&& states.last().awaits(PreparerEvent::<P, K, E>::Received(aggregate, vk))
            &&& states.last().awaits(PreparerEvent::<P, K, E>::Failed(error))
        },
        actions.len() > 0 && actions.last() is Deliver ==> {
            &&& states.last().awaits(PreparerEvent::<P, K, E>::Delivered)
            &&& states.last().awaits(PreparerEvent::<P, K, E>::Failed(error))
        },
        actions.len() > 0 && (actions.last() is Stop || actions.last() is Fail) ==> {
            &&& !states.last().awaits(PreparerEvent::<P, K, E>::Number(number))
            &&& !states.last().awaits(PreparerEvent::<P, K, E>::Failed(error))
        },
{
    let n = events.len() as int;
    if n > 0 {
        lemma_reached(states, events, actions, n - 1);
        assert(states[n - 1].awaits(events[n - 1]));
        assert(prepares(states[n - 1], events[n - 1], states[n - 1 + 1], actions[n - 1]));
    }
}

} // verus!
