//! The two workers together, with channels between them.

use vstd::prelude::*;

use crate::aggregation::AggregationInput;
use crate::aggregator::{self, Aggregator, AggregatorAction, AggregatorEvent};
use crate::preparer::{self, Preparer, PreparerAction, PreparerEvent};
use crate::zk::{Proof, ProofWithPublicValues};

verus! {

/// One of the two workers.
#[derive(Debug, Clone, Copy, PartialEq, Eq, Structural)]
pub enum Worker {
    Preparer,
    Aggregator,
}

/// How many of the first `t` steps are those of the preparer.
pub open spec fn prepared_before(schedule: Seq<Worker>, t: int) -> int
    decreases t,
{
    if t <= 0 {
        0
    } else {
        prepared_before(schedule, t - 1) + if schedule[t - 1] is Preparer {
            1int
        } else {
            0int
        }
    }
}

/// How many of the first `t` steps are those of the aggregator.
pub open spec fn aggregated_before(schedule: Seq<Worker>, t: int) -> int {
    t - prepared_before(schedule, t)
}

/// Whether the channels between the workers have given out, in order, only what
/// was put into them, when the preparer has taken `m` steps and the aggregator
/// `n`: the inputs that the aggregator took are the first of those that the
/// preparer handed over, the numbers that the preparer took after its first are
/// the first of those that the aggregator announced, and the aggregates that
/// the preparer took back are the first of those that the aggregator handed over.
pub open spec fn are_connected<P, K, E, F>(
    prepared: Seq<PreparerEvent<P, K, E>>,
    preparations: Seq<PreparerAction<P, K, E>>,
    aggregated: Seq<AggregatorEvent<P, K, F>>,
    aggregations: Seq<AggregatorAction<P, K, F>>,
    m: int,
    n: int,
) -> bool {
    let numbers = preparer::taken(prepared, m);
    &&& aggregator::taken_inputs(aggregated, n).is_prefix_of(preparer::offered(preparations, m))
    &&& numbers.len() > 0 ==> numbers.drop_first().is_prefix_of(
        aggregator::announced(aggregations, n),
    )
    &&& preparer::received(prepared, m).is_prefix_of(aggregator::handed_over(aggregations, n))
}

/// Whether the two workers may go through these states together, where
/// `schedule` says whose step it is: each of them works by itself, and the
/// channels between them are connected at every moment.
pub open spec fn is_run<P, K, E, F>(
    schedule: Seq<Worker>,
    preparers: Seq<Preparer<P, K>>,
    prepared: Seq<PreparerEvent<P, K, E>>,
    preparations: Seq<PreparerAction<P, K, E>>,
    aggregators: Seq<Aggregator<P, K>>,
    aggregated: Seq<AggregatorEvent<P, K, F>>,
    aggregations: Seq<AggregatorAction<P, K, F>>,
) -> bool {
    &&& preparer::is_run(preparers, prepared, preparations)
    &&& aggregator::is_run(aggregators, aggregated, aggregations)
    &&& prepared_before(schedule, schedule.len() as int) == prepared.len()
    &&& aggregated_before(schedule, schedule.len() as int) == aggregated.len()
    &&& forall|t: int|
        0 <= t <= schedule.len() ==> are_connected(
            prepared,
            preparations,
            aggregated,
            aggregations,
            #[trigger] prepared_before(schedule, t),
            aggregated_before(schedule, t),
        )
}

proof fn lemma_steps_grow(schedule: Seq<Worker>, s: int, t: int)
    requires
        0 <= s <= t <= schedule.len(),
    ensures
        0 <= prepared_before(schedule, s) <= prepared_before(schedule, t),
        0 <= aggregated_before(schedule, s) <= aggregated_before(schedule, t),
    decreases t,
{
    if s < t {
        lemma_steps_grow(schedule, s, t - 1);
    } else if t > 0 {
        lemma_steps_grow(schedule, s - 1, t - 1);
    }
}

/// The moment of the preparer's step `i`.
proof fn lemma_moment_of_preparer(schedule: Seq<Worker>, i: int, t: int) -> (s: int)
    requires
        0 <= t <= schedule.len(),
        0 <= i < prepared_before(schedule, t),
    ensures
        0 <= s < t,
        schedule[s] is Preparer,
        prepared_before(schedule, s) == i,
    decreases t,
{
    if i < prepared_before(schedule, t - 1) {
        lemma_moment_of_preparer(schedule, i, t - 1)
    } else {
        t - 1
    }
}

/// The moment of the aggregator's step `j`.
proof fn lemma_moment_of_aggregator(schedule: Seq<Worker>, j: int, t: int) -> (s: int)
    requires
        0 <= t <= schedule.len(),
        0 <= j < aggregated_before(schedule, t),
    ensures
        0 <= s < t,
        schedule[s] is Aggregator,
        aggregated_before(schedule, s) == j,
    decreases t,
{
    if j < aggregated_before(schedule, t - 1) {
        lemma_moment_of_aggregator(schedule, j, t - 1)
    } else {
        t - 1
    }
}

proof fn lemma_numbers_in_order<P, K, E, F>(
    preparers: Seq<Preparer<P, K>>,
    prepared: Seq<PreparerEvent<P, K, E>>,
    preparations: Seq<PreparerAction<P, K, E>>,
    aggregators: Seq<Aggregator<P, K>>,
    aggregated: Seq<AggregatorEvent<P, K, F>>,
    aggregations: Seq<AggregatorAction<P, K, F>>,
    m: int,
    n: int,
    i: int,
)
    requires
        preparer::is_run(preparers, prepared, preparations),
        aggregator::is_run(aggregators, aggregated, aggregations),
        0 <= m <= prepared.len(),
        0 <= n <= aggregated.len(),
        are_connected(prepared, preparations, aggregated, aggregations, m, n),
        0 <= i < preparer::taken(prepared, m).len(),
    ensures
        preparer::taken(prepared, m)[i] == preparer::taken(prepared, m)[0] + i,
    decreases i,
{
    if i > 0 {
        lemma_numbers_in_order(
            preparers,
            prepared,
            preparations,
            aggregators,
            aggregated,
            aggregations,
            m,
            n,
            i - 1,
        );
        aggregator::law_every_block_announces_the_next(aggregators, aggregated, aggregations, n);
        preparer::law_what_is_handed_over_was_taken(preparers, prepared, preparations, m);
        let numbers = preparer::taken(prepared, m);
        let inputs = aggregator::taken_inputs(aggregated, n);
        let announced = aggregator::announced(aggregations, n);
        let offered = preparer::offered(preparations, m);
        assert(numbers.drop_first()[i - 1] == announced[i - 1]);
        assert(announced[i - 1] == aggregator::taken(aggregated, n)[i - 1] + 1);
        assert(inputs[i - 1] == offered[i - 1]);
        assert(offered[i - 1].block_number == numbers[i - 1]);
    }
}

/// The blocks are aggregated one after the other, without a gap, from whichever
/// block the workers began with.
pub proof fn law_blocks_are_aggregated_in_order<P, K, E, F>(
    schedule: Seq<Worker>,
    preparers: Seq<Preparer<P, K>>,
    prepared: Seq<PreparerEvent<P, K, E>>,
    preparations: Seq<PreparerAction<P, K, E>>,
    aggregators: Seq<Aggregator<P, K>>,
    aggregated: Seq<AggregatorEvent<P, K, F>>,
    aggregations: Seq<AggregatorAction<P, K, F>>,
    i: int,
)
    requires
        is_run(
            schedule,
            preparers,
            prepared,
            preparations,
            aggregators,
            aggregated,
            aggregations,
        ),
        0 <= i < preparer::taken(prepared, prepared.len() as int).len(),
    ensures
        ({
            let numbers = preparer::taken(prepared, prepared.len() as int);
            numbers[i] == numbers[0] + i
        }),
{
    let end = schedule.len() as int;
    assert(are_connected(
        prepared,
        preparations,
        aggregated,
        aggregations,
        prepared_before(schedule, end),
        aggregated_before(schedule, end),
    ));
    lemma_numbers_in_order(
        preparers,
        prepared,
        preparations,
        aggregators,
        aggregated,
        aggregations,
        prepared.len() as int,
        aggregated.len() as int,
        i,
    );
}

/// An aggregate in the form in which the aggregator hands it over.
pub open spec fn as_aggregate<P, K>(proof: Proof<P, K>) -> ProofWithPublicValues<P> {
    ProofWithPublicValues { proof: proof.proof, public_values: proof.public_values }
}

/// Whether `proof` is the aggregate that was proved for the block just before
/// `block_number`, within the first `n` events of the aggregator.
pub open spec fn is_aggregate_before<P, K, F>(
    aggregated: Seq<AggregatorEvent<P, K, F>>,
    n: int,
    block_number: u64,
    proof: Proof<P, K>,
) -> bool {
    &&& proof.block_number + 1 == block_number
    &&& exists|j: int|
        0 <= j < n && #[trigger] aggregator::proves_at(
            aggregated,
            j,
            proof.block_number,
            as_aggregate(proof),
        )
}

/// What is taken back while `m` steps of the preparer and `n` of the aggregator
/// are done is the aggregate before the block that the preparer is at.
proof fn lemma_taken_back<P, K, E, F>(
    preparers: Seq<Preparer<P, K>>,
    prepared: Seq<PreparerEvent<P, K, E>>,
    preparations: Seq<PreparerAction<P, K, E>>,
    aggregators: Seq<Aggregator<P, K>>,
    aggregated: Seq<AggregatorEvent<P, K, F>>,
    aggregations: Seq<AggregatorAction<P, K, F>>,
    m: int,
    n: int,
    input: AggregationInput<P, K>,
)
    requires
        preparer::is_run(preparers, prepared, preparations),
        aggregator::is_run(aggregators, aggregated, aggregations),
        0 <= m < prepared.len(),
        0 <= n <= aggregated.len(),
        are_connected(prepared, preparations, aggregated, aggregations, m, n),
        are_connected(prepared, preparations, aggregated, aggregations, m + 1, n),
        preparations[m] == PreparerAction::<P, K, E>::Deliver(input),
        preparer::taken(prepared, m + 1).len() > 1,
    ensures
        is_aggregate_before(aggregated, n, input.block_number, input.second),
{
    preparer::law_an_input_is_made_of_the_proofs_asked_for(
        preparers,
        prepared,
        preparations,
        m,
        input,
    );
    assert(preparers[m].awaits(prepared[m]));
    assert(preparer::prepares(preparers[m], prepared[m], preparers[m + 1], preparations[m]));
    let numbers = preparer::taken(prepared, m);
    assert(preparer::taken(prepared, m + 1) == numbers);
    preparer::law_what_is_handed_over_was_taken(preparers, prepared, preparations, m);
    preparer::law_what_is_handed_over_was_taken(preparers, prepared, preparations, m + 1);
    let offered = preparer::offered(preparations, m);
    let last = numbers.len() - 1;
    assert(preparer::offered(preparations, m + 1)[last] == input);
    assert(offered[0].block_number == numbers[0]);
    assert forall|i: int| 0 < i < numbers.len() implies #[trigger] numbers[i] != 2 by {
        lemma_numbers_in_order(
            preparers,
            prepared,
            preparations,
            aggregators,
            aggregated,
            aggregations,
            m,
            n,
            i,
        );
    }
    preparer::law_one_aggregate_is_taken_back_for_each_block(
        preparers,
        prepared,
        preparations,
        m,
    );
    lemma_numbers_in_order(
        preparers,
        prepared,
        preparations,
        aggregators,
        aggregated,
        aggregations,
        m,
        n,
        last,
    );
    lemma_numbers_in_order(
        preparers,
        prepared,
        preparations,
        aggregators,
        aggregated,
        aggregations,
        m,
        n,
        last - 1,
    );
    assert(input.block_number == numbers[last]);
    assert(prepared[m] is Received);
    if let PreparerEvent::Received(aggregate, vk) = prepared[m] {
        let received = preparer::received(prepared, m + 1);
        let given = aggregator::handed_over(aggregations, n);
        let inputs = aggregator::taken_inputs(aggregated, n);
        let proved = aggregator::proved(aggregated, n);
        assert(received[last - 1] == aggregate);
        assert(received[last - 1] == given[last - 1]);
        aggregator::law_exactly_the_proved_aggregates_are_handed_over(
            aggregators,
            aggregated,
            aggregations,
            n,
        );
        aggregator::law_aggregates_are_proved_in_order(aggregators, aggregated, aggregations, n);
        assert(given[last - 1] == proved[last - 1].1);
        assert(proved[last - 1].0 == aggregator::taken(aggregated, n)[last - 1]);
        assert(inputs[last - 1] == offered[last - 1]);
        assert(offered[last - 1].block_number == numbers[last - 1]);
        assert(as_aggregate(input.second) == aggregate);
        assert(input.second.block_number == proved[last - 1].0);
        aggregator::law_what_is_proved_was_proved_at_an_event(
            aggregators,
            aggregated,
            aggregations,
            n,
            last - 1,
        );
    }
}

/// The second proof of every input but the first is the aggregate that was
/// proved for the block just before: the aggregator proved it, for that block,
/// before the preparer handed the input over.
pub proof fn law_the_second_proof_is_the_aggregate_before<P, K, E, F>(
    schedule: Seq<Worker>,
    preparers: Seq<Preparer<P, K>>,
    prepared: Seq<PreparerEvent<P, K, E>>,
    preparations: Seq<PreparerAction<P, K, E>>,
    aggregators: Seq<Aggregator<P, K>>,
    aggregated: Seq<AggregatorEvent<P, K, F>>,
    aggregations: Seq<AggregatorAction<P, K, F>>,
    t: int,
    input: AggregationInput<P, K>,
)
    requires
        is_run(
            schedule,
            preparers,
            prepared,
            preparations,
            aggregators,
            aggregated,
            aggregations,
        ),
        0 <= t < schedule.len(),
        schedule[t] is Preparer,
        preparations[prepared_before(schedule, t)] == PreparerAction::<P, K, E>::Deliver(input),
        preparer::taken(prepared, prepared_before(schedule, t)).len() > 1,
    ensures
        is_aggregate_before(
            aggregated,
            aggregated_before(schedule, t),
            input.block_number,
            input.second,
        ),
{
    let end = schedule.len() as int;
    let m = prepared_before(schedule, t);
    let n = aggregated_before(schedule, t);
    lemma_steps_grow(schedule, t, end);
    lemma_steps_grow(schedule, t + 1, end);
    assert(prepared_before(schedule, t + 1) == m + 1);
    assert(aggregated_before(schedule, t + 1) == n);
    assert(are_connected(prepared, preparations, aggregated, aggregations, m, n));
    assert(are_connected(prepared, preparations, aggregated, aggregations, m + 1, n));
    assert(preparers[m].awaits(prepared[m]));
    assert(preparer::prepares(preparers[m], prepared[m], preparers[m + 1], preparations[m]));
    lemma_taken_back(
        preparers,
        prepared,
        preparations,
        aggregators,
        aggregated,
        aggregations,
        m,
        n,
        input,
    );
}

/// Every aggregate but the first is built on the one before it: what goes to the
/// prover for a block is two proofs, of which the second is the aggregate that
/// came out of proving for the block just before.
pub proof fn law_each_aggregate_is_built_on_the_one_before<P, K, E, F>(
    schedule: Seq<Worker>,
    preparers: Seq<Preparer<P, K>>,
    prepared: Seq<PreparerEvent<P, K, E>>,
    preparations: Seq<PreparerAction<P, K, E>>,
    aggregators: Seq<Aggregator<P, K>>,
    aggregated: Seq<AggregatorEvent<P, K, F>>,
    aggregations: Seq<AggregatorAction<P, K, F>>,
    j: int,
    proofs: Vec<Proof<P, K>>,
)
    requires
        is_run(
            schedule,
            preparers,
            prepared,
            preparations,
            aggregators,
            aggregated,
            aggregations,
        ),
        0 <= j < aggregations.len(),
        aggregations[j] == AggregatorAction::<P, K, F>::Prove(proofs),
        aggregator::taken(aggregated, j).len() > 1,
    ensures
        proofs@.len() == 2,
        is_aggregate_before(aggregated, j, aggregator::taken(aggregated, j).last(), proofs@[1]),
{
    let end = schedule.len() as int;
    aggregator::law_the_proofs_of_the_last_input_are_proved(
        aggregators,
        aggregated,
        aggregations,
        j,
        proofs,
    );
    // The moment at which the step is taken that asks for the proof.
    let t = lemma_moment_of_aggregator(schedule, j, end);
    let m = prepared_before(schedule, t);
    lemma_steps_grow(schedule, t, end);
    assert(are_connected(prepared, preparations, aggregated, aggregations, m, j));
    let inputs = aggregator::taken_inputs(aggregated, j);
    let offered = preparer::offered(preparations, m);
    let k = inputs.len() - 1;
    assert(inputs[k] == offered[k]);
    // The moment at which the input was handed over.
    let i = preparer::law_an_input_is_handed_over_by_an_action(
        preparers,
        prepared,
        preparations,
        m,
        k,
    );
    let s = lemma_moment_of_preparer(schedule, i, t);
    lemma_steps_grow(schedule, s, t);
    assert(preparers[i].awaits(prepared[i]));
    assert(preparer::prepares(preparers[i], prepared[i], preparers[i + 1], preparations[i]));
    law_the_second_proof_is_the_aggregate_before(
        schedule,
        preparers,
        prepared,
        preparations,
        aggregators,
        aggregated,
        aggregations,
        s,
        inputs[k],
    );
}

} // verus!
