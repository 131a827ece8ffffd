//! Reading a stored proof back, waiting for it where it is not there yet.
//!
//! [`Loading`] is where the reading stands, [`LoadEvent`] an answer of the store
//! or of the decoder, and [`LoadAction`] what is asked next.

use vstd::prelude::*;

use crate::db::{
    law_stored_numbers_differ, records, stored, stored_number, AggregationOutcome,
    AggregationSuccess, VerifierKey,
};
use crate::zk::{Proof, ProofWithPublicValues, VerifyingKey, ZkProof};

verus! {

/// How long to wait, in milliseconds, before a proof that is not there is asked for again.
pub const POLL_MILLIS: u64 = 500;

/// Which proof to read.
#[derive(Debug, Clone, Copy, PartialEq, Eq, Structural)]
pub struct LoadRequest {
    pub block_number: u64,
    /// Whether the aggregate of all blocks up to this one is wanted, and not
    /// the proof of the block alone.
    pub is_aggregate: bool,
}

/// A question to the store, by the stored number of the block.
#[derive(Debug, Clone, Copy, PartialEq, Eq, Structural)]
pub enum ProofQuery {
    Block(i64),
    Aggregation(i64),
}

/// What the store holds of a proof. The proof is empty until it has been made.
#[derive(Debug, PartialEq, Eq)]
pub struct ProofRow {
    pub proof: Vec<u8>,
    pub public_values: Vec<u8>,
    pub vk_id: String,
}

/// Where the reading of a proof stands, named after the answer that it waits for.
#[derive(Debug)]
pub enum Loading<P> {
    Row { request: LoadRequest },
    Pause { request: LoadRequest },
    Contents { request: LoadRequest, vk_id: String },
    Key { request: LoadRequest, proof: ZkProof<P>, public_values: Vec<u8> },
    Stopped,
}

/// An answer of the store or of the decoder.
#[derive(Debug)]
pub enum LoadEvent<P, K, E> {
    /// The row that was asked for.
    Row(ProofRow),
    /// The pause is over.
    Pause,
    /// The decoded proof and public values.
    Contents(ZkProof<P>, Vec<u8>),
    /// The decoded key.
    Key(VerifyingKey<K>),
    /// The store or the decoder failed.
    Failed(E),
}

/// What is to be done next.
#[derive(Debug)]
pub enum LoadAction<P, K, E> {
    /// Ask the store for the row of a proof.
    Query(ProofQuery),
    /// Wait for this many milliseconds.
    Sleep(u64),
    /// Decode the proof and the public values.
    Decode { proof: Vec<u8>, public_values: Vec<u8> },
    /// Ask the store for the key with this identifier, and decode it.
    FetchKey(String),
    /// All is done: this is the proof.
    Finish(Proof<P, K>),
    /// The reading ends with this error.
    Fail(E),
}

impl LoadRequest {
    /// Whether `query` asks for the proof that is wanted, under the stored
    /// number of its block.
    pub open spec fn asks(self, query: ProofQuery) -> bool {
        match query {
            ProofQuery::Aggregation(id) => self.is_aggregate && id == stored(self.block_number),
            ProofQuery::Block(id) => !self.is_aggregate && id == stored(self.block_number),
        }
    }

    /// The question that asks for the proof that is wanted.
    pub fn query(&self) -> (r: ProofQuery)
        ensures
            self.asks(r),
            match r {
                ProofQuery::Aggregation(id) => self.is_aggregate && (id == self.block_number || id
                    == self.block_number - 0x1_0000_0000_0000_0000),
                ProofQuery::Block(id) => !self.is_aggregate && (id == self.block_number || id
                    == self.block_number - 0x1_0000_0000_0000_0000),
            },
    {
        if self.is_aggregate {
            ProofQuery::Aggregation(stored_number(self.block_number))
        } else {
            ProofQuery::Block(stored_number(self.block_number))
        }
    }
}

impl<P> Loading<P> {
    /// Whether `event` answers what the reading waits for.
    pub open spec fn awaits<K, E>(self, event: LoadEvent<P, K, E>) -> bool {
        match (self, event) {
            (Loading::Stopped, _) => false,
            (_, LoadEvent::Failed(_)) => true,
            (Loading::Row { .. }, LoadEvent::Row(_)) => true,
            (Loading::Pause { .. }, LoadEvent::Pause) => true,
            (Loading::Contents { .. }, LoadEvent::Contents(_, _)) => true,
            (Loading::Key { .. }, LoadEvent::Key(_)) => true,
            _ => false,
        }
    }

    /// Whether the event answers what the reading waits for.
    pub fn is_awaiting<K, E>(&self, event: &LoadEvent<P, K, E>) -> (r: bool)
        ensures
            r == self.awaits(*event),
    {
        match (self, event) {
            (Loading::Stopped, _) => false,
            (_, LoadEvent::Failed(_)) => true,
            (Loading::Row { .. }, LoadEvent::Row(_)) => true,
            (Loading::Pause { .. }, LoadEvent::Pause) => true,
            (Loading::Contents { .. }, LoadEvent::Contents(_, _)) => true,
            (Loading::Key { .. }, LoadEvent::Key(_)) => true,
            _ => false,
        }
    }
}

/// What the reading of a proof does with an answer that it waits for.
pub open spec fn follows<P, K, E>(
    before: Loading<P>,
    event: LoadEvent<P, K, E>,
    after: Loading<P>,
    action: LoadAction<P, K, E>,
) -> bool {
    match (before, event) {
        (_, LoadEvent::Failed(error)) => {
            &&& after == Loading::<P>::Stopped
            &&& action == LoadAction::<P, K, E>::Fail(error)
        },
        (Loading::Row { request }, LoadEvent::Row(row)) => if row.proof@.len() == 0 {
            &&& after == Loading::<P>::Pause { request }
            &&& action == LoadAction::<P, K, E>::Sleep(POLL_MILLIS)
        } else {
            &&& after == Loading::<P>::Contents { request, vk_id: row.vk_id }
            &&& action == LoadAction::<P, K, E>::Decode {
                proof: row.proof,
                public_values: row.public_values,
            }
        },
        (Loading::Pause { request }, LoadEvent::Pause) => {
            &&& after == Loading::<P>::Row { request }
            &&& action matches LoadAction::Query(query)
            &&& request.asks(query)
        },
        (Loading::Contents { request, vk_id }, LoadEvent::Contents(proof, public_values)) => {
            &&& after == Loading::<P>::Key { request, proof, public_values }
            &&& action == LoadAction::<P, K, E>::FetchKey(vk_id)
        },
        (Loading::Key { request, proof, public_values }, LoadEvent::Key(vk)) => {
            &&& after == Loading::<P>::Stopped
            &&& action == LoadAction::<P, K, E>::Finish(
                Proof { block_number: request.block_number, proof, public_values, vk },
            )
        },
        _ => false,
    }
}

/// Begins to read a proof: its row is asked for first.
pub fn start_loading<P, K, E>(request: LoadRequest) -> (r: (Loading<P>, LoadAction<P, K, E>))
    ensures
        r.0 == (Loading::<P>::Row { request }),
        r.1 matches LoadAction::Query(query) && request.asks(query),
        r.1 matches LoadAction::Query(query) && match query {
            ProofQuery::Aggregation(id) => request.is_aggregate && (id == request.block_number || id
                == request.block_number - 0x1_0000_0000_0000_0000),
            ProofQuery::Block(id) => !request.is_aggregate && (id == request.block_number || id
                == request.block_number - 0x1_0000_0000_0000_0000),
        },
{
    (Loading::Row { request }, LoadAction::Query(request.query()))
}

/// Takes the reading of a proof one step further.
pub fn load_proof<P, K, E>(state: Loading<P>, event: LoadEvent<P, K, E>) -> (r: (
    Loading<P>,
    LoadAction<P, K, E>,
))
    requires
        state.awaits(event),
    ensures
        follows(state, event, r.0, r.1),
{
    match (state, event) {
        (_, LoadEvent::Failed(error)) => (Loading::Stopped, LoadAction::Fail(error)),
        (Loading::Row { request }, LoadEvent::Row(row)) => {
            if row.proof.is_empty() {
                (Loading::Pause { request }, LoadAction::Sleep(POLL_MILLIS))
            } else {
                (
                    Loading::Contents { request, vk_id: row.vk_id },
                    LoadAction::Decode { proof: row.proof, public_values: row.public_values },
                )
            }
        },
        (Loading::Pause { request }, LoadEvent::Pause) => {
            let query = request.query();
            (Loading::Row { request }, LoadAction::Query(query))
        },
        (Loading::Contents { request, vk_id }, LoadEvent::Contents(proof, public_values)) => (
            Loading::Key { request, proof, public_values },
            LoadAction::FetchKey(vk_id),
        ),
        (Loading::Key { request, proof, public_values }, LoadEvent::Key(vk)) => {
            let loaded = Proof { block_number: request.block_number, proof, public_values, vk };
            (Loading::Stopped, LoadAction::Finish(loaded))
        },
        _ => vstd::pervasive::unreached(),
    }
}

/// Whether the reading of `request` may go through `states` on the answers
/// `events`, where `actions[i]` is what it asks for after the answer `events[i]`.
pub open spec fn is_run<P, K, E>(
    request: LoadRequest,
    states: Seq<Loading<P>>,
    events: Seq<LoadEvent<P, K, E>>,
    actions: Seq<LoadAction<P, K, E>>,
) -> bool {
    &&& states.len() == events.len() + 1
    &&& actions.len() == events.len()
    &&& states[0] == Loading::<P>::Row { request }
    &&& forall|i: int|
        0 <= i < events.len() ==> {
            &&& states[i].awaits(#[trigger] events[i])
            &&& follows(states[i], events[i], states[i + 1], actions[i])
        }
}

/// The request that a reading which goes on is about.
spec fn is_about<P>(state: Loading<P>, request: LoadRequest) -> bool {
    match state {
        Loading::Row { request: r } => r == request,
        Loading::Pause { request: r } => r == request,
        Loading::Contents { request: r, .. } => r == request,
        Loading::Key { request: r, .. } => r == request,
        Loading::Stopped => true,
    }
}

proof fn lemma_run_is_about<P, K, E>(
    request: LoadRequest,
    states: Seq<Loading<P>>,
    events: Seq<LoadEvent<P, K, E>>,
    actions: Seq<LoadAction<P, K, E>>,
    n: int,
)
    requires
        is_run(request, states, events, actions),
        0 <= n < states.len(),
    ensures
        is_about(states[n], request),
    decreases n,
{
    if n > 0 {
        lemma_run_is_about(request, states, events, actions, n - 1);
        assert(states[n - 1].awaits(events[n - 1]));
        assert(follows(states[n - 1], events[n - 1], states[n - 1 + 1], actions[n - 1]));
    }
}

/// However often the store is asked, it is asked for the same proof.
pub proof fn law_every_query_asks_for_the_proof<P, K, E>(
    request: LoadRequest,
    states: Seq<Loading<P>>,
    events: Seq<LoadEvent<P, K, E>>,
    actions: Seq<LoadAction<P, K, E>>,
    i: int,
    query: ProofQuery,
)
    requires
        is_run(request, states, events, actions),
        0 <= i < actions.len(),
        actions[i] == LoadAction::<P, K, E>::Query(query),
    ensures
        request.asks(query),
{
    lemma_run_is_about(request, states, events, actions, i);
    assert(states[i].awaits(events[i]));
    assert(follows(states[i], events[i], states[i + 1], actions[i]));
}

/// While the row stays empty the reading goes on: after `n` empty rows, each
/// followed by a pause, the store is asked for the row once more.
pub proof fn law_empty_rows_are_waited_out<P, K, E>(
    request: LoadRequest,
    states: Seq<Loading<P>>,
    events: Seq<LoadEvent<P, K, E>>,
    actions: Seq<LoadAction<P, K, E>>,
    n: int,
)
    requires
        is_run(request, states, events, actions),
        0 <= n,
        events.len() == 2 * n,
        forall|i: int|
            0 <= i < n ==> {
                &&& #[trigger] events[2 * i] matches LoadEvent::Row(row)
                &&& row.proof@.len() == 0
                &&& events[2 * i + 1] == LoadEvent::<P, K, E>::Pause
            },
    ensures
        states.last() == (Loading::<P>::Row { request }),
        n > 0 ==> {
            &&& actions.last() matches LoadAction::Query(query)
            &&& request.asks(query)
        },
    decreases n,
{
    if n > 0 {
        let m = 2 * n - 2;
        let s = states.take(m + 1);
        let e = events.take(m);
        let a = actions.take(m);
        assert forall|i: int| 0 <= i < e.len() implies {
            &&& s[i].awaits(#[trigger] e[i])
            &&& follows(s[i], e[i], s[i + 1], a[i])
        } by {
            assert(states[i].awaits(events[i]));
        }
        assert forall|i: int| 0 <= i < n - 1 implies {
            &&& #[trigger] e[2 * i] matches LoadEvent::Row(row)
            &&& row.proof@.len() == 0
            &&& e[2 * i + 1] == LoadEvent::<P, K, E>::Pause
        } by {
            assert(events[2 * i] is Row);
        }
        law_empty_rows_are_waited_out(request, s, e, a, n - 1);
        assert(s.last() == states[m]);
        assert(events[2 * (n - 1)] is Row);
        assert(events[m] is Row);
        assert(states[m].awaits(events[m]));
        assert(follows(states[m], events[m], states[m + 1], actions[m]));
        assert(states[m + 1].awaits(events[m + 1]));
        assert(follows(states[m + 1], events[m + 1], states[m + 1 + 1], actions[m + 1]));
    }
}

/// A proof that was read carries the number that it was asked for by, what the
/// decoder made of the row, and the key; and the row was not empty.
pub proof fn law_a_read_proof_is_the_stored_one<P, K, E>(
    request: LoadRequest,
    states: Seq<Loading<P>>,
    events: Seq<LoadEvent<P, K, E>>,
    actions: Seq<LoadAction<P, K, E>>,
    loaded: Proof<P, K>,
)
    requires
        is_run(request, states, events, actions),
        actions.len() > 0,
        actions.last() == LoadAction::<P, K, E>::Finish(loaded),
    ensures
        events.len() >= 3,
        loaded.block_number == request.block_number,
        ({
            let n = events.len() as int;
            &&& events[n - 1] == LoadEvent::<P, K, E>::Key(loaded.vk)
            &&& events[n - 2] == LoadEvent::<P, K, E>::Contents(
                loaded.proof,
                loaded.public_values,
            )
            &&& events[n - 3] matches LoadEvent::Row(row)
            &&& row.proof@.len() > 0
            &&& actions[n - 3] == LoadAction::<P, K, E>::Decode {
                proof: row.proof,
                public_values: row.public_values,
            }
            &&& actions[n - 2] == LoadAction::<P, K, E>::FetchKey(row.vk_id)
        }),
{
    let n = events.len() as int;
    lemma_run_is_about(request, states, events, actions, n - 1);
    assert(states[n - 1].awaits(events[n - 1]));
    assert(follows(states[n - 1], events[n - 1], states[n - 1 + 1], actions[n - 1]));
    assert(n > 1);
    assert(states[n - 2].awaits(events[n - 2]));
    assert(follows(states[n - 2], events[n - 2], states[n - 2 + 1], actions[n - 2]));
    assert(n > 2);
    assert(states[n - 3].awaits(events[n - 3]));
    assert(follows(states[n - 3], events[n - 3], states[n - 3 + 1], actions[n - 3]));
}

/// Whether loading `request` may finish with `proof`.
pub open spec fn loads<P, K, E>(request: LoadRequest, proof: Proof<P, K>) -> bool {
    exists|
        states: Seq<Loading<P>>,
        events: Seq<LoadEvent<P, K, E>>,
        actions: Seq<LoadAction<P, K, E>>,
    |
        #![trigger is_run(request, states, events, actions)]
        {
            &&& is_run(request, states, events, actions)
            &&& actions.len() > 0
            &&& actions.last() == LoadAction::<P, K, E>::Finish(proof)
        }
}

/// A proof that was loaded carries the number that it was asked for by.
pub proof fn law_a_loaded_proof_carries_its_number<P, K, E>(
    request: LoadRequest,
    proof: Proof<P, K>,
)
    requires
        loads::<P, K, E>(request, proof),
    ensures
        proof.block_number == request.block_number,
{
    let (states, events, actions) = choose|
        states: Seq<Loading<P>>,
        events: Seq<LoadEvent<P, K, E>>,
        actions: Seq<LoadAction<P, K, E>>,
    |
        #![trigger is_run(request, states, events, actions)]
        {
            &&& is_run(request, states, events, actions)
            &&& actions.len() > 0
            &&& actions.last() == LoadAction::<P, K, E>::Finish(proof)
        };
    law_a_read_proof_is_the_stored_one(request, states, events, actions, proof);
}

/// What the store and the decoder are taken to hold: the row that answers a
/// question, the key under an identifier, and what is encoded in some bytes,
/// where something is.
pub struct Services<P, K> {
    pub row: spec_fn(ProofQuery) -> ProofRow,
    pub key: spec_fn(Seq<char>) -> Seq<u8>,
    pub proof: spec_fn(Seq<u8>) -> Option<ZkProof<P>>,
    pub public_values: spec_fn(Seq<u8>) -> Option<Seq<u8>>,
    pub vk: spec_fn(Seq<u8>) -> Option<VerifyingKey<K>>,
}

/// Whether `event` is what the services answer to `action`.
pub open spec fn answers<P, K, E>(
    services: Services<P, K>,
    action: LoadAction<P, K, E>,
    event: LoadEvent<P, K, E>,
) -> bool {
    match (action, event) {
        (LoadAction::Query(query), LoadEvent::Row(row)) => row == (services.row)(query),
        (LoadAction::Sleep(_), LoadEvent::Pause) => true,
        (
            LoadAction::Decode { proof: bytes, public_values: encoded },
            LoadEvent::Contents(proof, public_values),
        ) => {
            &&& Some(proof) == (services.proof)(bytes@)
            &&& Some(public_values@) == (services.public_values)(encoded@)
        },
        (LoadAction::FetchKey(id), LoadEvent::Key(vk)) => Some(vk) == (services.vk)(
            (services.key)(id@),
        ),
        _ => false,
    }
}

/// Whether each of the events is what the services answer to the action before
/// it. The first action is the question that the reading begins with.
pub open spec fn is_answered<P, K, E>(
    services: Services<P, K>,
    first: LoadAction<P, K, E>,
    events: Seq<LoadEvent<P, K, E>>,
    actions: Seq<LoadAction<P, K, E>>,
) -> bool {
    &&& events.len() > 0 ==> answers(services, first, events[0])
    &&& forall|i: int|
        0 < i < events.len() ==> answers(services, actions[i - 1], #[trigger] events[i])
}

/// A proof that is there is read without waiting: the third answer ends the
/// reading with exactly what the store holds.
pub proof fn law_a_stored_proof_is_read<P, K, E>(
    services: Services<P, K>,
    request: LoadRequest,
    query: ProofQuery,
    states: Seq<Loading<P>>,
    events: Seq<LoadEvent<P, K, E>>,
    actions: Seq<LoadAction<P, K, E>>,
)
    requires
        request.asks(query),
        is_run(request, states, events, actions),
        is_answered(services, LoadAction::Query(query), events, actions),
        (services.row)(query).proof@.len() > 0,
    ensures
        events.len() <= 3,
        forall|i: int| 0 <= i < actions.len() ==> #[trigger] actions[i] !is Sleep,
        events.len() >= 1 ==> actions[0] == (LoadAction::<P, K, E>::Decode {
            proof: (services.row)(query).proof,
            public_values: (services.row)(query).public_values,
        }),
        events.len() >= 2 ==> actions[1] == LoadAction::<P, K, E>::FetchKey(
            (services.row)(query).vk_id,
        ),
        events.len() == 3 ==> {
            let row = (services.row)(query);
            &&& actions[2] matches LoadAction::Finish(loaded)
            &&& loaded.block_number == request.block_number
            &&& Some(loaded.proof) == (services.proof)(row.proof@)
            &&& Some(loaded.public_values@) == (services.public_values)(row.public_values@)
            &&& Some(loaded.vk) == (services.vk)((services.key)(row.vk_id@))
        },
{
    let first: int = 0;
    if events.len() > 0 {
        assert(states[first].awaits(events[first]));
        assert(follows(states[first], events[first], states[first + 1], actions[first]));
    }
    if events.len() > 1 {
        let second: int = 1;
        assert(answers(services, actions[second - 1], events[second]));
        assert(states[second].awaits(events[second]));
        assert(follows(states[second], events[second], states[second + 1], actions[second]));
    }
    if events.len() > 2 {
        let third: int = 2;
        assert(answers(services, actions[third - 1], events[third]));
        assert(states[third].awaits(events[third]));
        assert(follows(states[third], events[third], states[third + 1], actions[third]));
        if events.len() > 3 {
            assert(states[third + 1].awaits(events[third + 1]));
        }
    }
}

/// Whether the store gives back in `row` what was written to it in `success`.
pub open spec fn holds(row: ProofRow, success: AggregationSuccess) -> bool {
    &&& row.proof@ == success.proof@
    &&& row.public_values@ == success.public_values@
    &&& row.vk_id@ == success.vk_id@
}

/// The aggregate of a block is asked for under the number that it was written
/// under, and the aggregate of another block is not.
pub proof fn law_an_aggregate_is_asked_for_where_it_was_written(
    block_number: u64,
    outcome: AggregationOutcome,
    success: AggregationSuccess,
    key: VerifierKey,
    request: LoadRequest,
    query: ProofQuery,
)
    requires
        records(block_number, outcome, success, key),
        request.asks(query),
    ensures
        query == ProofQuery::Aggregation(success.block_number) <==> request.is_aggregate
            && request.block_number == block_number,
{
    law_stored_numbers_differ(block_number, request.block_number);
}

/// An aggregate is read back as it was written. Where the store keeps what is
/// written to it, and the decoder finds in the bytes of an outcome the aggregate
/// that they were made of, but no proof where there are no bytes, loading the
/// aggregate of the block asks for what was written, does not wait, and ends at
/// the third answer with the number of the block, the same proof, the same
/// public values and the same key.
pub proof fn law_an_aggregate_is_read_back_as_written<P, K, E>(
    block_number: u64,
    outcome: AggregationOutcome,
    aggregate: ProofWithPublicValues<P>,
    vk: VerifyingKey<K>,
    success: AggregationSuccess,
    key: VerifierKey,
    services: Services<P, K>,
    query: ProofQuery,
    states: Seq<Loading<P>>,
    events: Seq<LoadEvent<P, K, E>>,
    actions: Seq<LoadAction<P, K, E>>,
)
    requires
        records(block_number, outcome, success, key),
        holds((services.row)(ProofQuery::Aggregation(success.block_number)), success),
        (services.key)(key.id@) == key.key@,
        (services.proof)(Seq::empty()) is None,
        (services.proof)(outcome.proof@) == Some(aggregate.proof),
        (services.public_values)(outcome.public_values@) == Some(aggregate.public_values@),
        (services.vk)(outcome.vk@) == Some(vk),
        (LoadRequest { block_number, is_aggregate: true }).asks(query),
        is_run(LoadRequest { block_number, is_aggregate: true }, states, events, actions),
        is_answered(services, LoadAction::Query(query), events, actions),
    ensures
        query == ProofQuery::Aggregation(success.block_number),
        events.len() <= 3,
        forall|i: int| 0 <= i < actions.len() ==> #[trigger] actions[i] !is Sleep,
        events.len() >= 1 ==> {
            &&& actions[0] matches LoadAction::Decode { proof, public_values }
            &&& proof@ == outcome.proof@
            &&& public_values@ == outcome.public_values@
        },
        events.len() >= 2 ==> {
            &&& actions[1] matches LoadAction::FetchKey(id)
            &&& id@ == key.id@
        },
        events.len() == 3 ==> {
            &&& actions[2] matches LoadAction::Finish(loaded)
            &&& loaded.block_number == block_number
            &&& loaded.proof == aggregate.proof
            &&& loaded.public_values@ == aggregate.public_values@
            &&& loaded.vk == vk
        },
{
    if outcome.proof@.len() == 0 {
        assert(outcome.proof@ =~= Seq::empty());
    }
    law_a_stored_proof_is_read(
        services,
        LoadRequest { block_number, is_aggregate: true },
        query,
        states,
        events,
        actions,
    );
}

/// A request asks for exactly one row: the one of its own block, among the
/// aggregates where an aggregate is wanted and among the block proofs where not.
pub proof fn law_a_request_asks_for_its_own_row(request: LoadRequest, query: ProofQuery)
    ensures
        request.asks(query) ==> match query {
            ProofQuery::Aggregation(id) => request.is_aggregate && (id == request.block_number || id
                == request.block_number - 0x1_0000_0000_0000_0000),
            ProofQuery::Block(id) => !request.is_aggregate && (id == request.block_number || id
                == request.block_number - 0x1_0000_0000_0000_0000),
        },
        request.block_number <= i64::MAX && request.is_aggregate ==> (request.asks(query) <==> query
            == ProofQuery::Aggregation(request.block_number as i64)),
        request.block_number <= i64::MAX && !request.is_aggregate ==> (request.asks(query) <==> query
            == ProofQuery::Block(request.block_number as i64)),
{
}

/// Two requests ask for the same row only where they are the same request.
pub proof fn law_two_requests_ask_for_two_rows(a: LoadRequest, b: LoadRequest, query: ProofQuery)
    requires
        a.asks(query),
        b.asks(query),
    ensures
        a.block_number == b.block_number,
        a.is_aggregate == b.is_aggregate,
{
    law_stored_numbers_differ(a.block_number, b.block_number);
}

/// What a reading does with each answer, in terms of the request and of the
/// answers before it. An empty row is waited for half a second, after which the
/// row of the same block is asked for again; a row that is not empty is decoded
/// as it is; then the key that the row names is fetched; and the proof that
/// comes out carries the requested number, what was decoded, and that key.
pub proof fn law_what_a_reading_does_next<P, K, E>(
    request: LoadRequest,
    states: Seq<Loading<P>>,
    events: Seq<LoadEvent<P, K, E>>,
    actions: Seq<LoadAction<P, K, E>>,
    i: int,
)
    requires
        is_run(request, states, events, actions),
        0 <= i < events.len(),
    ensures
        match events[i] {
            LoadEvent::Row(row) => {
                &&& row.proof@.len() == 0 ==> actions[i] == LoadAction::<P, K, E>::Sleep(500)
                &&& row.proof@.len() > 0 ==> {
                    &&& actions[i] matches LoadAction::Decode { proof, public_values }
                    &&& proof@ == row.proof@
                    &&& public_values@ == row.public_values@
                }
            },
            LoadEvent::Pause => actions[i] matches LoadAction::Query(query) && match query {
                ProofQuery::Aggregation(id) => request.is_aggregate && (id == request.block_number
                    || id == request.block_number - 0x1_0000_0000_0000_0000),
                ProofQuery::Block(id) => !request.is_aggregate && (id == request.block_number || id
                    == request.block_number - 0x1_0000_0000_0000_0000),
            },
            LoadEvent::Contents(_, _) => {
                &&& i >= 1
                &&& events[i - 1] matches LoadEvent::Row(row)
                &&& row.proof@.len() > 0
                &&& actions[i] matches LoadAction::FetchKey(id)
                &&& id@ == row.vk_id@
            },
            LoadEvent::Key(vk) => {
                &&& i >= 2
                &&& events[i - 1] matches LoadEvent::Contents(proof, public_values)
                &&& actions[i] matches LoadAction::Finish(loaded)
                &&& loaded.block_number == request.block_number
                &&& loaded.proof == proof
                &&& loaded.public_values@ == public_values@
                &&& loaded.vk == vk
            },
            LoadEvent::Failed(error) => actions[i] == LoadAction::<P, K, E>::Fail(error),
        },
{
    lemma_run_is_about(request, states, events, actions, i);
    assert(states[i].awaits(events[i]));
    assert(follows(states[i], events[i], states[i + 1], actions[i]));
    if i > 0 {
        assert(states[i - 1].awaits(events[i - 1]));
        assert(follows(states[i - 1], events[i - 1], states[i - 1 + 1], actions[i - 1]));
    }
    if i > 1 {
        assert(states[i - 2].awaits(events[i - 2]));
        assert(follows(states[i - 2], events[i - 2], states[i - 2 + 1], actions[i - 2]));
    }
}

/// A reading takes every answer to what it asked for, and a failure in its
/// place, whatever the request; and it takes nothing once it has ended.
pub proof fn law_a_reading_takes_every_answer<P, K, E>(
    request: LoadRequest,
    states: Seq<Loading<P>>,
    events: Seq<LoadEvent<P, K, E>>,
    actions: Seq<LoadAction<P, K, E>>,
    row: ProofRow,
    proof: ZkProof<P>,
    public_values: Vec<u8>,
    vk: VerifyingKey<K>,
    error: E,
)
    requires
        is_run(request, states, events, actions),
    ensures
        actions.len() == 0 || actions.last() is Query ==> {
            &&& states.last().awaits(LoadEvent::<P, K, E>::Row(row))
            &&& states.last().awaits(LoadEvent::<P, K, E>::Failed(error))
        },
        actions.len() > 0 && actions.last() is Sleep ==> states.last().awaits(
            LoadEvent::<P, K, E>::Pause,
        ),
        actions.len() > 0 && actions.last() is Decode ==> {
            &&& states.last().awaits(LoadEvent::<P, K, E>::Contents(proof, public_values))
            &&& states.last().awaits(LoadEvent::<P, K, E>::Failed(error))
        },
        actions.len() > 0 && actions.last() is FetchKey ==> {
            &&& states.last().awaits(LoadEvent::<P, K, E>::Key(vk))
            &&& states.last().awaits(LoadEvent::<P, K, E>::Failed(error))
        },
        actions.len() > 0 && (actions.last() is Finish || actions.last() is Fail) ==> {
            &&& !states.last().awaits(LoadEvent::<P, K, E>::Row(row))
            &&& !states.last().awaits(LoadEvent::<P, K, E>::Failed(error))
        },
{
    let n = events.len() as int;
    if n > 0 {
        assert(states[n - 1].awaits(events[n - 1]));
        assert(follows(states[n - 1], events[n - 1], states[n - 1 + 1], actions[n - 1]));
    }
}

} // verus!
