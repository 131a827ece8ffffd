//! What is written to the store as blocks are aggregated.
//!
//! The store keeps numbers as signed integers of 64 bits, so every number that
//! is written or asked for goes through [`stored_number`].

use vstd::prelude::*;

use crate::status::{law_status_words_differ, ProvableBlockStatus};

verus! {

/// The signed integer of 64 bits that agrees with `value` modulo two to the 64.
pub open spec fn stored(value: u64) -> int {
    if value <= i64::MAX {
        value as int
    } else {
        value - 0x1_0000_0000_0000_0000
    }
}

/// A number in the form in which the store keeps it.
pub fn stored_number(value: u64) -> (r: i64)
    ensures
        r == stored(value),
        r == value || r == value - 0x1_0000_0000_0000_0000,
{
    assert(value <= 0x7fff_ffff_ffff_ffffu64 ==> (value as i64) == value) by (bit_vector);
    assert(value > 0x7fff_ffff_ffff_ffffu64 ==> (value as i64) == value - 0x1_0000_0000_0000_0000)
        by (bit_vector);
    #[verifier::truncate]
    (value as i64)
}

/// Different numbers are kept apart by the store, and a number that fits is
/// kept as it is.
pub proof fn law_stored_numbers_differ(a: u64, b: u64)
    ensures
        stored(a) == stored(b) <==> a == b,
        a <= i64::MAX ==> stored(a) == a,
{
}

/// The row that is made when the aggregation of a block begins.
#[derive(Debug, PartialEq, Eq)]
pub struct AggregationTask {
    pub block_number: i64,
    pub status: String,
}

/// What is written to that row when the aggregation succeeds.
#[derive(Debug, PartialEq, Eq)]
pub struct AggregationSuccess {
    pub block_number: i64,
    pub proving_millis: i64,
    pub instruction_count: i64,
    pub proof: Vec<u8>,
    pub public_values: Vec<u8>,
    pub vk_id: String,
    pub status: String,
}

/// A verifying key, to be found again by its identifier.
#[derive(Debug, PartialEq, Eq)]
pub struct VerifierKey {
    pub id: String,
    pub key: Vec<u8>,
}

/// What is written to the row when the aggregation fails.
#[derive(Debug, PartialEq, Eq)]
pub struct AggregationFailure {
    pub block_number: i64,
    pub status: String,
    pub reason: String,
}

/// What comes out of proving an aggregation, in the form in which it is stored.
#[derive(Debug, PartialEq, Eq)]
pub struct AggregationOutcome {
    pub proving_millis: i64,
    pub instruction_count: u64,
    pub proof: Vec<u8>,
    pub public_values: Vec<u8>,
    pub vk_id: String,
    pub vk: Vec<u8>,
}

/// Whether `task` is the row that is made when the aggregation of a block begins.
pub open spec fn queues(block_number: u64, task: AggregationTask) -> bool {
    &&& task.block_number == stored(block_number)
    &&& task.status@ == ProvableBlockStatus::Queued.word()
}

/// The row to make when the aggregation of a block begins.
pub fn on_aggregation_start(block_number: u64) -> (r: AggregationTask)
    ensures
        queues(block_number, r),
        r.status@ == "queued"@,
        r.block_number == block_number || r.block_number == block_number
            - 0x1_0000_0000_0000_0000,
{
    AggregationTask {
        block_number: stored_number(block_number),
        status: ProvableBlockStatus::Queued.to_string(),
    }
}

/// Whether `success` and `key` are what is written of the outcome of
/// aggregating a block.
pub open spec fn records(
    block_number: u64,
    outcome: AggregationOutcome,
    success: AggregationSuccess,
    key: VerifierKey,
) -> bool {
    &&& success.block_number == stored(block_number)
    &&& success.proving_millis == outcome.proving_millis
    &&& success.instruction_count == stored(outcome.instruction_count)
    &&& success.proof == outcome.proof
    &&& success.public_values == outcome.public_values
    &&& success.vk_id@ == outcome.vk_id@
    &&& success.status@ == ProvableBlockStatus::Proved.word()
    &&& key.id@ == outcome.vk_id@
    &&& key.key == outcome.vk
}

/// What to write when the aggregation of a block has succeeded: the outcome
/// first, then the verifying key under the identifier that the outcome names.
pub fn on_aggregation_end(block_number: u64, outcome: AggregationOutcome) -> (r: (
    AggregationSuccess,
    VerifierKey,
))
    ensures
        records(block_number, outcome, r.0, r.1),
        r.0.status@ == "proved"@,
        r.0.block_number == block_number || r.0.block_number == block_number
            - 0x1_0000_0000_0000_0000,
        r.0.vk_id@ == r.1.id@,
{
    let success = AggregationSuccess {
        block_number: stored_number(block_number),
        proving_millis: outcome.proving_millis,
        instruction_count: stored_number(outcome.instruction_count),
        proof: outcome.proof,
        public_values: outcome.public_values,
        vk_id: outcome.vk_id.clone(),
        status: ProvableBlockStatus::Proved.to_string(),
    };
    let key = VerifierKey { id: outcome.vk_id, key: outcome.vk };
    (success, key)
}

/// Whether `failure` is what is written when the aggregation of a block fails.
pub open spec fn records_failure(
    block_number: u64,
    reason: String,
    failure: AggregationFailure,
) -> bool {
    &&& failure.block_number == stored(block_number)
    &&& failure.status@ == ProvableBlockStatus::Failed.word()
    &&& failure.reason == reason
}

/// What to write when the aggregation of a block has failed.
pub fn on_aggregation_failed(block_number: u64, reason: String) -> (r: AggregationFailure)
    ensures
        records_failure(block_number, reason, r),
        r.status@ == "failed"@,
        r.block_number == block_number || r.block_number == block_number
            - 0x1_0000_0000_0000_0000,
{
    AggregationFailure {
        block_number: stored_number(block_number),
        status: ProvableBlockStatus::Failed.to_string(),
        reason,
    }
}

/// A number is kept modulo two to the 64, and in the one way in which that fits
/// into a signed integer of 64 bits.
pub proof fn law_a_number_is_kept_modulo_two_to_the_64(value: u64)
    ensures
        stored(value) == value || stored(value) == value - 0x1_0000_0000_0000_0000,
        i64::MIN <= stored(value) <= i64::MAX,
{
}

/// Whatever the block, a new row is queued, under the number of the block.
pub proof fn law_a_new_row_is_queued(block_number: u64, task: AggregationTask)
    requires
        queues(block_number, task),
    ensures
        task.status@ == "queued"@,
        task.block_number == block_number || task.block_number == block_number
            - 0x1_0000_0000_0000_0000,
{
}

/// Whatever the block, what is written of a success says that it was proved,
/// under the number of the block, and keeps every part of the outcome; and the
/// key goes under the identifier that the success names.
pub proof fn law_a_success_is_written_as_proved(
    block_number: u64,
    outcome: AggregationOutcome,
    success: AggregationSuccess,
    key: VerifierKey,
)
    requires
        records(block_number, outcome, success, key),
    ensures
        success.status@ == "proved"@,
        success.block_number == block_number || success.block_number == block_number
            - 0x1_0000_0000_0000_0000,
        success.proving_millis == outcome.proving_millis,
        success.instruction_count == outcome.instruction_count || success.instruction_count
            == outcome.instruction_count - 0x1_0000_0000_0000_0000,
        success.proof@ == outcome.proof@,
        success.public_values@ == outcome.public_values@,
        success.vk_id@ == outcome.vk_id@,
        success.vk_id@ == key.id@,
        key.key@ == outcome.vk@,
{
}

/// Whatever the block, what is written of a failure says that it failed, under
/// the number of the block and for the reason given.
pub proof fn law_a_failure_is_written_as_failed(
    block_number: u64,
    reason: String,
    failure: AggregationFailure,
)
    requires
        records_failure(block_number, reason, failure),
    ensures
        failure.status@ == "failed"@,
        failure.block_number == block_number || failure.block_number == block_number
            - 0x1_0000_0000_0000_0000,
        failure.reason@ == reason@,
{
}

/// The rows of two blocks never fall together: whatever is written for one, be
/// it a new row, a success or a failure, has another number than what is
/// written for the other.
pub proof fn law_rows_of_two_blocks_are_apart(
    a: u64,
    b: u64,
    task: AggregationTask,
    outcome: AggregationOutcome,
    success: AggregationSuccess,
    key: VerifierKey,
    reason: String,
    failure: AggregationFailure,
)
    requires
        queues(a, task),
        records(b, outcome, success, key),
        records_failure(b, reason, failure),
    ensures
        task.block_number == success.block_number <==> a == b,
        task.block_number == failure.block_number <==> a == b,
        task.status@ != success.status@,
        task.status@ != failure.status@,
        success.status@ != failure.status@,
{
    law_stored_numbers_differ(a, b);
    law_status_words_differ(ProvableBlockStatus::Queued, ProvableBlockStatus::Proved);
    law_status_words_differ(ProvableBlockStatus::Queued, ProvableBlockStatus::Failed);
    law_status_words_differ(ProvableBlockStatus::Proved, ProvableBlockStatus::Failed);
}

} // verus!
