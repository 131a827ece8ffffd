//! What goes into the aggregate of a block.
//!
//! The proofs of blocks are folded, one after the other, into one aggregate. Two
//! workers share the task: the preparer gathers the two proofs of an aggregate,
//! and the aggregator proves it.

use vstd::prelude::*;

use crate::zk::Proof;

verus! {

/// Where one of the two proofs of an aggregate is to be had.
#[derive(Debug, Clone, Copy, PartialEq, Eq, Structural)]
pub enum ProofSource {
    /// The proof of this block, from the store.
    Block(u64),
    /// The aggregate of all blocks up to this one, from the store.
    StoredAggregate(u64),
    /// The aggregate of all blocks up to this one, from the aggregator.
    ReceivedAggregate(u64),
}

impl ProofSource {
    /// The block that the proof is of, or that it is the aggregate up to.
    pub open spec fn number(self) -> u64 {
        match self {
            ProofSource::Block(n) => n,
            ProofSource::StoredAggregate(n) => n,
            ProofSource::ReceivedAggregate(n) => n,
        }
    }
}

/// The two proofs that go into the aggregate of `block_number`. The first
/// aggregate there is takes the proofs of the first two blocks; any other takes
/// the proof of its block and the aggregate before it, which is in the store
/// after a restart and is handed back by the aggregator otherwise.
pub open spec fn sources(restart: bool, block_number: u64) -> (ProofSource, ProofSource) {
    if block_number == 2 {
        (ProofSource::Block(1), ProofSource::Block(2))
    } else if restart {
        (
            ProofSource::Block(block_number),
            ProofSource::StoredAggregate((block_number - 1) as u64),
        )
    } else {
        (
            ProofSource::Block(block_number),
            ProofSource::ReceivedAggregate((block_number - 1) as u64),
        )
    }
}

/// The proofs that go into the aggregate of a block.
#[derive(Debug)]
pub struct AggregationInput<P, K> {
    pub block_number: u64,
    pub first: Proof<P, K>,
    pub second: Proof<P, K>,
}

/// What is written to the aggregation program, list after list, and the proofs
/// that go with them.
#[derive(Debug)]
pub struct AggregationStdin<P, K> {
    pub block_numbers: Vec<u64>,
    pub vkeys: Vec<[u32; 8]>,
    pub public_values: Vec<Vec<u8>>,
    pub proofs: Vec<(P, K)>,
}

impl<P, K> AggregationStdin<P, K> {
    /// Whether the lists are those of the given proofs, in the same order.
    pub open spec fn lists(self, inputs: Seq<Proof<P, K>>) -> bool {
        &&& self.block_numbers@.len() == inputs.len()
        &&& self.vkeys@.len() == inputs.len()
        &&& self.public_values@.len() == inputs.len()
        &&& self.proofs@.len() == inputs.len()
        &&& forall|i: int|
            0 <= i < inputs.len() ==> {
                &&& self.block_numbers@[i] == (#[trigger] inputs[i]).block_number
                &&& self.vkeys@[i] == inputs[i].vk.hash
                &&& self.public_values@[i]@ == inputs[i].public_values@
                &&& self.proofs@[i] == (inputs[i].proof.inner, inputs[i].vk.inner)
            }
    }
}

/// One write to the aggregation program's input.
#[derive(Debug, PartialEq, Eq)]
pub enum StdinWrite<P, K> {
    BlockNumbers(Vec<u64>),
    VerifyingKeys(Vec<[u32; 8]>),
    PublicValues(Vec<Vec<u8>>),
    /// A proof, which the program does not read, and the key that verifies it.
    Proof(P, K),
}

impl<P, K> AggregationStdin<P, K> {
    /// The writes that hand the lists to the program, in the order in which it
    /// reads them: the block numbers, the keys, the public values, and then one
    /// proof after the other.
    pub open spec fn writes(self) -> Seq<StdinWrite<P, K>> {
        seq![
            StdinWrite::BlockNumbers(self.block_numbers),
            StdinWrite::VerifyingKeys(self.vkeys),
            StdinWrite::PublicValues(self.public_values),
        ] + self.proofs@.map_values(|proof: (P, K)| StdinWrite::<P, K>::Proof(proof.0, proof.1))
    }

    /// The writes that hand the lists to the program, in order.
    pub fn into_writes(self) -> (r: Vec<StdinWrite<P, K>>)
        ensures
            r@ == self.writes(),
            r@.len() == 3 + self.proofs@.len(),
            r@[0] == StdinWrite::<P, K>::BlockNumbers(self.block_numbers),
            r@[1] == StdinWrite::<P, K>::VerifyingKeys(self.vkeys),
            r@[2] == StdinWrite::<P, K>::PublicValues(self.public_values),
            forall|i: int|
                0 <= i < self.proofs@.len() ==> r@[3 + i] == StdinWrite::<P, K>::Proof(
                    (#[trigger] self.proofs@[i]).0,
                    self.proofs@[i].1,
                ),
    {
        let ghost proofs = self.proofs@;
        let ghost lists = seq![
            StdinWrite::BlockNumbers(self.block_numbers),
            StdinWrite::VerifyingKeys(self.vkeys),
            StdinWrite::PublicValues(self.public_values),
        ];
        let mut writes: Vec<StdinWrite<P, K>> = Vec::new();
        writes.push(StdinWrite::BlockNumbers(self.block_numbers));
        writes.push(StdinWrite::VerifyingKeys(self.vkeys));
        writes.push(StdinWrite::PublicValues(self.public_values));
        assert(writes@ =~= lists);
        for proof in it: self.proofs
            invariant
                it.seq() == proofs,
                lists.len() == 3,
                writes@.len() == 3 + it.index(),
                forall|i: int| 0 <= i < 3 ==> #[trigger] writes@[i] == lists[i],
                forall|i: int|
                    0 <= i < it.index() ==> writes@[3 + i] == StdinWrite::<P, K>::Proof(
                        (#[trigger] proofs[i]).0,
                        proofs[i].1,
                    ),
        {
            writes.push(StdinWrite::Proof(proof.0, proof.1));
        }
        proof {
            assert forall|i: int| 0 <= i < writes@.len() implies #[trigger] writes@[i]
                == self.writes()[i] by {
                if i >= 3 {
                    assert(writes@[3 + (i - 3)] == StdinWrite::<P, K>::Proof(
                        proofs[i - 3].0,
                        proofs[i - 3].1,
                    ));
                }
            }
            assert(writes@ =~= self.writes());
        }
        writes
    }
}

/// Whether every proof is of the kind that can be aggregated.
pub open spec fn all_compressed<P, K>(inputs: Seq<Proof<P, K>>) -> bool {
    forall|i: int| 0 <= i < inputs.len() ==> (#[trigger] inputs[i]).proof.compressed
}

/// Whether every proof can be aggregated.
pub fn can_aggregate<P, K>(inputs: &Vec<Proof<P, K>>) -> (r: bool)
    ensures
        r == all_compressed(inputs@),
        r <==> forall|i: int| 0 <= i < inputs@.len() ==> (#[trigger] inputs@[i]).proof.compressed,
{
    let mut i: usize = 0;
    while i < inputs.len()
        invariant
            i <= inputs@.len(),
            forall|j: int| 0 <= j < i ==> (#[trigger] inputs@[j]).proof.compressed,
        decreases inputs@.len() - i,
    {
        if !inputs[i].proof.compressed {
            return false;
        }
        i = i + 1;
    }
    true
}

/// Lays out proofs for the aggregation program.
pub fn generate_aggregation_proof<P, K>(inputs: Vec<Proof<P, K>>) -> (r: AggregationStdin<P, K>)
    requires
        all_compressed(inputs@),
    ensures
        r.lists(inputs@),
        r.block_numbers@.len() == inputs@.len(),
        r.vkeys@.len() == inputs@.len(),
        r.public_values@.len() == inputs@.len(),
        r.proofs@.len() == inputs@.len(),
        forall|i: int|
            0 <= i < inputs@.len() ==> {
                &&& r.block_numbers@[i] == (#[trigger] inputs@[i]).block_number
                &&& r.vkeys@[i] == inputs@[i].vk.hash
                &&& r.public_values@[i]@ == inputs@[i].public_values@
                &&& r.proofs@[i] == (inputs@[i].proof.inner, inputs@[i].vk.inner)
            },
{
    let mut block_numbers: Vec<u64> = Vec::new();
    let mut vkeys: Vec<[u32; 8]> = Vec::new();
    let mut public_values: Vec<Vec<u8>> = Vec::new();
    let mut proofs: Vec<(P, K)> = Vec::new();
    for input in it: inputs
        invariant
            block_numbers@.len() == it.index(),
            vkeys@.len() == it.index(),
            public_values@.len() == it.index(),
            proofs@.len() == it.index(),
            it.seq() == inputs@,
            forall|i: int|
                0 <= i < it.index() ==> {
                    &&& block_numbers@[i] == (#[trigger] inputs@[i]).block_number
                    &&& vkeys@[i] == inputs@[i].vk.hash
                    &&& public_values@[i]@ == inputs@[i].public_values@
                    &&& proofs@[i] == (inputs@[i].proof.inner, inputs@[i].vk.inner)
                },
    {
        block_numbers.push(input.block_number);
        vkeys.push(input.vk.hash);
        public_values.push(input.public_values);
        proofs.push((input.proof.inner, input.vk.inner));
    }
    AggregationStdin { block_numbers, vkeys, public_values, proofs }
}

/// The program is handed three lists, each with one entry for every proof in the
/// order of the proofs, and after them the proofs themselves in that order.
pub proof fn law_the_lists_are_written_before_the_proofs<P, K>(
    stdin: AggregationStdin<P, K>,
    inputs: Seq<Proof<P, K>>,
    i: int,
)
    requires
        stdin.lists(inputs),
        0 <= i < inputs.len(),
    ensures
        stdin.writes().len() == 3 + inputs.len(),
        stdin.writes()[0] matches StdinWrite::BlockNumbers(numbers) && numbers@.len()
            == inputs.len() && numbers@[i] == inputs[i].block_number,
        stdin.writes()[1] matches StdinWrite::VerifyingKeys(vkeys) && vkeys@.len()
            == inputs.len() && vkeys@[i] == inputs[i].vk.hash,
        stdin.writes()[2] matches StdinWrite::PublicValues(values) && values@.len()
            == inputs.len() && values@[i]@ == inputs[i].public_values@,
        stdin.writes()[3 + i] == StdinWrite::<P, K>::Proof(
            inputs[i].proof.inner,
            inputs[i].vk.inner,
        ),
{
}

/// Whether the proof from `source` is about the block `k`.
pub open spec fn covers(source: ProofSource, k: int) -> bool {
    match source {
        ProofSource::Block(n) => k == n,
        ProofSource::StoredAggregate(n) => 1 <= k <= n,
        ProofSource::ReceivedAggregate(n) => 1 <= k <= n,
    }
}

/// The two proofs of an aggregate are together about every block from the first
/// to the one that is aggregated, and about none of them twice.
pub proof fn law_an_aggregate_covers_every_block_once(restart: bool, block_number: u64, k: int)
    requires
        block_number >= 2,
    ensures
        ({
            let (first, second) = sources(restart, block_number);
            &&& covers(first, k) || covers(second, k) <==> 1 <= k <= block_number
            &&& !(covers(first, k) && covers(second, k))
        }),
{
}

/// Proofs can be aggregated exactly where each of them is compressed, however
/// many there are and whatever blocks they are of.
pub proof fn law_only_compressed_proofs_are_aggregated<P, K>(inputs: Seq<Proof<P, K>>)
    ensures
        all_compressed(inputs) <==> forall|i: int|
            0 <= i < inputs.len() ==> (#[trigger] inputs[i]).proof.compressed,
{
}

/// The aggregate of the second block takes the proofs of the first two blocks.
/// That of any later block takes the proof of the block itself, and after it the
/// aggregate of the block before: from the store after a restart, and from the
/// aggregator otherwise.
pub proof fn law_where_the_two_proofs_come_from(restart: bool, block_number: u64)
    requires
        block_number >= 2,
    ensures
        ({
            let (first, second) = sources(restart, block_number);
            &&& block_number == 2 ==> first == ProofSource::Block(1) && second
                == ProofSource::Block(2)
            &&& block_number > 2 ==> first == ProofSource::Block(block_number)
            &&& block_number > 2 && restart ==> {
                &&& second matches ProofSource::StoredAggregate(n)
                &&& n + 1 == block_number
            }
            &&& block_number > 2 && !restart ==> {
                &&& second matches ProofSource::ReceivedAggregate(n)
                &&& n + 1 == block_number
            }
        }),
{
}

} // verus!
