//! Making the input that the client executes a block from.
//!
//! The node, the state trie and the virtual machine are outside. What is here
//! decides, from one of their answers to the next, what is asked of them, when
//! the block is refused, and what goes into the client's input.

use std::collections::BTreeMap;
use std::sync::Arc;

use vstd::prelude::*;

use crate::ancestors::{
    hash_views, header_hashes, is_ancestor_chain, is_hash_table,
    law_any_order_of_a_chain_is_sorted_into_it, law_arrival_order_does_not_matter,
    law_every_link_of_a_chain_is_checked, law_hash_table_is_unique, law_sorted_is_a_permutation,
    law_the_table_holds_the_digest_of_every_ancestor, link_ancestors, sort_by_number,
    sorted_by_number, StatelessValidationError,
};
use crate::hash::{keccak256_digest, B256};
use crate::header::{decoded_header, header_views, Header, HeaderView};

verus! {

/// Why no client input could be made. `E` is an error of one of the services
/// that are asked.
#[derive(Debug, PartialEq, Eq)]
pub enum HostError<E> {
    /// The node does not know a block that is needed for the block with this number.
    ExpectedBlock(u64),
    /// The sender of some transaction cannot be recovered.
    FailedToRecoverSenders,
    /// Some ancestor header is not well formed.
    HeaderDeserializationFailed,
    /// There is no ancestor header to take the state before the block from.
    MissingAncestorHeader,
    /// The ancestor headers were refused.
    StatelessValidation(StatelessValidationError),
    /// Executing the block leads to the first state root, its header names the second.
    StateRootMismatch(B256, B256),
    /// A service failed.
    Service(E),
}

/// What a caller asks for. `G` is the genesis description.
#[derive(Debug)]
pub struct ExecutionRequest<G> {
    pub block_number: u64,
    pub genesis: G,
    pub custom_beneficiary: Option<[u8; 20]>,
    pub opcode_tracking: bool,
}

/// A block as the node gave it, with the fields of its header that are read here.
#[derive(Debug)]
pub struct FetchedBlock<B> {
    pub number: u64,
    pub parent_hash: B256,
    pub state_root: B256,
    pub block: B,
}

/// What the client executes a block from. `R` is what it asks of the state
/// beforehand; an input that is made here asks nothing, which is the default.
#[derive(Debug)]
pub struct ClientExecutorInput<B, S, R, C, G> {
    pub current_block: B,
    pub ancestor_headers: Vec<Header>,
    pub parent_state: S,
    pub state_requests: R,
    pub bytecodes: Vec<C>,
    pub genesis: G,
    pub custom_beneficiary: Option<[u8; 20]>,
    pub opcode_tracking: bool,
}

/// The ancestors of a block after they were checked.
#[derive(Debug)]
pub struct Ancestors {
    /// The headers, oldest first.
    pub headers: Vec<Header>,
    /// The hash of each of them, by block number.
    pub hashes: BTreeMap<u64, B256>,
    /// The root of the state that the block starts from.
    pub pre_state_root: B256,
}

/// Makes client inputs for one chain.
#[derive(Debug, Clone)]
pub struct HostExecutor<C, CS> {
    pub evm_config: C,
    pub chain_spec: Arc<CS>,
}

/// The bytes of each entry, in the same order.
pub open spec fn byte_views(serialized: Seq<Vec<u8>>) -> Seq<Seq<u8>> {
    Seq::new(serialized.len(), |i: int| serialized[i]@)
}

/// Whether each entry begins with a well-formed header.
pub open spec fn all_decode(serialized: Seq<Seq<u8>>) -> bool {
    forall|i: int| 0 <= i < serialized.len() ==> decoded_header(#[trigger] serialized[i]) is Some
}

/// The headers that the entries begin with, in the same order.
pub open spec fn decoded_headers(serialized: Seq<Seq<u8>>) -> Seq<HeaderView> {
    Seq::new(serialized.len(), |i: int| decoded_header(serialized[i]).unwrap())
}

/// Whether the encoding of each header is its own.
pub open spec fn all_well_formed(headers: Seq<HeaderView>) -> bool {
    forall|i: int| 0 <= i < headers.len() ==> (#[trigger] headers[i]).well_formed()
}

/// Reads a header from each entry.
pub fn decode_headers<E>(serialized: &Vec<Vec<u8>>) -> (r: Result<Vec<Header>, HostError<E>>)
    ensures
        match r {
            Ok(headers) => {
                &&& all_decode(byte_views(serialized@))
                &&& header_views(headers@) == decoded_headers(byte_views(serialized@))
                &&& all_well_formed(header_views(headers@))
            },
            Err(e) => {
                &&& e == HostError::<E>::HeaderDeserializationFailed
                &&& !all_decode(byte_views(serialized@))
            },
        },
        match r {
            Ok(headers) => {
                &&& headers@.len() == serialized@.len()
                &&& forall|i: int|
                    0 <= i < serialized@.len() ==> decoded_header((#[trigger] serialized@[i])@)
                        == Some(headers@[i]@)
            },
            Err(_) => exists|i: int|
                0 <= i < serialized@.len() && decoded_header(
                    (#[trigger] serialized@[i])@,
                ) is None,
        },
{
    let mut headers: Vec<Header> = Vec::new();
    let mut i: usize = 0;
    let ghost bytes = byte_views(serialized@);
    while i < serialized.len()
        invariant
            i <= serialized@.len(),
            bytes == byte_views(serialized@),
            headers@.len() == i,
            forall|j: int|
                0 <= j < i ==> decoded_header(#[trigger] bytes[j]) == Some(headers@[j]@),
            forall|j: int| 0 <= j < i ==> (#[trigger] headers@[j])@.well_formed(),
        decreases serialized@.len() - i,
    {
        assert(bytes[i as int] == serialized@[i as int]@);
        match Header::decode(serialized[i].as_slice()) {
            Some(header) => headers.push(header),
            None => {
                assert(decoded_header(serialized@[i as int]@) is None);
                return Err(HostError::HeaderDeserializationFailed);
            },
        }
        i = i + 1;
    }
    assert forall|j: int| 0 <= j < serialized@.len() implies decoded_header(
        (#[trigger] serialized@[j])@,
    ) == Some(headers@[j]@) by {
        assert(decoded_header(bytes[j]) == Some(headers@[j]@));
    }
    assert(header_views(headers@) =~= decoded_headers(bytes)) by {
        assert forall|j: int| 0 <= j < headers@.len() implies #[trigger] header_views(headers@)[j]
            == decoded_headers(bytes)[j] by {
            assert(decoded_header(bytes[j]) == Some(headers@[j]@));
        }
    }
    Ok(headers)
}

proof fn lemma_sorting_keeps_well_formed(headers: Seq<HeaderView>)
    requires
        all_well_formed(headers),
    ensures
        all_well_formed(sorted_by_number(headers)),
{
    broadcast use vstd::seq_lib::group_to_multiset_ensures;

    let sorted = sorted_by_number(headers);
    law_sorted_is_a_permutation(headers);
    assert forall|i: int| 0 <= i < sorted.len() implies (#[trigger] sorted[i]).well_formed() by {
        assert(sorted.contains(sorted[i]));
        assert(headers.to_multiset().count(sorted[i]) > 0);
        assert(headers.contains(sorted[i]));
    }
}

/// The state that a block starts from is the one its parent, the newest of its
/// ancestors, left behind.
pub fn pre_state_root<E>(headers: &[Header]) -> (r: Result<B256, HostError<E>>)
    ensures
        match r {
            Ok(root) => headers@.len() > 0 && root == headers@.last().state_root,
            Err(e) => headers@.len() == 0 && e == HostError::<E>::MissingAncestorHeader,
        },
{
    if headers.len() == 0 {
        Err(HostError::MissingAncestorHeader)
    } else {
        Ok(headers[headers.len() - 1].state_root)
    }
}

impl<C, CS> HostExecutor<C, CS> {
    pub fn new(evm_config: C, chain_spec: Arc<CS>) -> (r: Self)
        ensures
            r.evm_config == evm_config,
            r.chain_spec == chain_spec,
    {
        HostExecutor { evm_config, chain_spec }
    }

    /// Checks that the headers, which are in ascending order, form an unbroken
    /// chain that leads back from the parent of the block, and returns the hash
    /// of each by its block number.
    pub fn compute_ancestor_hashes<B>(
        &self,
        current_block: &FetchedBlock<B>,
        ancestor_headers: &[Header],
    ) -> (r: Result<BTreeMap<u64, B256>, StatelessValidationError>)
        ensures
            match r {
                Ok(table) => {
                    &&& is_ancestor_chain(
                        header_views(ancestor_headers@),
                        current_block.parent_hash@,
                        current_block.number,
                    )
                    &&& is_hash_table(
                        table@,
                        header_views(ancestor_headers@),
                        header_hashes(header_views(ancestor_headers@)),
                    )
                },
                Err(StatelessValidationError::InvalidAncestorChain) => !is_ancestor_chain(
                    header_views(ancestor_headers@),
                    current_block.parent_hash@,
                    current_block.number,
                ),
            },
            r is Ok <==> {
                &&& ancestor_headers@.len() > 0 ==> keccak256_digest(
                    ancestor_headers@.last().rlp@,
                ) == current_block.parent_hash.0@ && ancestor_headers@.last().number + 1
                    == current_block.number
                &&& forall|i: int|
                    0 <= i < ancestor_headers@.len() - 1 ==> keccak256_digest(
                        (#[trigger] ancestor_headers@[i]).rlp@,
                    ) == ancestor_headers@[i + 1].parent_hash.0@ && ancestor_headers@[i].number + 1
                        == ancestor_headers@[i + 1].number
            },
            r matches Ok(table) ==> {
                &&& forall|k: u64| #[trigger]
                    table@.contains_key(k) <==> current_block.number - ancestor_headers@.len() <= k
                        < current_block.number
                &&& forall|i: int|
                    0 <= i < ancestor_headers@.len() ==> table@[(
                    #[trigger] ancestor_headers@[i]).number].0@ == keccak256_digest(
                        ancestor_headers@[i].rlp@,
                    )
            },
    {
        let mut hashes: Vec<B256> = Vec::new();
        let mut i: usize = 0;
        while i < ancestor_headers.len()
            invariant
                i <= ancestor_headers@.len(),
                hashes@.len() == i,
                forall|j: int|
                    0 <= j < i ==> (#[trigger] hashes@[j])@ == ancestor_headers@[j]@.hash(),
            decreases ancestor_headers@.len() - i,
        {
            hashes.push(ancestor_headers[i].hash_slow());
            i = i + 1;
        }
        assert(hash_views(hashes@) =~= header_hashes(header_views(ancestor_headers@)));
        let r = link_ancestors(
            current_block.parent_hash,
            current_block.number,
            ancestor_headers,
            hashes.as_slice(),
        );
        proof {
            let views = header_views(ancestor_headers@);
            let parent_hash = current_block.parent_hash@;
            let number = current_block.number;
            law_every_link_of_a_chain_is_checked(views, parent_hash, number);
            assert forall|i: int| 0 <= i < views.len() implies #[trigger] views[i]
                == ancestor_headers@[i]@ by {}
            if r is Ok {
                let table = r->Ok_0;
                law_the_table_holds_the_digest_of_every_ancestor(
                    table@,
                    views,
                    parent_hash,
                    number,
                );
                assert forall|i: int| 0 <= i < ancestor_headers@.len() implies table@[(
                #[trigger] ancestor_headers@[i]).number].0@ == keccak256_digest(
                    ancestor_headers@[i].rlp@,
                ) by {
                    assert(views[i].number == ancestor_headers@[i].number);
                }
                assert forall|i: int| 0 <= i < ancestor_headers@.len() - 1 implies keccak256_digest(
                    (#[trigger] ancestor_headers@[i]).rlp@,
                ) == ancestor_headers@[i + 1].parent_hash.0@ && ancestor_headers@[i].number + 1
                    == ancestor_headers@[i + 1].number by {
                    assert(keccak256_digest(views[i].rlp) == views[i + 1].parent_hash);
                }
            } else if {
                &&& ancestor_headers@.len() > 0 ==> keccak256_digest(
                    ancestor_headers@.last().rlp@,
                ) == current_block.parent_hash.0@ && ancestor_headers@.last().number + 1
                    == current_block.number
                &&& forall|i: int|
                    0 <= i < ancestor_headers@.len() - 1 ==> keccak256_digest(
                        (#[trigger] ancestor_headers@[i]).rlp@,
                    ) == ancestor_headers@[i + 1].parent_hash.0@ && ancestor_headers@[i].number + 1
                        == ancestor_headers@[i + 1].number
            } {
                assert forall|i: int| 0 <= i < views.len() - 1 implies keccak256_digest(
                    (#[trigger] views[i]).rlp,
                ) == views[i + 1].parent_hash && views[i].number + 1 == views[i + 1].number by {
                    assert(ancestor_headers@[i].number + 1 == ancestor_headers@[i + 1].number);
                }
            }
        }
        r
    }

    /// Reads the ancestor headers that came with a block, puts them in ascending
    /// order, checks that they lead back from the block, and finds the state
    /// that the block starts from.
    pub fn prepare_ancestors<B, E>(
        &self,
        current_block: &FetchedBlock<B>,
        serialized: &Vec<Vec<u8>>,
    ) -> (r: Result<Ancestors, HostError<E>>)
        ensures
            ancestors_outcome(*current_block, byte_views(serialized@), r),
    {
        let mut headers: Vec<Header> = match decode_headers(serialized) {
            Ok(headers) => headers,
            Err(e) => return Err(e),
        };
        let ghost decoded = header_views(headers@);
        sort_by_number(&mut headers);
        proof {
            lemma_sorting_keeps_well_formed(decoded);
        }
        let hashes: BTreeMap<u64, B256> = match self.compute_ancestor_hashes(
            current_block,
            headers.as_slice(),
        ) {
            Ok(hashes) => hashes,
            Err(e) => return Err(HostError::StatelessValidation(e)),
        };
        assert(header_views(headers@).len() == headers@.len());
        let pre_state_root: B256 = match pre_state_root(headers.as_slice()) {
            Ok(root) => root,
            Err(e) => return Err(e),
        };
        Ok(Ancestors { headers, hashes, pre_state_root })
    }
}

/// What comes of checking the serialized ancestor headers of a block: they are
/// refused where one of them cannot be read, where they are not a chain that
/// leads back from the block, and where there are none, in this order.
pub open spec fn ancestors_outcome<B, E>(
    block: FetchedBlock<B>,
    serialized: Seq<Seq<u8>>,
    r: Result<Ancestors, HostError<E>>,
) -> bool {
    let headers = sorted_by_number(decoded_headers(serialized));
    if !all_decode(serialized) {
        r == Err::<Ancestors, HostError<E>>(HostError::HeaderDeserializationFailed)
    } else if !is_ancestor_chain(headers, block.parent_hash@, block.number) {
        r == Err::<Ancestors, HostError<E>>(
            HostError::StatelessValidation(StatelessValidationError::InvalidAncestorChain),
        )
    } else if headers.len() == 0 {
        r == Err::<Ancestors, HostError<E>>(HostError::MissingAncestorHeader)
    } else {
        &&& r matches Ok(ancestors)
        &&& header_views(ancestors.headers@) == headers
        &&& all_well_formed(headers)
        &&& is_hash_table(ancestors.hashes@, headers, header_hashes(headers))
        &&& ancestors.pre_state_root@ == headers.last().state_root
    }
}

proof fn lemma_decoding_keeps_the_multiset(a: Seq<Seq<u8>>, b: Seq<Seq<u8>>)
    requires
        a.to_multiset() == b.to_multiset(),
    ensures
        decoded_headers(a).to_multiset() == decoded_headers(b).to_multiset(),
        all_decode(a) ==> all_decode(b),
    decreases a.len(),
{
    broadcast use vstd::seq_lib::group_to_multiset_ensures;

    assert(a.len() == a.to_multiset().len());
    assert(b.len() == b.to_multiset().len());
    if all_decode(a) {
        assert forall|i: int| 0 <= i < b.len() implies decoded_header(
            #[trigger] b[i],
        ) is Some by {
            assert(b.contains(b[i]));
            assert(a.to_multiset().count(b[i]) > 0);
            assert(a.contains(b[i]));
        }
    }
    if a.len() == 0 {
        assert(decoded_headers(a) =~= decoded_headers(b));
    } else {
        let x = a.last();
        assert(a.contains(x));
        assert(b.to_multiset().count(x) > 0);
        assert(b.contains(x));
        let i = choose|i: int| 0 <= i < b.len() && b[i] == x;
        let shorter = a.remove(a.len() - 1);
        lemma_decoding_keeps_the_multiset(shorter, b.remove(i));
        let headers = decoded_headers(a);
        assert(decoded_headers(shorter) =~= headers.remove(headers.len() - 1));
        assert(decoded_headers(b.remove(i)) =~= decoded_headers(b).remove(i));
        let header = decoded_header(x).unwrap();
        assert(headers[headers.len() - 1] == header);
        assert(decoded_headers(b)[i] == header);
        assert(headers.to_multiset().count(header) > 0) by {
            assert(headers.contains(header));
        }
        assert(decoded_headers(b).to_multiset().count(header) > 0) by {
            assert(decoded_headers(b).contains(header));
        }
        assert(headers.to_multiset() =~= headers.to_multiset().remove(header).insert(header));
        assert(decoded_headers(b).to_multiset() =~= decoded_headers(b).to_multiset().remove(
            header,
        ).insert(header));
    }
}

/// The order in which the serialized headers of a witness come changes nothing:
/// either order decodes or neither does, and both sort into the same chain or
/// neither sorts into one.
pub proof fn law_the_order_of_the_headers_does_not_matter(
    a: Seq<Seq<u8>>,
    b: Seq<Seq<u8>>,
    parent_hash: Seq<u8>,
    number: u64,
)
    requires
        a.to_multiset() == b.to_multiset(),
    ensures
        a.len() == b.len(),
        all_decode(a) <==> all_decode(b),
        ({
            let x = sorted_by_number(decoded_headers(a));
            let y = sorted_by_number(decoded_headers(b));
            &&& is_ancestor_chain(x, parent_hash, number) <==> is_ancestor_chain(
                y,
                parent_hash,
                number,
            )
            &&& is_ancestor_chain(x, parent_hash, number) ==> x == y
        }),
{
    broadcast use vstd::seq_lib::group_to_multiset_ensures;

    assert(a.len() == a.to_multiset().len());
    assert(b.len() == b.to_multiset().len());
    lemma_decoding_keeps_the_multiset(a, b);
    lemma_decoding_keeps_the_multiset(b, a);
    law_arrival_order_does_not_matter(
        decoded_headers(a),
        decoded_headers(b),
        parent_hash,
        number,
    );
}

/// Checking the ancestors of a block comes to the same end whichever order their
/// serialized headers come in: the same error, or the same headers, the same
/// hashes and the same state to start from.
pub proof fn law_ancestors_do_not_depend_on_the_order<B, E>(
    block: FetchedBlock<B>,
    a: Seq<Seq<u8>>,
    b: Seq<Seq<u8>>,
    x: Result<Ancestors, HostError<E>>,
    y: Result<Ancestors, HostError<E>>,
)
    requires
        a.to_multiset() == b.to_multiset(),
        ancestors_outcome(block, a, x),
        ancestors_outcome(block, b, y),
    ensures
        match x {
            Err(error) => y == Err::<Ancestors, HostError<E>>(error),
            Ok(ancestors) => {
                &&& y matches Ok(others)
                &&& header_views(others.headers@) == header_views(ancestors.headers@)
                &&& others.hashes@ == ancestors.hashes@
                &&& others.pre_state_root@ == ancestors.pre_state_root@
            },
        },
{
    law_the_order_of_the_headers_does_not_matter(a, b, block.parent_hash@, block.number);
    if x is Ok && y is Ok {
        let headers = sorted_by_number(decoded_headers(a));
        law_hash_table_is_unique(
            x->Ok_0.hashes@,
            y->Ok_0.hashes@,
            headers,
            header_hashes(headers),
        );
    } else {
        lemma_sorted_len(a);
        lemma_sorted_len(b);
    }
}

/// Sorting the headers of a witness leaves as many as there were entries.
pub proof fn lemma_sorted_len(serialized: Seq<Seq<u8>>)
    ensures
        sorted_by_number(decoded_headers(serialized)).len() == serialized.len(),
{
    broadcast use vstd::seq_lib::group_to_multiset_ensures;

    let decoded = decoded_headers(serialized);
    let sorted = sorted_by_number(decoded);
    law_sorted_is_a_permutation(decoded);
    assert(sorted.len() == sorted.to_multiset().len());
    assert(decoded.len() == decoded.to_multiset().len());
}

/// Ancestors that are accepted are exactly the headers that the entries decode
/// to, in the order in which they lead back from the block: each is the parent
/// of the next, and the last is the parent of the block. The table has the
/// digest of each of them under its number and nothing else, and the state to
/// start from is the one that the parent of the block left behind.
pub proof fn law_accepted_ancestors_lead_back_from_the_block<B, E>(
    block: FetchedBlock<B>,
    serialized: Seq<Seq<u8>>,
    ancestors: Ancestors,
)
    requires
        ancestors_outcome::<B, E>(block, serialized, Ok(ancestors)),
    ensures
        forall|j: int|
            0 <= j < serialized.len() ==> decoded_header(#[trigger] serialized[j]) is Some,
        ancestors.headers@.len() == serialized.len(),
        ancestors.headers@.len() > 0,
        ancestors.headers@.map_values(|header: Header| header@).to_multiset()
            == serialized.map_values(|bytes: Seq<u8>| decoded_header(bytes)->Some_0).to_multiset(),
        keccak256_digest(ancestors.headers@.last().rlp@) == block.parent_hash.0@,
        ancestors.headers@.last().number + 1 == block.number,
        forall|i: int|
            0 <= i < ancestors.headers@.len() - 1 ==> {
                &&& keccak256_digest((#[trigger] ancestors.headers@[i]).rlp@)
                    == ancestors.headers@[i + 1].parent_hash.0@
                &&& ancestors.headers@[i].number + 1 == ancestors.headers@[i + 1].number
            },
        forall|k: u64| #[trigger]
            ancestors.hashes@.contains_key(k) <==> block.number - ancestors.headers@.len() <= k
                < block.number,
        forall|i: int|
            0 <= i < ancestors.headers@.len() ==> ancestors.hashes@[(
            #[trigger] ancestors.headers@[i]).number].0@ == keccak256_digest(
                ancestors.headers@[i].rlp@,
            ),
        ancestors.pre_state_root.0@ == ancestors.headers@.last().state_root.0@,
{
    let headers = sorted_by_number(decoded_headers(serialized));
    let views = header_views(ancestors.headers@);
    law_every_link_of_a_chain_is_checked(headers, block.parent_hash@, block.number);
    law_the_table_holds_the_digest_of_every_ancestor(
        ancestors.hashes@,
        headers,
        block.parent_hash@,
        block.number,
    );
    lemma_sorted_len(serialized);
    law_sorted_is_a_permutation(decoded_headers(serialized));
    assert(ancestors.headers@.map_values(|header: Header| header@) =~= views);
    assert(serialized.map_values(|bytes: Seq<u8>| decoded_header(bytes)->Some_0)
        =~= decoded_headers(serialized));
    assert forall|i: int| 0 <= i < ancestors.headers@.len() implies #[trigger] headers[i]
        == ancestors.headers@[i]@ by {
        assert(views[i] == headers[i]);
    }
    assert forall|i: int| 0 <= i < ancestors.headers@.len() - 1 implies {
        &&& keccak256_digest((#[trigger] ancestors.headers@[i]).rlp@) == ancestors.headers@[i
            + 1].parent_hash.0@
        &&& ancestors.headers@[i].number + 1 == ancestors.headers@[i + 1].number
    } by {
        assert(keccak256_digest(headers[i].rlp) == headers[i + 1].parent_hash);
    }
    assert forall|i: int| 0 <= i < ancestors.headers@.len() implies ancestors.hashes@[(
    #[trigger] ancestors.headers@[i]).number].0@ == keccak256_digest(
        ancestors.headers@[i].rlp@,
    ) by {
        assert(headers[i].number == ancestors.headers@[i].number);
    }
    assert(headers.last() == ancestors.headers@.last()@);
}

/// Ancestors are accepted wherever the entries decode to headers that, put in
/// some order, lead back from the block, whatever its number and however many
/// there are.
pub proof fn law_ancestors_that_lead_back_are_accepted<B, E>(
    block: FetchedBlock<B>,
    serialized: Seq<Seq<u8>>,
    chain: Seq<HeaderView>,
    r: Result<Ancestors, HostError<E>>,
)
    requires
        ancestors_outcome(block, serialized, r),
        forall|j: int|
            0 <= j < serialized.len() ==> decoded_header(#[trigger] serialized[j]) is Some,
        chain.len() > 0,
        chain.to_multiset() == serialized.map_values(
            |bytes: Seq<u8>| decoded_header(bytes)->Some_0,
        ).to_multiset(),
        keccak256_digest(chain.last().rlp) == block.parent_hash.0@,
        chain.last().number + 1 == block.number,
        forall|i: int|
            0 <= i < chain.len() - 1 ==> keccak256_digest((#[trigger] chain[i]).rlp) == chain[i
                + 1].parent_hash && chain[i].number + 1 == chain[i + 1].number,
    ensures
        r matches Ok(ancestors) && ancestors.headers@.map_values(|header: Header| header@) == chain,
{
    assert(serialized.map_values(|bytes: Seq<u8>| decoded_header(bytes)->Some_0)
        =~= decoded_headers(serialized));
    law_any_order_of_a_chain_is_sorted_into_it(
        chain,
        decoded_headers(serialized),
        block.parent_hash@,
        block.number,
    );
    if let Ok(ancestors) = r {
        assert(ancestors.headers@.map_values(|header: Header| header@) =~= header_views(
            ancestors.headers@,
        ));
    }
}

/// Ancestors are refused only for one of three reasons: some entry does not
/// decode, all decode but do not lead back from the block in the order of their
/// numbers, or there are none.
pub proof fn law_ancestors_are_refused_for_a_reason<B, E>(
    block: FetchedBlock<B>,
    serialized: Seq<Seq<u8>>,
    error: HostError<E>,
)
    requires
        ancestors_outcome::<B, E>(block, serialized, Err(error)),
    ensures
        match error {
            HostError::HeaderDeserializationFailed => exists|j: int|
                0 <= j < serialized.len() && decoded_header(#[trigger] serialized[j]) is None,
            HostError::StatelessValidation(_) => {
                &&& serialized.len() > 0
                &&& forall|j: int|
                    0 <= j < serialized.len() ==> decoded_header(#[trigger] serialized[j]) is Some
            },
            HostError::MissingAncestorHeader => serialized.len() == 0,
            _ => false,
        },
{
    lemma_sorted_len(serialized);
    law_every_link_of_a_chain_is_checked(
        sorted_by_number(decoded_headers(serialized)),
        block.parent_hash@,
        block.number,
    );
}

/// The entries of a witness stand for their bytes, one by one.
pub proof fn law_entries_stand_for_their_bytes(serialized: Seq<Vec<u8>>)
    ensures
        byte_views(serialized) == serialized.map_values(|bytes: Vec<u8>| bytes@),
{
    assert(byte_views(serialized) =~= serialized.map_values(|bytes: Vec<u8>| bytes@));
}

} // verus!
