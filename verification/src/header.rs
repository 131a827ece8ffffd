//! Block headers, as far as the checks on a chain of blocks read them.

use vstd::prelude::*;

use crate::hash::{keccak256, keccak256_digest, B256};

verus! {

/// A block header: the three fields that link it to its neighbours, and bytes
/// that stand for the whole of it. Where the header is `well_formed`, as every
/// decoded one is, they are its canonical RLP encoding.
#[derive(Debug)]
pub struct Header {
    /// The number of the block.
    pub number: u64,
    /// The hash of the parent's header.
    pub parent_hash: B256,
    /// The root of the state after the block.
    pub state_root: B256,
    /// The bytes that the hash is taken of: in a well-formed header, the RLP
    /// encoding of the header with all its fields.
    pub rlp: Vec<u8>,
}

/// What a [`Header`] stands for.
pub struct HeaderView {
    pub number: u64,
    pub parent_hash: Seq<u8>,
    pub state_root: Seq<u8>,
    pub rlp: Seq<u8>,
}

impl HeaderView {
    /// The hash of the header: the digest of its encoding.
    pub open spec fn hash(self) -> Seq<u8> {
        keccak256_digest(self.rlp)
    }

    /// Whether the encoding is that of this header: read back, it gives the same fields.
    pub open spec fn well_formed(self) -> bool {
        decoded_header(self.rlp) == Some(self)
    }
}

impl View for Header {
    type V = HeaderView;

    open spec fn view(&self) -> HeaderView {
        HeaderView {
            number: self.number,
            parent_hash: self.parent_hash@,
            state_root: self.state_root@,
            rlp: self.rlp@,
        }
    }
}

/// The headers that a sequence of [`Header`]s stands for, in the same order.
pub open spec fn header_views(headers: Seq<Header>) -> Seq<HeaderView> {
    Seq::new(headers.len(), |i: int| headers[i]@)
}

/// The ways in which RLP decoding fails.
#[verifier::external_type_specification]
#[verifier::external_body]
pub struct ExRlpError(alloy_rlp::Error);

/// The header at the front of `bytes`, where there is a well-formed one.
pub uninterp spec fn decoded_header(bytes: Seq<u8>) -> Option<HeaderView>;

/// Calls `alloy_consensus::Header::decode`, the implementation of
/// `alloy_rlp::Decodable`. It succeeds exactly where the bytes begin with a
/// well-formed header; what follows that header is not looked at. The encoding
/// is the one that `alloy_rlp::encode` gives of the decoded header, and decoding
/// that encoding gives the same header once more.
#[verifier::external_body]
fn rlp_decode_header(bytes: &[u8]) -> (r: Result<Header, alloy_rlp::Error>)
    ensures
        match r {
            Ok(header) => decoded_header(bytes@) == Some(header@) && header@.well_formed(),
            Err(_) => decoded_header(bytes@) is None,
        },
{
    let mut rest: &[u8] = bytes;
    match <alloy_consensus::Header as alloy_rlp::Decodable>::decode(&mut rest) {
        Ok(decoded) => Ok(Header {
            number: decoded.number,
            parent_hash: B256(decoded.parent_hash.0),
            state_root: B256(decoded.state_root.0),
            rlp: alloy_rlp::encode(&decoded),
        }),
        Err(error) => Err(error),
    }
}

impl Header {
    /// Reads the header at the front of `bytes`; `None` where there is none.
    pub fn decode(bytes: &[u8]) -> (r: Option<Header>)
        ensures
            match r {
                Some(header) => decoded_header(bytes@) == Some(header@) && header@.well_formed(),
                None => decoded_header(bytes@) is None,
            },
            r matches Some(header) ==> decoded_header(bytes@) matches Some(view) && view.number
                == header.number && view.parent_hash == header.parent_hash.0@ && view.state_root
                == header.state_root.0@ && view.rlp == header.rlp@,
    {
        match rlp_decode_header(bytes) {
            Ok(header) => Some(header),
            Err(_) => None,
        }
    }

    /// The hash of the header, computed anew from its encoding.
    pub fn hash_slow(&self) -> (r: B256)
        ensures
            r@ == self@.hash(),
            r.0@ == keccak256_digest(self.rlp@),
    {
        keccak256(self.rlp.as_slice())
    }
}

/// The encoding of a header, which is what its hash is taken of, settles every field of it.
pub proof fn law_encoding_settles_the_header(a: HeaderView, b: HeaderView)
    requires
        a.well_formed(),
        b.well_formed(),
        a.rlp == b.rlp,
    ensures
        a == b,
{
}

/// The hash of every header, whatever its number, is the Keccak-256 digest of
/// its encoding, so it depends on nothing but the encoding.
pub proof fn law_the_hash_is_the_digest_of_the_encoding(a: HeaderView, b: HeaderView)
    ensures
        a.hash() == keccak256_digest(a.rlp),
        a.rlp == b.rlp ==> a.hash() == b.hash(),
{
}

/// A header stands for its own fields, and a sequence of headers for theirs, one
/// by one. It is well formed exactly where its encoding decodes to it.
pub proof fn law_a_header_stands_for_its_fields(headers: Seq<Header>, i: int)
    requires
        0 <= i < headers.len(),
    ensures
        header_views(headers).len() == headers.len(),
        header_views(headers)[i] == headers[i]@,
        headers[i]@.number == headers[i].number,
        headers[i]@.parent_hash == headers[i].parent_hash.0@,
        headers[i]@.state_root == headers[i].state_root.0@,
        headers[i]@.rlp == headers[i].rlp@,
        headers[i]@.well_formed() <==> decoded_header(headers[i].rlp@) == Some(headers[i]@),
{
}

} // verus!
