//! Hashes of 256 bits and the function that makes them.

use vstd::prelude::*;

verus! {

/// A hash of 256 bits, most significant byte first.
#[derive(Debug, Clone, Copy)]
pub struct B256(pub [u8; 32]);

impl View for B256 {
    type V = Seq<u8>;

    open spec fn view(&self) -> Seq<u8> {
        self.0@
    }
}

impl B256 {
    /// The hash whose bytes are all zero.
    pub fn zero() -> (r: B256)
        ensures
            r@ == Seq::new(32, |i: int| 0u8),
            forall|i: int| 0 <= i < 32 ==> #[trigger] r.0@[i] == 0,
    {
        let r = B256([0u8; 32]);
        assert(r@ =~= Seq::new(32, |i: int| 0u8));
        r
    }
}

impl PartialEq for B256 {
    fn eq(&self, other: &B256) -> (r: bool) {
        let mut i: usize = 0;
        while i < 32
            invariant
                i <= 32,
                forall|j: int| 0 <= j < i ==> self.0@[j] == other.0@[j],
            decreases 32 - i,
        {
            if self.0[i] != other.0[i] {
                return false;
            }
            i = i + 1;
        }
        assert(self.0@ =~= other.0@);
        true
    }
}

impl vstd::std_specs::cmp::PartialEqSpecImpl for B256 {
    open spec fn obeys_eq_spec() -> bool {
        true
    }

    open spec fn eq_spec(&self, other: &B256) -> bool {
        self@ == other@
    }
}

impl Eq for B256 {

}

/// Two hashes with the same bytes are the same hash.
pub proof fn lemma_b256_ext(a: B256, b: B256)
    ensures
        a@ == b@ <==> a == b,
{
    if a@ == b@ {
        assert(a.0 =~= b.0);
    }
}

/// The Keccak-256 digest of `data`.
pub uninterp spec fn keccak256_digest(data: Seq<u8>) -> Seq<u8>;

/// Calls `alloy_primitives::keccak256`. The result is the Keccak-256 digest of
/// the bytes handed in, and nothing more is claimed of the digest.
#[verifier::external_body]
pub(crate) fn keccak256(data: &[u8]) -> (r: B256)
    ensures
        r@ == keccak256_digest(data@),
{
    B256(alloy_primitives::keccak256(data).0)
}

/// A hash stands for its thirty-two bytes, and two hashes are equal exactly
/// where all of these are.
pub proof fn law_a_hash_is_its_bytes(a: B256, b: B256)
    ensures
        a@ == a.0@,
        a@.len() == 32,
        vstd::std_specs::cmp::PartialEqSpec::eq_spec(&a, &b) <==> forall|i: int|
            0 <= i < 32 ==> #[trigger] a.0@[i] == b.0@[i],
{
    assert((forall|i: int| 0 <= i < 32 ==> #[trigger] a.0@[i] == b.0@[i]) ==> a.0@ =~= b.0@);
}

} // verus!
