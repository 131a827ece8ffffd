//! The chain of headers that leads back from a block.
//!
//! A block is executed against hashes of its ancestors. Those come with the
//! block from outside, so before they are used they are put in order and every
//! link between them is checked.

use std::collections::BTreeMap;

use vstd::prelude::*;

use crate::hash::{keccak256_digest, B256};
use crate::header::{header_views, Header, HeaderView};

verus! {

/// Why a block cannot be checked against its ancestors.
#[derive(Debug, Clone, Copy, PartialEq, Eq, Structural)]
pub enum StatelessValidationError {
    /// The ancestor headers do not form an unbroken chain.
    InvalidAncestorChain,
}

/// The parent hash that the block after `headers[i]` names, where the block
/// after the last header names `parent_hash`.
pub open spec fn hash_named_by_child(
    headers: Seq<HeaderView>,
    parent_hash: Seq<u8>,
    i: int,
) -> Seq<u8> {
    if i + 1 < headers.len() {
        headers[i + 1].parent_hash
    } else {
        parent_hash
    }
}

/// The number of the block after `headers[i]`, where the block after the last
/// header has the number `number`.
pub open spec fn number_of_child(headers: Seq<HeaderView>, number: u64, i: int) -> u64 {
    if i + 1 < headers.len() {
        headers[i + 1].number
    } else {
        number
    }
}

/// Whether `headers[i]`, whose hash is `hashes[i]`, is the parent of the block after it.
pub open spec fn linked_at(
    headers: Seq<HeaderView>,
    hashes: Seq<Seq<u8>>,
    parent_hash: Seq<u8>,
    number: u64,
    i: int,
) -> bool {
    &&& hashes[i] == hash_named_by_child(headers, parent_hash, i)
    &&& headers[i].number + 1 == number_of_child(headers, number, i)
}

/// Whether `headers`, oldest first and with the given hashes, lead without a
/// gap to a block with the given parent hash and number.
pub open spec fn linked(
    headers: Seq<HeaderView>,
    hashes: Seq<Seq<u8>>,
    parent_hash: Seq<u8>,
    number: u64,
) -> bool {
    forall|i: int|
        0 <= i < headers.len() ==> #[trigger] linked_at(headers, hashes, parent_hash, number, i)
}

/// The hashes of `headers`, in the same order.
pub open spec fn header_hashes(headers: Seq<HeaderView>) -> Seq<Seq<u8>> {
    Seq::new(headers.len(), |i: int| headers[i].hash())
}

/// Whether `headers`, oldest first, are an unbroken chain of ancestors of a
/// block with the given parent hash and number.
pub open spec fn is_ancestor_chain(
    headers: Seq<HeaderView>,
    parent_hash: Seq<u8>,
    number: u64,
) -> bool {
    linked(headers, header_hashes(headers), parent_hash, number)
}

/// The bytes of each hash, in the same order.
pub open spec fn hash_views(hashes: Seq<B256>) -> Seq<Seq<u8>> {
    Seq::new(hashes.len(), |i: int| hashes[i]@)
}

/// Whether `table` maps the number of each header to its hash, and nothing else.
pub open spec fn is_hash_table(
    table: Map<u64, B256>,
    headers: Seq<HeaderView>,
    hashes: Seq<Seq<u8>>,
) -> bool {
    &&& forall|k: u64| #[trigger]
        table.contains_key(k) ==> exists|i: int|
            0 <= i < headers.len() && (#[trigger] headers[i]).number == k
    &&& forall|i: int|
        0 <= i < headers.len() ==> {
            &&& table.contains_key((#[trigger] headers[i]).number)
            &&& table[headers[i].number]@ == hashes[i]
        }
}

/// Checks the links of a chain whose hashes are known.
///
/// `headers` are in ascending order and `hashes[i]` is the hash of `headers[i]`.
/// Where they lead back without a gap from the block with this parent hash and
/// number, the table of their hashes is returned.
pub fn link_ancestors(
    parent_hash: B256,
    number: u64,
    headers: &[Header],
    hashes: &[B256],
) -> (r: Result<BTreeMap<u64, B256>, StatelessValidationError>)
    requires
        headers@.len() == hashes@.len(),
    ensures
        match r {
            Ok(table) => {
                &&& linked(header_views(headers@), hash_views(hashes@), parent_hash@, number)
                &&& is_hash_table(table@, header_views(headers@), hash_views(hashes@))
            },
            Err(StatelessValidationError::InvalidAncestorChain) => !linked(
                header_views(headers@),
                hash_views(hashes@),
                parent_hash@,
                number,
            ),
        },
{
    let mut table: BTreeMap<u64, B256> = BTreeMap::new();
    let mut expected_hash: B256 = parent_hash;
    let mut child: u64 = number;
    let mut i: usize = headers.len();
    let ghost views = header_views(headers@);
    let ghost seen = hash_views(hashes@);
    while i > 0
        invariant
            i <= headers@.len(),
            headers@.len() == hashes@.len(),
            views == header_views(headers@),
            seen == hash_views(hashes@),
            expected_hash@ == hash_named_by_child(views, parent_hash@, i - 1),
            child == number_of_child(views, number, i - 1),
            forall|j: int|
                i <= j < headers@.len() ==> #[trigger] linked_at(
                    views,
                    seen,
                    parent_hash@,
                    number,
                    j,
                ),
            forall|j: int|
                i <= j < headers@.len() ==> (#[trigger] views[j]).number < u64::MAX
                    && views[j].number >= child,
            forall|j: int, k: int|
                i <= j < k < headers@.len() ==> (#[trigger] views[j]).number < (
                #[trigger] views[k]).number,
            forall|k: u64| #[trigger]
                table@.contains_key(k) ==> exists|j: int|
                    i <= j < headers@.len() && (#[trigger] views[j]).number == k,
            forall|j: int|
                i <= j < headers@.len() ==> {
                    &&& table@.contains_key((#[trigger] views[j]).number)
                    &&& table@[views[j].number]@ == seen[j]
                },
        decreases i,
    {
        i = i - 1;
        let header = &headers[i];
        assert(views[i as int] == header@);
        assert(seen[i as int] == hashes@[i as int]@);
        if expected_hash != hashes[i] {
            assert(!linked_at(views, seen, parent_hash@, number, i as int));
            return Err(StatelessValidationError::InvalidAncestorChain);
        }
        if child == 0 || header.number != child - 1 {
            assert(!linked_at(views, seen, parent_hash@, number, i as int));
            return Err(StatelessValidationError::InvalidAncestorChain);
        }
        table.insert(header.number, expected_hash);
        expected_hash = header.parent_hash;
        child = header.number;
    }
    Ok(table)
}

/// `sorted` with `header` put behind the headers whose numbers are not above its own.
pub open spec fn insert_by_number(sorted: Seq<HeaderView>, header: HeaderView) -> Seq<HeaderView>
    decreases sorted.len(),
{
    if sorted.len() == 0 || sorted.last().number <= header.number {
        sorted.push(header)
    } else {
        insert_by_number(sorted.drop_last(), header).push(sorted.last())
    }
}

/// The headers in ascending order of their numbers, where headers with the same
/// number keep the order in which they came.
pub open spec fn sorted_by_number(headers: Seq<HeaderView>) -> Seq<HeaderView>
    decreases headers.len(),
{
    if headers.len() == 0 {
        headers
    } else {
        insert_by_number(sorted_by_number(headers.drop_last()), headers.last())
    }
}

/// Whether no header has a smaller number than one before it.
pub open spec fn ascending(headers: Seq<HeaderView>) -> bool {
    forall|i: int, j: int|
        0 <= i <= j < headers.len() ==> (#[trigger] headers[i]).number <= (
        #[trigger] headers[j]).number
}

proof fn lemma_insert_position(sorted: Seq<HeaderView>, header: HeaderView, at: int)
    requires
        0 <= at <= sorted.len(),
        forall|j: int| at <= j < sorted.len() ==> (#[trigger] sorted[j]).number > header.number,
        at > 0 ==> sorted[at - 1].number <= header.number,
    ensures
        insert_by_number(sorted, header) == sorted.insert(at, header),
    decreases sorted.len(),
{
    if at == sorted.len() {
        assert(sorted.insert(at, header) =~= sorted.push(header));
    } else {
        let shorter = sorted.drop_last();
        assert(sorted.last() == sorted[sorted.len() - 1]);
        lemma_insert_position(shorter, header, at);
        assert(shorter.insert(at, header).push(sorted.last()) =~= sorted.insert(at, header));
    }
}

proof fn lemma_insert_len(sorted: Seq<HeaderView>, header: HeaderView)
    ensures
        insert_by_number(sorted, header).len() == sorted.len() + 1,
    decreases sorted.len(),
{
    if sorted.len() > 0 && sorted.last().number > header.number {
        lemma_insert_len(sorted.drop_last(), header);
    }
}

/// Puts the headers in ascending order of their numbers.
pub fn sort_by_number(headers: &mut Vec<Header>)
    ensures
        header_views(final(headers)@) == sorted_by_number(header_views(old(headers)@)),
        final(headers)@.len() == old(headers)@.len(),
        forall|i: int, j: int|
            0 <= i <= j < final(headers)@.len() ==> (#[trigger] final(headers)@[i]).number <= (
            #[trigger] final(headers)@[j]).number,
{
    let n: usize = headers.len();
    let ghost before = header_views(headers@);
    let mut done: usize = 0;
    assert(before.take(0) =~= Seq::<HeaderView>::empty());
    while done < n
        invariant
            done <= n,
            n == before.len(),
            headers@.len() == n,
            header_views(headers@).take(done as int) == sorted_by_number(before.take(done as int)),
            header_views(headers@).skip(done as int) == before.skip(done as int),
        decreases n - done,
    {
        let ghost views = header_views(headers@);
        let ghost prefix = views.take(done as int);
        let header = headers.remove(done);
        assert(header@ == before[done as int]) by {
            assert(views.skip(done as int)[0] == before.skip(done as int)[0]);
        }
        let mut at: usize = done;
        while at > 0 && headers[at - 1].number > header.number
            invariant
                at <= done < n,
                headers@.len() == n - 1,
                prefix.len() == done,
                forall|j: int| 0 <= j < done ==> #[trigger] prefix[j] == headers@[j]@,
                forall|j: int| at <= j < done ==> (#[trigger] prefix[j]).number > header.number,
            decreases at,
        {
            at = at - 1;
        }
        headers.insert(at, header);
        proof {
            lemma_insert_position(prefix, header@, at as int);
            let longer = before.take(done + 1);
            assert(longer.drop_last() =~= before.take(done as int));
            assert(longer.last() == header@);
            assert(header_views(headers@).take(done + 1) =~= prefix.insert(at as int, header@));
            assert forall|j: int| 0 <= j < n - done - 1 implies #[trigger] header_views(
                headers@,
            ).skip(done + 1)[j] == before.skip(done + 1)[j] by {
                assert(views.skip(done as int)[j + 1] == before.skip(done as int)[j + 1]);
            }
            assert(header_views(headers@).skip(done + 1) =~= before.skip(done + 1));
        }
        done = done + 1;
    }
    assert(header_views(headers@).take(n as int) =~= header_views(headers@));
    assert(before.take(n as int) =~= before);
    proof {
        law_sorted_is_ascending(before);
        let sorted = header_views(headers@);
        assert forall|i: int, j: int| 0 <= i <= j < headers@.len() implies (
        #[trigger] headers@[i]).number <= (#[trigger] headers@[j]).number by {
            assert(sorted[i].number <= sorted[j].number);
        }
    }
}

proof fn lemma_insert_ascending(sorted: Seq<HeaderView>, header: HeaderView)
    requires
        ascending(sorted),
    ensures
        ascending(insert_by_number(sorted, header)),
        forall|i: int|
            0 <= i < insert_by_number(sorted, header).len() ==> (#[trigger] insert_by_number(
                sorted,
                header,
            )[i]).number <= header.number || (sorted.len() > 0 && insert_by_number(
                sorted,
                header,
            )[i].number <= sorted.last().number),
    decreases sorted.len(),
{
    lemma_insert_len(sorted, header);
    if sorted.len() > 0 {
        let last = sorted[sorted.len() - 1];
        assert(sorted.last() == last);
        if last.number > header.number {
            let shorter = sorted.drop_last();
            assert(ascending(shorter)) by {
                assert forall|i: int, j: int| 0 <= i <= j < shorter.len() implies (
                #[trigger] shorter[i]).number <= (#[trigger] shorter[j]).number by {
                    assert(sorted[i].number <= sorted[j].number);
                }
            }
            lemma_insert_ascending(shorter, header);
            lemma_insert_len(shorter, header);
            let inner = insert_by_number(shorter, header);
            let whole = inner.push(last);
            assert forall|i: int| 0 <= i < whole.len() implies (#[trigger] whole[i]).number
                <= last.number by {
                if i < inner.len() {
                    assert(inner[i] == whole[i]);
                    if shorter.len() > 0 {
                        assert(shorter.last() == sorted[shorter.len() - 1]);
                    }
                }
            }
        }
    }
}

/// Sorting puts the numbers in ascending order.
pub proof fn law_sorted_is_ascending(headers: Seq<HeaderView>)
    ensures
        ascending(sorted_by_number(headers)),
    decreases headers.len(),
{
    if headers.len() > 0 {
        law_sorted_is_ascending(headers.drop_last());
        lemma_insert_ascending(sorted_by_number(headers.drop_last()), headers.last());
    }
}

proof fn lemma_insert_multiset(sorted: Seq<HeaderView>, header: HeaderView)
    ensures
        insert_by_number(sorted, header).to_multiset() == sorted.to_multiset().insert(header),
    decreases sorted.len(),
{
    broadcast use vstd::seq_lib::group_to_multiset_ensures;

    if sorted.len() > 0 && sorted.last().number > header.number {
        let shorter = sorted.drop_last();
        let last = sorted.last();
        lemma_insert_multiset(shorter, header);
        assert(sorted =~= shorter.push(last));
        assert(insert_by_number(sorted, header).to_multiset() =~= sorted.to_multiset().insert(
            header,
        ));
    }
}

/// Sorting neither loses nor invents a header.
pub proof fn law_sorted_is_a_permutation(headers: Seq<HeaderView>)
    ensures
        sorted_by_number(headers).to_multiset() == headers.to_multiset(),
    decreases headers.len(),
{
    broadcast use vstd::seq_lib::group_to_multiset_ensures;

    if headers.len() > 0 {
        let shorter = headers.drop_last();
        law_sorted_is_a_permutation(shorter);
        lemma_insert_multiset(sorted_by_number(shorter), headers.last());
        assert(headers =~= shorter.push(headers.last()));
    }
}

/// The headers with the number `number`, in the order in which they stand.
pub open spec fn with_number(headers: Seq<HeaderView>, number: u64) -> Seq<HeaderView> {
    headers.filter(|header: HeaderView| header.number == number)
}

proof fn lemma_with_number_push(headers: Seq<HeaderView>, header: HeaderView, number: u64)
    ensures
        with_number(headers.push(header), number) == if header.number == number {
            with_number(headers, number).push(header)
        } else {
            with_number(headers, number)
        },
{
    reveal(Seq::filter);
    assert(headers.push(header).drop_last() =~= headers);
}

proof fn lemma_insert_stable(sorted: Seq<HeaderView>, header: HeaderView, number: u64)
    ensures
        with_number(insert_by_number(sorted, header), number) == with_number(
            sorted.push(header),
            number,
        ),
    decreases sorted.len(),
{
    if sorted.len() > 0 && sorted.last().number > header.number {
        let shorter = sorted.drop_last();
        let last = sorted.last();
        lemma_insert_stable(shorter, header, number);
        assert(sorted =~= shorter.push(last));
        lemma_with_number_push(insert_by_number(shorter, header), last, number);
        lemma_with_number_push(shorter, header, number);
        lemma_with_number_push(shorter, last, number);
        lemma_with_number_push(sorted, header, number);
    }
}

/// Sorting leaves headers with the same number in the order in which they came.
pub proof fn law_sorted_is_stable(headers: Seq<HeaderView>, number: u64)
    ensures
        with_number(sorted_by_number(headers), number) == with_number(headers, number),
    decreases headers.len(),
{
    if headers.len() > 0 {
        let shorter = headers.drop_last();
        let last = headers.last();
        law_sorted_is_stable(shorter, number);
        lemma_insert_stable(sorted_by_number(shorter), last, number);
        lemma_with_number_push(sorted_by_number(shorter), last, number);
        lemma_with_number_push(shorter, last, number);
        assert(headers =~= shorter.push(last));
    }
}

/// Headers that are in order already stay as they are.
pub proof fn law_sorting_keeps_what_is_ascending(headers: Seq<HeaderView>)
    requires
        ascending(headers),
    ensures
        sorted_by_number(headers) == headers,
    decreases headers.len(),
{
    if headers.len() > 0 {
        let shorter = headers.drop_last();
        assert(ascending(shorter)) by {
            assert forall|i: int, j: int| 0 <= i <= j < shorter.len() implies (
            #[trigger] shorter[i]).number <= (#[trigger] shorter[j]).number by {
                assert(headers[i].number <= headers[j].number);
            }
        }
        law_sorting_keeps_what_is_ascending(shorter);
        if shorter.len() > 0 {
            assert(shorter.last() == headers[headers.len() - 2]);
            assert(headers.last() == headers[headers.len() - 1]);
        }
        assert(headers =~= shorter.push(headers.last()));
    }
}

/// The numbers of a chain are consecutive and end just below the number of the
/// block that it leads to.
pub proof fn law_chain_numbers_are_consecutive(
    headers: Seq<HeaderView>,
    hashes: Seq<Seq<u8>>,
    parent_hash: Seq<u8>,
    number: u64,
    i: int,
)
    requires
        linked(headers, hashes, parent_hash, number),
        0 <= i < headers.len(),
    ensures
        headers[i].number == number - (headers.len() - i),
    decreases headers.len() - i,
{
    assert(linked_at(headers, hashes, parent_hash, number, i));
    if i + 1 < headers.len() {
        law_chain_numbers_are_consecutive(headers, hashes, parent_hash, number, i + 1);
    }
}

/// The table of a chain answers for exactly the blocks of the chain, which are
/// the ones just below the block that it leads to, each with its own hash.
pub proof fn law_hash_table_covers_the_chain(
    table: Map<u64, B256>,
    headers: Seq<HeaderView>,
    hashes: Seq<Seq<u8>>,
    parent_hash: Seq<u8>,
    number: u64,
)
    requires
        linked(headers, hashes, parent_hash, number),
        is_hash_table(table, headers, hashes),
    ensures
        forall|k: u64| #[trigger]
            table.contains_key(k) <==> number - headers.len() <= k < number,
        forall|k: u64| #[trigger]
            table.contains_key(k) ==> table[k]@ == hashes[k - (number - headers.len())],
{
    assert forall|k: u64| #[trigger] table.contains_key(k) implies {
        &&& number - headers.len() <= k < number
        &&& table[k]@ == hashes[k - (number - headers.len())]
    } by {
        let i = choose|i: int| 0 <= i < headers.len() && (#[trigger] headers[i]).number == k;
        law_chain_numbers_are_consecutive(headers, hashes, parent_hash, number, i);
    }
    assert forall|k: u64| number - headers.len() <= k < number implies #[trigger]
        table.contains_key(k) by {
        let i = k - (number - headers.len());
        law_chain_numbers_are_consecutive(headers, hashes, parent_hash, number, i);
        assert(headers[i].number == k);
    }
}

/// A chain names at most one table.
pub proof fn law_hash_table_is_unique(
    a: Map<u64, B256>,
    b: Map<u64, B256>,
    headers: Seq<HeaderView>,
    hashes: Seq<Seq<u8>>,
)
    requires
        is_hash_table(a, headers, hashes),
        is_hash_table(b, headers, hashes),
    ensures
        a == b,
{
    assert forall|k: u64| a.contains_key(k) <==> b.contains_key(k) by {
        if a.contains_key(k) {
            let i = choose|i: int| 0 <= i < headers.len() && (#[trigger] headers[i]).number == k;
            assert(b.contains_key(headers[i].number));
        }
        if b.contains_key(k) {
            let i = choose|i: int| 0 <= i < headers.len() && (#[trigger] headers[i]).number == k;
            assert(a.contains_key(headers[i].number));
        }
    }
    assert forall|k: u64| a.contains_key(k) implies a[k] == b[k] by {
        let i = choose|i: int| 0 <= i < headers.len() && (#[trigger] headers[i]).number == k;
        assert(a[headers[i].number]@ == b[headers[i].number]@);
        crate::hash::lemma_b256_ext(a[k], b[k]);
    }
    assert(a =~= b);
}

/// Within a chain, what comes before a header is a chain of ancestors of that header.
pub proof fn law_chain_holds_at_every_header(
    headers: Seq<HeaderView>,
    parent_hash: Seq<u8>,
    number: u64,
    i: int,
)
    requires
        is_ancestor_chain(headers, parent_hash, number),
        0 <= i < headers.len(),
    ensures
        is_ancestor_chain(headers.take(i), headers[i].parent_hash, headers[i].number),
{
    let before = headers.take(i);
    let hashes = header_hashes(headers);
    assert forall|j: int| 0 <= j < before.len() implies #[trigger] linked_at(
        before,
        header_hashes(before),
        headers[i].parent_hash,
        headers[i].number,
        j,
    ) by {
        assert(linked_at(headers, hashes, parent_hash, number, j));
    }
}

/// A chain stays one without its oldest headers.
pub proof fn law_chain_may_start_later(
    headers: Seq<HeaderView>,
    parent_hash: Seq<u8>,
    number: u64,
    i: int,
)
    requires
        is_ancestor_chain(headers, parent_hash, number),
        0 <= i <= headers.len(),
    ensures
        is_ancestor_chain(headers.skip(i), parent_hash, number),
{
    let later = headers.skip(i);
    assert forall|j: int| 0 <= j < later.len() implies #[trigger] linked_at(
        later,
        header_hashes(later),
        parent_hash,
        number,
        j,
    ) by {
        assert(linked_at(headers, header_hashes(headers), parent_hash, number, i + j));
    }
}

/// Whether every header has a greater number than the ones before it.
spec fn strictly_ascending(headers: Seq<HeaderView>) -> bool {
    forall|i: int, j: int|
        0 <= i < j < headers.len() ==> (#[trigger] headers[i]).number < (
        #[trigger] headers[j]).number
}

proof fn lemma_same_headers_same_order(a: Seq<HeaderView>, b: Seq<HeaderView>)
    requires
        strictly_ascending(a),
        ascending(b),
        a.to_multiset() == b.to_multiset(),
    ensures
        a == b,
    decreases a.len(),
{
    broadcast use vstd::seq_lib::group_to_multiset_ensures;

    assert(a.len() == a.to_multiset().len());
    assert(b.len() == b.to_multiset().len());
    if a.len() > 0 {
        let n = a.len() - 1;
        let x = a[n];
        let y = b[n];
        assert(a.to_multiset().count(x) > 0) by {
            assert(a.contains(x));
        }
        assert(b.contains(x));
        let ix = choose|i: int| 0 <= i < b.len() && b[i] == x;
        assert(b[ix].number <= b[n].number);
        assert(b.to_multiset().count(y) > 0) by {
            assert(b.contains(y));
        }
        assert(a.contains(y));
        let iy = choose|i: int| 0 <= i < a.len() && a[i] == y;
        if iy < n {
            assert(a[iy].number < a[n].number);
            assert(false);
        }
        assert(x == y);
        let a1 = a.drop_last();
        let b1 = b.drop_last();
        assert(a =~= a1.push(x));
        assert(b =~= b1.push(x));
        assert(a1.to_multiset() =~= a.to_multiset().remove(x));
        assert(b1.to_multiset() =~= b.to_multiset().remove(x));
        assert(strictly_ascending(a1)) by {
            assert forall|i: int, j: int| 0 <= i < j < a1.len() implies (#[trigger] a1[i]).number
                < (#[trigger] a1[j]).number by {
                assert(a[i].number < a[j].number);
            }
        }
        assert(ascending(b1)) by {
            assert forall|i: int, j: int| 0 <= i <= j < b1.len() implies (#[trigger] b1[i]).number
                <= (#[trigger] b1[j]).number by {
                assert(b[i].number <= b[j].number);
            }
        }
        lemma_same_headers_same_order(a1, b1);
    } else {
        assert(a =~= b);
    }
}

/// The order in which the headers of a chain arrive does not matter: any other
/// order of them is sorted into the same chain.
pub proof fn law_arrival_order_does_not_matter(
    a: Seq<HeaderView>,
    b: Seq<HeaderView>,
    parent_hash: Seq<u8>,
    number: u64,
)
    requires
        a.to_multiset() == b.to_multiset(),
    ensures
        is_ancestor_chain(sorted_by_number(a), parent_hash, number) ==> sorted_by_number(a)
            == sorted_by_number(b),
        is_ancestor_chain(sorted_by_number(a), parent_hash, number) <==> is_ancestor_chain(
            sorted_by_number(b),
            parent_hash,
            number,
        ),
{
    lemma_chain_is_the_order(a, b, parent_hash, number);
    lemma_chain_is_the_order(b, a, parent_hash, number);
}

proof fn lemma_chain_is_the_order(
    a: Seq<HeaderView>,
    b: Seq<HeaderView>,
    parent_hash: Seq<u8>,
    number: u64,
)
    requires
        a.to_multiset() == b.to_multiset(),
    ensures
        is_ancestor_chain(sorted_by_number(a), parent_hash, number) ==> sorted_by_number(a)
            == sorted_by_number(b),
{
    let x = sorted_by_number(a);
    let y = sorted_by_number(b);
    if is_ancestor_chain(x, parent_hash, number) {
        law_sorted_is_a_permutation(a);
        law_sorted_is_a_permutation(b);
        law_sorted_is_ascending(b);
        assert(strictly_ascending(x)) by {
            assert forall|i: int, j: int| 0 <= i < j < x.len() implies (#[trigger] x[i]).number < (
            #[trigger] x[j]).number by {
                law_chain_numbers_are_consecutive(x, header_hashes(x), parent_hash, number, i);
                law_chain_numbers_are_consecutive(x, header_hashes(x), parent_hash, number, j);
            }
        }
        lemma_same_headers_same_order(x, y);
    }
}

/// Headers lead back from a block exactly where each of them is the parent of
/// the one after it, and the last is the parent of the block: its digest is the
/// parent hash that is named there, and its number is one below. This holds of
/// all numbers and of chains of every length.
pub proof fn law_every_link_of_a_chain_is_checked(
    headers: Seq<HeaderView>,
    parent_hash: Seq<u8>,
    number: u64,
)
    ensures
        is_ancestor_chain(headers, parent_hash, number) <==> {
            &&& headers.len() > 0 ==> keccak256_digest(headers.last().rlp) == parent_hash
                && headers.last().number + 1 == number
            &&& forall|i: int|
                0 <= i < headers.len() - 1 ==> keccak256_digest((#[trigger] headers[i]).rlp)
                    == headers[i + 1].parent_hash && headers[i].number + 1 == headers[i + 1].number
        },
{
    let hashes = header_hashes(headers);
    if is_ancestor_chain(headers, parent_hash, number) {
        if headers.len() > 0 {
            assert(linked_at(headers, hashes, parent_hash, number, headers.len() - 1));
        }
        assert forall|i: int| 0 <= i < headers.len() - 1 implies keccak256_digest(
            (#[trigger] headers[i]).rlp,
        ) == headers[i + 1].parent_hash && headers[i].number + 1 == headers[i + 1].number by {
            assert(linked_at(headers, hashes, parent_hash, number, i));
        }
    }
}

/// With hashes that are given, headers lead back from a block exactly where each
/// hash is the one that the header after it, or the block, names as its parent,
/// and each number is one below the next.
pub proof fn law_every_given_hash_is_checked(
    headers: Seq<HeaderView>,
    hashes: Seq<Seq<u8>>,
    parent_hash: Seq<u8>,
    number: u64,
)
    ensures
        linked(headers, hashes, parent_hash, number) <==> {
            &&& headers.len() > 0 ==> hashes[headers.len() - 1] == parent_hash
                && headers.last().number + 1 == number
            &&& forall|i: int|
                0 <= i < headers.len() - 1 ==> hashes[i] == (#[trigger] headers[i
                    + 1]).parent_hash && headers[i].number + 1 == headers[i + 1].number
        },
{
    if linked(headers, hashes, parent_hash, number) {
        if headers.len() > 0 {
            assert(linked_at(headers, hashes, parent_hash, number, headers.len() - 1));
        }
        assert forall|i: int| 0 <= i < headers.len() - 1 implies hashes[i] == (
        #[trigger] headers[i + 1]).parent_hash && headers[i].number + 1 == headers[i
            + 1].number by {
            assert(linked_at(headers, hashes, parent_hash, number, i));
        }
    }
    if {
        &&& headers.len() > 0 ==> hashes[headers.len() - 1] == parent_hash
            && headers.last().number + 1 == number
        &&& forall|i: int|
            0 <= i < headers.len() - 1 ==> hashes[i] == (#[trigger] headers[i + 1]).parent_hash
                && headers[i].number + 1 == headers[i + 1].number
    } {
        assert forall|i: int| 0 <= i < headers.len() implies #[trigger] linked_at(
            headers,
            hashes,
            parent_hash,
            number,
            i,
        ) by {
            if i + 1 < headers.len() {
                assert(headers[i + 1].number == headers[i].number + 1);
            }
        }
    }
}

/// The table of a chain has one entry for each of the blocks just below the one
/// that it leads to, as many as there are headers, and under the number of each
/// block the digest of the header of that block.
pub proof fn law_the_table_holds_the_digest_of_every_ancestor(
    table: Map<u64, B256>,
    headers: Seq<HeaderView>,
    parent_hash: Seq<u8>,
    number: u64,
)
    requires
        is_ancestor_chain(headers, parent_hash, number),
        is_hash_table(table, headers, header_hashes(headers)),
    ensures
        headers.len() <= number,
        forall|k: u64| #[trigger]
            table.contains_key(k) <==> number - headers.len() <= k < number,
        forall|i: int|
            0 <= i < headers.len() ==> {
                &&& (#[trigger] headers[i]).number == number - headers.len() + i
                &&& table.contains_key(headers[i].number)
                &&& table[headers[i].number].0@ == keccak256_digest(headers[i].rlp)
            },
        headers.len() > 0 ==> table[(number - 1) as u64].0@ == parent_hash,
{
    let hashes = header_hashes(headers);
    law_hash_table_covers_the_chain(table, headers, hashes, parent_hash, number);
    law_every_link_of_a_chain_is_checked(headers, parent_hash, number);
    if headers.len() > 0 {
        law_chain_numbers_are_consecutive(headers, hashes, parent_hash, number, 0);
        assert(headers[headers.len() - 1].number == number - 1);
        assert(table.contains_key(headers[headers.len() - 1].number));
    }
    assert forall|i: int| 0 <= i < headers.len() implies {
        &&& (#[trigger] headers[i]).number == number - headers.len() + i
        &&& table.contains_key(headers[i].number)
        &&& table[headers[i].number].0@ == keccak256_digest(headers[i].rlp)
    } by {
        law_chain_numbers_are_consecutive(headers, hashes, parent_hash, number, i);
    }
}

/// Sorting gives the same headers in another order: no number is above one
/// behind it, and headers with the same number keep their order.
pub proof fn law_sorting_orders_by_number_and_keeps_ties(headers: Seq<HeaderView>, number: u64)
    ensures
        sorted_by_number(headers).to_multiset() == headers.to_multiset(),
        sorted_by_number(headers).len() == headers.len(),
        forall|i: int, j: int|
            0 <= i <= j < headers.len() ==> (#[trigger] sorted_by_number(headers)[i]).number <= (
            #[trigger] sorted_by_number(headers)[j]).number,
        sorted_by_number(headers).filter(|header: HeaderView| header.number == number)
            == headers.filter(|header: HeaderView| header.number == number),
{
    broadcast use vstd::seq_lib::group_to_multiset_ensures;

    law_sorted_is_ascending(headers);
    law_sorted_is_a_permutation(headers);
    law_sorted_is_stable(headers, number);
    assert(headers.len() == headers.to_multiset().len());
    assert(sorted_by_number(headers).len() == sorted_by_number(headers).to_multiset().len());
}

/// Headers that lead back from a block are what any order of them is sorted into.
pub proof fn law_any_order_of_a_chain_is_sorted_into_it(
    chain: Seq<HeaderView>,
    headers: Seq<HeaderView>,
    parent_hash: Seq<u8>,
    number: u64,
)
    requires
        chain.to_multiset() == headers.to_multiset(),
        chain.len() > 0 ==> keccak256_digest(chain.last().rlp) == parent_hash
            && chain.last().number + 1 == number,
        forall|i: int|
            0 <= i < chain.len() - 1 ==> keccak256_digest((#[trigger] chain[i]).rlp) == chain[i
                + 1].parent_hash && chain[i].number + 1 == chain[i + 1].number,
    ensures
        sorted_by_number(headers) == chain,
        is_ancestor_chain(sorted_by_number(headers), parent_hash, number),
{
    law_every_link_of_a_chain_is_checked(chain, parent_hash, number);
    assert(strictly_ascending(chain)) by {
        assert forall|i: int, j: int| 0 <= i < j < chain.len() implies (
        #[trigger] chain[i]).number < (#[trigger] chain[j]).number by {
            let hashes = header_hashes(chain);
            law_chain_numbers_are_consecutive(chain, hashes, parent_hash, number, i);
            law_chain_numbers_are_consecutive(chain, hashes, parent_hash, number, j);
        }
    }
    law_sorted_is_a_permutation(headers);
    law_sorted_is_ascending(headers);
    lemma_same_headers_same_order(chain, sorted_by_number(headers));
}

/// Hashes stand for their bytes, one by one, and the hashes of headers are the
/// digests of their encodings.
pub proof fn law_hashes_stand_for_their_bytes(
    hashes: Seq<B256>,
    headers: Seq<HeaderView>,
    i: int,
)
    ensures
        hash_views(hashes).len() == hashes.len(),
        0 <= i < hashes.len() ==> hash_views(hashes)[i] == hashes[i].0@,
        header_hashes(headers).len() == headers.len(),
        0 <= i < headers.len() ==> header_hashes(headers)[i] == keccak256_digest(headers[i].rlp),
{
}

} // verus!
