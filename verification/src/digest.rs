//! The content digest: items in ascending order, each as four big-endian
//! bytes, hashed with BLAKE-256.

use blake::BlakeError;
use vstd::multiset::*;
use vstd::prelude::*;
use vstd::relations::*;
use vstd::seq_lib::*;
use vstd::set_lib::*;

verus! {

/// Number of bytes that encode one item.
pub const ITEM_BYTES: usize = 4;

/// Number of bytes in a digest.
pub const DIGEST_BYTES: usize = 32;

/// Output length, in bits, asked of the hash function.
pub const DIGEST_BITS: i32 = 256;

/// Longest hash input in bytes: its length in bits must fit in 64 bits.
pub const MAX_HASH_INPUT: u64 = 0x1FFF_FFFF_FFFF_FFFF;

/// The error type of the `blake` crate.
#[verifier::external_type_specification]
#[verifier::external_body]
pub struct ExBlakeError(BlakeError);

/// The bytes that `blake::hash` writes for an output length and an input.
pub uninterp spec fn blake_hash(hashbitlen: int, data: Seq<u8>) -> Seq<u8>;

/// `blake::hash` into a fresh 32-byte buffer.
///
/// Trusted: for an output length of 256 bits and an input whose length in bits
/// fits in 64 bits, the call succeeds and fills the buffer with 32 bytes that
/// depend on the output length and the input bytes alone.
#[verifier::external_body]
fn blake_hash_32(hashbitlen: i32, data: &[u8]) -> (outcome: Result<[u8; 32], BlakeError>)
    requires
        hashbitlen == 256,
        data@.len() <= MAX_HASH_INPUT,
    ensures
        outcome is Ok,
        outcome->Ok_0@ == blake_hash(hashbitlen as int, data@),
{
    let mut hashval = [0u8; 32];
    match blake::hash(hashbitlen, data, &mut hashval) {
        Ok(()) => Ok(hashval),
        Err(e) => Err(e),
    }
}

/// The item read as an unsigned 32-bit number in two's complement.
pub open spec fn unsigned_value(item: i32) -> int {
    if item >= 0 {
        item as int
    } else {
        item + 0x1_0000_0000
    }
}

/// The four bytes of an item, most significant first.
pub open spec fn be_bytes(item: i32) -> Seq<u8> {
    let u = unsigned_value(item);
    seq![
        (u / 0x100_0000) as u8,
        (u / 0x1_0000 % 0x100) as u8,
        (u / 0x100 % 0x100) as u8,
        (u % 0x100) as u8,
    ]
}

/// The encodings of the items one after another, in the order given.
pub open spec fn encode_items(items: Seq<i32>) -> Seq<u8> {
    Seq::new((ITEM_BYTES * items.len()) as nat, |k: int| be_bytes(items[k / 4])[k % 4])
}

/// The encoding of one item determines the item.
pub proof fn lemma_be_bytes_injective(a: i32, b: i32)
    requires
        be_bytes(a) == be_bytes(b),
    ensures
        a == b,
{
    let x = unsigned_value(a) as u32;
    let y = unsigned_value(b) as u32;
    assert(be_bytes(a)[0] == be_bytes(b)[0]);
    assert(be_bytes(a)[1] == be_bytes(b)[1]);
    assert(be_bytes(a)[2] == be_bytes(b)[2]);
    assert(be_bytes(a)[3] == be_bytes(b)[3]);
    assert(x / 0x100_0000 < 0x100) by (bit_vector);
    assert(y / 0x100_0000 < 0x100) by (bit_vector);
    assert(x / 0x100_0000 == y / 0x100_0000 && x / 0x1_0000 % 0x100 == y / 0x1_0000 % 0x100 && x
        / 0x100 % 0x100 == y / 0x100 % 0x100 && x % 0x100 == y % 0x100 ==> x == y)
        by (bit_vector);
}

/// The encoding of a sequence determines the sequence.
pub proof fn lemma_encode_items_injective(a: Seq<i32>, b: Seq<i32>)
    requires
        encode_items(a) == encode_items(b),
    ensures
        a == b,
{
    assert(encode_items(a).len() == 4 * a.len());
    assert(encode_items(b).len() == 4 * b.len());
    assert forall|i: int| 0 <= i < a.len() implies a[i] == b[i] by {
        assert forall|j: int| 0 <= j < 4 implies be_bytes(a[i])[j] == be_bytes(b[i])[j] by {
            let k = 4 * i + j;
            assert(k / 4 == i && k % 4 == j);
            assert(encode_items(a)[k] == be_bytes(a[i])[j]);
            assert(encode_items(b)[k] == be_bytes(b[i])[j]);
        }
        assert(be_bytes(a[i]) =~= be_bytes(b[i]));
        lemma_be_bytes_injective(a[i], b[i]);
    }
    assert(a =~= b);
}

/// Encodes one item as four bytes, most significant first.
pub fn item_to_be_bytes(item: i32) -> (bytes: [u8; 4])
    ensures
        bytes@ == be_bytes(item),
{
    let u: u32 = if item >= 0 {
        item as u32
    } else {
        (item as i64 + 0x1_0000_0000) as u32
    };
    let bytes = [
        (u / 0x100_0000) as u8,
        (u / 0x1_0000 % 0x100) as u8,
        (u / 0x100 % 0x100) as u8,
        (u % 0x100) as u8,
    ];
    assert(bytes@ =~= be_bytes(item));
    bytes
}

/// The order in which items are digested.
pub open spec fn item_leq() -> spec_fn(i32, i32) -> bool {
    |a: i32, b: i32| a <= b
}

/// No item is followed by a smaller one.
pub open spec fn is_ascending(items: Seq<i32>) -> bool {
    forall|i: int, j: int| 0 <= i < j < items.len() ==> items[i] <= items[j]
}

/// The same items, each as often as before, smallest first.
pub open spec fn ascending(items: Seq<i32>) -> Seq<i32> {
    items.sort_by(item_leq())
}

/// `ascending` rearranges its argument into ascending order.
pub proof fn lemma_ascending_rearranges(items: Seq<i32>)
    ensures
        is_ascending(ascending(items)),
        ascending(items).to_multiset() == items.to_multiset(),
        ascending(items).len() == items.len(),
{
    items.lemma_sort_by_ensures(item_leq());
    let sorted = ascending(items);
    to_multiset_len(items);
    to_multiset_len(sorted);
    assert forall|i: int, j: int| 0 <= i < j < sorted.len() implies sorted[i] <= sorted[j] by {
        assert(item_leq()(sorted[i], sorted[j]));
    }
}

/// There is only one ascending arrangement of given items.
pub proof fn lemma_ascending_unique(sorted: Seq<i32>, items: Seq<i32>)
    requires
        is_ascending(sorted),
        sorted.to_multiset() == items.to_multiset(),
    ensures
        sorted == ascending(items),
{
    lemma_ascending_rearranges(items);
    lemma_sorted_unique(sorted, ascending(items), item_leq());
}

/// A rearrangement of items that are all different holds no item twice.
pub proof fn lemma_rearranged_distinct(items: Seq<i32>, rearranged: Seq<i32>)
    requires
        items.no_duplicates(),
        rearranged.to_multiset() == items.to_multiset(),
    ensures
        rearranged.no_duplicates(),
        rearranged.to_set() == items.to_set(),
{
    items.lemma_multiset_has_no_duplicates();
    rearranged.lemma_multiset_has_no_duplicates_conv();
    assert forall|x: i32| rearranged.contains(x) == items.contains(x) by {
        to_multiset_contains(rearranged, x);
        to_multiset_contains(items, x);
    }
    assert(rearranged.to_set() =~= items.to_set());
}

/// Items that are all different and make up the same set are rearrangements
/// of each other.
pub proof fn lemma_same_set_rearranged(a: Seq<i32>, b: Seq<i32>)
    requires
        a.no_duplicates(),
        b.no_duplicates(),
        a.to_set() == b.to_set(),
    ensures
        a.to_multiset() == b.to_multiset(),
{
    a.lemma_multiset_has_no_duplicates();
    b.lemma_multiset_has_no_duplicates();
    assert forall|x: i32| a.to_multiset().count(x) == b.to_multiset().count(x) by {
        to_multiset_contains(a, x);
        to_multiset_contains(b, x);
        assert(a.contains(x) == a.to_set().contains(x));
        assert(b.contains(x) == b.to_set().contains(x));
    }
    assert(a.to_multiset() =~= b.to_multiset());
}

/// Rearrangements of each other hold the same items.
pub proof fn lemma_rearranged_same_set(a: Seq<i32>, b: Seq<i32>)
    requires
        a.to_multiset() == b.to_multiset(),
    ensures
        a.to_set() == b.to_set(),
{
    assert forall|x: i32| a.contains(x) == b.contains(x) by {
        to_multiset_contains(a, x);
        to_multiset_contains(b, x);
    }
    assert(a.to_set() =~= b.to_set());
}

/// Items that are all different are at most as many as there are 32-bit numbers.
pub proof fn lemma_distinct_items_bounded(items: Seq<i32>)
    requires
        items.no_duplicates(),
    ensures
        items.len() <= 0x1_0000_0000,
{
    let held = items.to_set();
    let widen = |x: i32| x as int;
    let wide = held.map(widen);
    let all = set_int_range(-0x8000_0000, 0x8000_0000);
    items.unique_seq_to_set();
    seq_to_set_is_finite(items);
    assert(injective_on(widen, held));
    lemma_map_size(held, wide, widen);
    lemma_int_range(-0x8000_0000, 0x8000_0000);
    assert(wide.subset_of(all));
    lemma_len_subset(wide, all);
}

/// Merges two ascending runs into one.
fn merge_runs(left: &Vec<i32>, right: &Vec<i32>) -> (merged: Vec<i32>)
    requires
        is_ascending(left@),
        is_ascending(right@),
    ensures
        is_ascending(merged@),
        merged@.to_multiset() == left@.to_multiset().add(right@.to_multiset()),
{
    let mut merged: Vec<i32> = Vec::new();
    let mut i: usize = 0;
    let mut j: usize = 0;
    proof {
        broadcast use group_multiset_axioms;

        let nothing = Seq::<i32>::empty();
        assert(left@.take(0) =~= nothing);
        assert(right@.take(0) =~= nothing);
        assert(merged@ =~= nothing);
        to_multiset_len(nothing);
        lemma_multiset_empty_len(nothing.to_multiset());
        assert(nothing.to_multiset() =~= nothing.to_multiset().add(nothing.to_multiset()));
    }
    while i < left.len() || j < right.len()
        invariant
            i <= left.len(),
            j <= right.len(),
            is_ascending(left@),
            is_ascending(right@),
            is_ascending(merged@),
            merged@.to_multiset() == left@.take(i as int).to_multiset().add(
                right@.take(j as int).to_multiset(),
            ),
            forall|k: int| 0 <= k < merged@.len() && i < left.len() ==> merged@[k] <= left@[i as int],
            forall|k: int|
                0 <= k < merged@.len() && j < right.len() ==> merged@[k] <= right@[j as int],
        decreases left.len() - i + right.len() - j,
    {
        if j >= right.len() || (i < left.len() && left[i] <= right[j]) {
            let x = left[i];
            merged.push(x);
            proof {
                broadcast use group_multiset_axioms, group_to_multiset_ensures;

                assert(left@.take(i + 1) =~= left@.take(i as int).push(x));
                assert(merged@.to_multiset() =~= left@.take(i + 1).to_multiset().add(
                    right@.take(j as int).to_multiset(),
                ));
            }
            i += 1;
        } else {
            let x = right[j];
            merged.push(x);
            proof {
                broadcast use group_multiset_axioms, group_to_multiset_ensures;

                assert(right@.take(j + 1) =~= right@.take(j as int).push(x));
                assert(merged@.to_multiset() =~= left@.take(i as int).to_multiset().add(
                    right@.take(j + 1).to_multiset(),
                ));
            }
            j += 1;
        }
    }
    proof {
        assert(left@.take(i as int) =~= left@);
        assert(right@.take(j as int) =~= right@);
    }
    merged
}

/// The part of `items` from `from` up to `to`, in ascending order.
fn sorted_range(items: &Vec<i32>, from: usize, to: usize) -> (sorted: Vec<i32>)
    requires
        from <= to <= items.len(),
    ensures
        is_ascending(sorted@),
        sorted@.to_multiset() == items@.subrange(from as int, to as int).to_multiset(),
    decreases to - from,
{
    if to - from <= 1 {
        let mut sorted: Vec<i32> = Vec::new();
        if to - from == 1 {
            sorted.push(items[from]);
        }
        assert(sorted@ =~= items@.subrange(from as int, to as int));
        sorted
    } else {
        let middle = from + (to - from) / 2;
        let left = sorted_range(items, from, middle);
        let right = sorted_range(items, middle, to);
        proof {
            let low = items@.subrange(from as int, middle as int);
            let high = items@.subrange(middle as int, to as int);
            assert(items@.subrange(from as int, to as int) =~= low + high);
            lemma_multiset_commutative(low, high);
        }
        merge_runs(&left, &right)
    }
}

/// Puts the items in ascending order.
pub fn sort_items(items: &mut Vec<i32>)
    ensures
        final(items)@ == ascending(old(items)@),
        is_ascending(final(items)@),
        final(items)@.to_multiset() == old(items)@.to_multiset(),
{
    let sorted = sorted_range(items, 0, items.len());
    proof {
        assert(items@.subrange(0, items@.len() as int) =~= items@);
        lemma_ascending_unique(sorted@, items@);
    }
    *items = sorted;
}

/// Encodes the items in the order given, four bytes each.
pub fn encode(items: &Vec<i32>) -> (bytes: Vec<u8>)
    ensures
        bytes@ == encode_items(items@),
{
    let mut bytes: Vec<u8> = Vec::new();
    let mut i: usize = 0;
    while i < items.len()
        invariant
            i <= items.len(),
            bytes@ =~= encode_items(items@.take(i as int)),
        decreases items.len() - i,
    {
        let word = item_to_be_bytes(items[i]);
        bytes.push(word[0]);
        bytes.push(word[1]);
        bytes.push(word[2]);
        bytes.push(word[3]);
        proof {
            let before = items@.take(i as int);
            let after = items@.take(i + 1);
            assert forall|k: int| 0 <= k < 4 * (i + 1) implies bytes@[k] == encode_items(after)[k] by {
                if k < 4 * i {
                    assert(after[k / 4] == before[k / 4]);
                } else {
                    assert(k / 4 == i);
                    assert(after[k / 4] == items@[i as int]);
                }
            }
        }
        i += 1;
    }
    assert(items@.take(i as int) =~= items@);
    bytes
}

/// The bytes that are hashed for a collection of items.
pub open spec fn digest_input(items: Seq<i32>) -> Seq<u8> {
    encode_items(ascending(items))
}

/// The digest of a collection of items.
pub open spec fn digest_of(items: Seq<i32>) -> Seq<u8> {
    blake_hash(DIGEST_BITS as int, digest_input(items))
}

/// The digest of items that are already in ascending order.
pub(crate) fn digest_ascending(items: &Vec<i32>) -> (digest: [u8; 32])
    requires
        is_ascending(items@),
        ITEM_BYTES * items@.len() <= MAX_HASH_INPUT,
    ensures
        digest@ == digest_of(items@),
{
    proof {
        lemma_ascending_unique(items@, items@);
    }
    let bytes = encode(items);
    blake_hash_32(DIGEST_BITS, bytes.as_slice()).unwrap()
}

/// Whether two digests agree in every byte.
pub fn equal(a: &[u8; 32], b: &[u8; 32]) -> (same: bool)
    ensures
        same == (a@ == b@),
{
    let mut i: usize = 0;
    while i < DIGEST_BYTES
        invariant
            i <= DIGEST_BYTES,
            forall|k: int| 0 <= k < i ==> a@[k] == b@[k],
        decreases DIGEST_BYTES - i,
    {
        if a[i] != b[i] {
            return false;
        }
        i += 1;
    }
    assert(a@ =~= b@);
    true
}

} // verus!
