//! One round of the protocol, seen from a replica: compare digests and, if
//! they differ, report the items that the master's filter does not recognise.

use crate::digest::{
    ascending, digest_ascending, digest_input, digest_of, lemma_ascending_rearranges,
    lemma_ascending_unique, lemma_distinct_items_bounded, lemma_encode_items_injective,
    lemma_rearranged_distinct, lemma_rearranged_same_set, lemma_same_set_rearranged, sort_items,
};
use crate::filter::{
    config_error, filter_recognises_inserted, ConfigError, FilterConfig, MembershipFilter,
};
use crate::friend::Friend;
use vstd::prelude::*;

verus! {

/// What a replica reports after a round in which its digest differed from the
/// master's.
#[derive(Debug, PartialEq, Eq)]
pub struct ReconciliationResult {
    /// The name of the replica that reports.
    pub replica_id: String,
    /// The replica's items that the master's filter does not recognise, in the
    /// order in which the replica holds them.
    pub missing_items: Vec<i32>,
}

/// The items of `items` that are not among `accepted`, in their order.
pub open spec fn missing_from(items: Seq<i32>, accepted: Set<i32>) -> Seq<i32> {
    items.filter(|item: i32| !accepted.contains(item))
}

/// An item is reported exactly if it is held and not accepted.
pub proof fn lemma_missing_from_contains(items: Seq<i32>, accepted: Set<i32>, item: i32)
    ensures
        missing_from(items, accepted).contains(item) <==> items.contains(item)
            && !accepted.contains(item),
    decreases items.len(),
{
    reveal(Seq::filter);
    if items.len() > 0 {
        let rest = items.drop_last();
        lemma_missing_from_contains(rest, accepted, item);
        let reported = missing_from(rest, accepted);
        assert(items =~= rest.push(items.last()));
        if items.contains(item) && item != items.last() {
            let i = choose|i: int| 0 <= i < items.len() && items[i] == item;
            assert(rest[i] == item);
        }
        if rest.contains(item) {
            let i = choose|i: int| 0 <= i < rest.len() && rest[i] == item;
            assert(items[i] == item);
        }
        if !accepted.contains(items.last()) {
            let grown = reported.push(items.last());
            assert(missing_from(items, accepted) == grown);
            assert(grown[grown.len() - 1] == items.last());
            if reported.contains(item) {
                let i = choose|i: int| 0 <= i < reported.len() && reported[i] == item;
                assert(grown[i] == item);
            }
            if grown.contains(item) && item != items.last() {
                let i = choose|i: int| 0 <= i < grown.len() && grown[i] == item;
                assert(reported[i] == item);
            }
        }
    }
}

/// The digest of a node's items. It does not depend on the order in which the
/// node holds them, and the node is left as it is.
pub fn compute_digest(set: &Friend) -> (digest: [u8; 32])
    ensures
        digest@ == digest_of(set@.photos),
{
    let mut photos = set.photos().clone();
    assert(photos@ =~= set@.photos);
    sort_items(&mut photos);
    proof {
        lemma_rearranged_distinct(set@.photos, photos@);
        lemma_distinct_items_bounded(photos@);
        lemma_ascending_unique(photos@, photos@);
    }
    digest_ascending(&photos)
}

/// Checks the tunables and the bitmap size, the rate first, and builds the
/// master's filter from its items.
pub fn build_filter(set: &Friend, capacity_hint: usize, fp_rate_bits: u64, bitmap_bytes: usize) -> (outcome:
    Result<MembershipFilter, ConfigError>)
    ensures
        match outcome {
            Ok(filter) => {
                &&& config_error(capacity_hint, fp_rate_bits, bitmap_bytes) is None
                &&& filter.wf()
                &&& filter.config().capacity_hint() == capacity_hint
                &&& filter.config().fp_rate_bits() == fp_rate_bits
                &&& filter.bitmap_bytes() == bitmap_bytes
                &&& filter.inserted() == set@.items()
                &&& set@.items().subset_of(filter.accepted())
                &&& set@.photos.len() == 0 ==> filter.accepted() == Set::<i32>::empty()
            },
            Err(error) => config_error(capacity_hint, fp_rate_bits, bitmap_bytes) == Some(error),
        },
{
    match FilterConfig::new(capacity_hint, fp_rate_bits) {
        Ok(config) => set.init_bloom(&config, bitmap_bytes),
        Err(error) => Err(error),
    }
}

/// One round for a replica. Where the replica's digest is the master's, there
/// is nothing to report. Otherwise the report names the replica and lists, in
/// ascending order, its items that the master's filter does not recognise.
/// Either way the replica's items are left in ascending order.
pub fn reconcile(local: &mut Friend, master_digest: [u8; 32], master_filter: &MembershipFilter) -> (outcome:
    Option<ReconciliationResult>)
    ensures
        final(local)@.name == old(local)@.name,
        final(local)@.photos == ascending(old(local)@.photos),
        outcome is None <==> digest_of(old(local)@.photos) == master_digest@,
        outcome matches Some(report) ==> {
            &&& report.replica_id@ == old(local)@.name
            &&& report.missing_items@ == missing_from(
                ascending(old(local)@.photos),
                master_filter.accepted(),
            )
        },
{
    if local.compare_hashes(master_digest) {
        None
    } else {
        Some(local.check_bloom(master_filter))
    }
}

/// Two nodes that hold the same set of items have the same digest, in
/// whatever order each of them came to hold its items.
pub proof fn digest_ignores_insertion_order(a: Friend, b: Friend)
    requires
        a.wf(),
        b.wf(),
        a@.items() == b@.items(),
    ensures
        digest_of(a@.photos) == digest_of(b@.photos),
{
    lemma_same_set_rearranged(a@.photos, b@.photos);
    lemma_ascending_rearranges(a@.photos);
    lemma_ascending_unique(ascending(a@.photos), b@.photos);
}

/// Two nodes that hold different sets of items hash different bytes. Their
/// digests can agree only where the hash function maps two different inputs
/// to one output.
pub proof fn different_sets_hash_different_bytes(a: Friend, b: Friend)
    requires
        a@.items() != b@.items(),
    ensures
        digest_input(a@.photos) != digest_input(b@.photos),
{
    if digest_input(a@.photos) == digest_input(b@.photos) {
        lemma_encode_items_injective(ascending(a@.photos), ascending(b@.photos));
        lemma_ascending_rearranges(a@.photos);
        lemma_ascending_rearranges(b@.photos);
        lemma_rearranged_same_set(a@.photos, b@.photos);
    }
}

/// Of a replica's items, those that the master holds are never reported, and
/// each of the others is reported unless the filter recognises it by a false
/// positive.
pub proof fn report_is_right_up_to_false_positives(
    local: Friend,
    master: Friend,
    filter: MembershipFilter,
    item: i32,
)
    requires
        filter.wf(),
        filter.inserted() == master@.items(),
        local@.photos.contains(item),
    ensures
        ({
            let reported = missing_from(ascending(local@.photos), filter.accepted());
            &&& master@.photos.contains(item) ==> !reported.contains(item)
            &&& !master@.photos.contains(item) ==> reported.contains(item)
                || filter.is_false_positive(item)
        }),
{
    lemma_ascending_rearranges(local@.photos);
    lemma_rearranged_same_set(ascending(local@.photos), local@.photos);
    assert(ascending(local@.photos).contains(item) == ascending(local@.photos).to_set().contains(
        item,
    ));
    assert(local@.photos.contains(item) == local@.photos.to_set().contains(item));
    lemma_missing_from_contains(ascending(local@.photos), filter.accepted(), item);
    if master@.photos.contains(item) {
        assert(master@.items().contains(item));
        filter_recognises_inserted(filter, item);
    }
}

/// A replica whose items the master holds, all of them, reports nothing, even
/// where the digests differ.
pub proof fn subset_reports_nothing(local: Friend, master: Friend, filter: MembershipFilter)
    requires
        filter.wf(),
        filter.inserted() == master@.items(),
        local@.items().subset_of(master@.items()),
    ensures
        missing_from(ascending(local@.photos), filter.accepted()) == Seq::<i32>::empty(),
{
    let held = ascending(local@.photos);
    let reported = missing_from(held, filter.accepted());
    lemma_ascending_rearranges(local@.photos);
    lemma_rearranged_same_set(held, local@.photos);
    if reported.len() > 0 {
        let item = reported[0];
        assert(reported.contains(item));
        lemma_missing_from_contains(held, filter.accepted(), item);
        assert(held.to_set().contains(item));
        assert(local@.items().contains(item));
        filter_recognises_inserted(filter, item);
    }
    assert(reported =~= Seq::<i32>::empty());
}

/// Against a filter that recognises nothing, as that of a master without
/// items, a replica reports every item it holds.
pub proof fn empty_filter_reports_everything(local: Friend, filter: MembershipFilter)
    requires
        filter.accepted() == Set::<i32>::empty(),
    ensures
        missing_from(ascending(local@.photos), filter.accepted()) == ascending(local@.photos),
{
    lemma_filter_keeps_all(ascending(local@.photos), filter.accepted());
}

/// Where nothing is accepted, everything is reported.
proof fn lemma_filter_keeps_all(items: Seq<i32>, accepted: Set<i32>)
    requires
        accepted == Set::<i32>::empty(),
    ensures
        missing_from(items, accepted) == items,
    decreases items.len(),
{
    reveal(Seq::filter);
    if items.len() > 0 {
        lemma_filter_keeps_all(items.drop_last(), accepted);
        assert(items =~= items.drop_last().push(items.last()));
    }
}

} // verus!
