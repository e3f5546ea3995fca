//! A node and the items it owns.

use crate::digest::{
    ascending, digest_ascending, digest_of, equal, lemma_ascending_unique,
    lemma_distinct_items_bounded, lemma_rearranged_distinct, sort_items,
};
use crate::filter::{
    bitmap_in_range, filter_contains, ConfigError, FilterConfig, MembershipFilter,
};
use crate::reconcile::{missing_from, ReconciliationResult};
use rand::Rng;
use vstd::prelude::*;

verus! {

/// A node of the protocol: its name and the identifiers of the items it owns.
/// No identifier is held twice.
#[derive(Debug)]
pub struct Friend {
    photos: Vec<i32>,
    name: String,
}

/// What a `Friend` holds, as mathematical values.
pub struct FriendView {
    /// The node's name.
    pub name: Seq<char>,
    /// The identifiers, in the order in which the node holds them.
    pub photos: Seq<i32>,
}

impl FriendView {
    /// The identifiers as a set.
    pub open spec fn items(self) -> Set<i32> {
        self.photos.to_set()
    }
}

impl View for Friend {
    type V = FriendView;

    closed spec fn view(&self) -> FriendView {
        FriendView { name: self.name@, photos: self.photos@ }
    }
}

impl Default for Friend {
    /// A node without a name and without items.
    fn default() -> (friend: Friend)
        ensures
            friend@.name == Seq::<char>::empty(),
            friend@.photos == Seq::<i32>::empty(),
    {
        Friend { photos: Vec::new(), name: String::new() }
    }
}

/// `gen_range` of `rand`'s thread-local generator, on the range from `low`
/// up to but not including `high`.
///
/// Trusted: for a range that is not empty the call returns a number of the
/// range. Which one is left open.
#[verifier::external_body]
fn random_in_range(low: i32, high: i32) -> (drawn: i32)
    requires
        low < high,
    ensures
        low <= drawn < high,
{
    rand::thread_rng().gen_range(low..high)
}

/// A random number of random identifiers: between one and `max_elems` of
/// them, all different, each between one and `max_elems`.
///
/// The identifiers are drawn without replacement: all candidates are laid
/// out, and one after another a random one of those not yet drawn is moved
/// to the front.
fn create_random_photo_collection_ids(max_elems: i32) -> (ids: Vec<i32>)
    requires
        max_elems >= 1,
    ensures
        1 <= ids@.len() <= max_elems,
        ids@.no_duplicates(),
        forall|i: int| 0 <= i < ids@.len() ==> 1 <= #[trigger] ids@[i] <= max_elems,
{
    let wanted: usize = (1 + random_in_range(0, max_elems)) as usize;
    let candidates: usize = max_elems as usize;
    let mut pool: Vec<i32> = Vec::new();
    let mut filled: usize = 0;
    while filled < candidates
        invariant
            filled <= candidates == max_elems,
            pool@.len() == filled,
            forall|i: int| 0 <= i < filled ==> #[trigger] pool@[i] == i + 1,
        decreases candidates - filled,
    {
        pool.push(filled as i32 + 1);
        filled += 1;
    }
    let mut drawn: usize = 0;
    while drawn < wanted
        invariant
            drawn <= wanted <= candidates == max_elems,
            pool@.len() == candidates,
            pool@.no_duplicates(),
            forall|i: int| 0 <= i < pool@.len() ==> 1 <= #[trigger] pool@[i] <= max_elems,
        decreases wanted - drawn,
    {
        let other = random_in_range(drawn as i32, max_elems) as usize;
        let first = pool[drawn];
        let second = pool[other];
        pool[drawn] = second;
        pool[other] = first;
        drawn += 1;
    }
    pool.truncate(wanted);
    pool
}

impl Friend {
    /// Every identifier is held once.
    #[verifier::type_invariant]
    pub open spec fn wf(&self) -> bool {
        self@.photos.no_duplicates()
    }

    /// A node of that name that owns nothing yet.
    pub fn new(name: String) -> (friend: Friend)
        ensures
            friend@.name == name@,
            friend@.photos == Seq::<i32>::empty(),
    {
        Friend { photos: Vec::new(), name }
    }

    /// Gives the node its name and a fresh collection drawn at random: between
    /// one and `max_elems` identifiers, all different, each between one and
    /// `max_elems`.
    pub fn init(&mut self, name: String, max_elems: i32)
        requires
            max_elems >= 1,
        ensures
            final(self)@.name == name@,
            1 <= final(self)@.photos.len() <= max_elems,
            final(self)@.photos.no_duplicates(),
            forall|i: int|
                0 <= i < final(self)@.photos.len() ==> 1 <= #[trigger] final(self)@.photos[i]
                    <= max_elems,
    {
        self.photos = create_random_photo_collection_ids(max_elems);
        self.name = name;
    }

    /// The node's name.
    pub fn name(&self) -> (name: &String)
        ensures
            name@ == self@.name,
    {
        &self.name
    }

    /// The identifiers the node holds, in the order in which it holds them.
    pub fn photos(&self) -> (photos: &Vec<i32>)
        ensures
            photos@ == self@.photos,
            photos@.no_duplicates(),
    {
        proof {
            use_type_invariant(self);
        }
        &self.photos
    }

    /// Whether the node holds `item`.
    pub fn contains(&self, item: i32) -> (held: bool)
        ensures
            held == self@.photos.contains(item),
    {
        let mut i: usize = 0;
        while i < self.photos.len()
            invariant
                i <= self.photos@.len(),
                forall|k: int| 0 <= k < i ==> self.photos@[k] != item,
            decreases self.photos@.len() - i,
        {
            if self.photos[i] == item {
                return true;
            }
            i += 1;
        }
        false
    }

    /// Takes `item` into the collection unless the node holds it already.
    /// Says whether it was taken.
    pub fn add(&mut self, item: i32) -> (added: bool)
        ensures
            added == !old(self)@.photos.contains(item),
            final(self)@.name == old(self)@.name,
            final(self)@.photos == if added {
                old(self)@.photos.push(item)
            } else {
                old(self)@.photos
            },
    {
        if self.contains(item) {
            false
        } else {
            proof {
                use_type_invariant(&*self);
            }
            let mut photos: Vec<i32> = Vec::new();
            std::mem::swap(&mut self.photos, &mut photos);
            photos.push(item);
            self.photos = photos;
            true
        }
    }

    /// The digest of the node's items. The items are left in ascending order.
    pub fn hash(&mut self) -> (digest: [u8; 32])
        ensures
            digest@ == digest_of(old(self)@.photos),
            final(self)@.name == old(self)@.name,
            final(self)@.photos == ascending(old(self)@.photos),
    {
        proof {
            use_type_invariant(&*self);
        }
        let mut photos: Vec<i32> = Vec::new();
        std::mem::swap(&mut self.photos, &mut photos);
        let ghost held = photos@;
        sort_items(&mut photos);
        proof {
            lemma_rearranged_distinct(held, photos@);
            lemma_distinct_items_bounded(photos@);
            lemma_ascending_unique(photos@, photos@);
        }
        let digest = digest_ascending(&photos);
        self.photos = photos;
        digest
    }

    /// Whether the digest of the node's items is `master_hash`. The items are
    /// left in ascending order.
    pub fn compare_hashes(&mut self, master_hash: [u8; 32]) -> (same: bool)
        ensures
            same == (digest_of(old(self)@.photos) == master_hash@),
            final(self)@.name == old(self)@.name,
            final(self)@.photos == ascending(old(self)@.photos),
    {
        let own = self.hash();
        equal(&own, &master_hash)
    }

    /// Builds the filter that stands for the node's items, with a bitmap of
    /// `bitmap_bytes` bytes.
    pub fn init_bloom(&self, config: &FilterConfig, bitmap_bytes: usize) -> (outcome: Result<
        MembershipFilter,
        ConfigError,
    >)
        ensures
            match outcome {
                Ok(filter) => {
                    &&& bitmap_in_range(bitmap_bytes)
                    &&& filter.wf()
                    &&& filter.config() == *config
                    &&& filter.bitmap_bytes() == bitmap_bytes
                    &&& filter.inserted() == self@.items()
                    &&& self@.items().subset_of(filter.accepted())
                    &&& self@.photos.len() == 0 ==> filter.accepted() == Set::<i32>::empty()
                },
                Err(error) => !bitmap_in_range(bitmap_bytes) && error == ConfigError::BitmapSize,
            },
    {
        let mut filter = match MembershipFilter::new(config, bitmap_bytes) {
            Ok(filter) => filter,
            Err(error) => {
                return Err(error);
            },
        };
        let mut i: usize = 0;
        assert(self.photos@.take(0).to_set() =~= Set::<i32>::empty());
        while i < self.photos.len()
            invariant
                i <= self.photos@.len(),
                filter.wf(),
                filter.config() == *config,
                filter.bitmap_bytes() == bitmap_bytes,
                filter.inserted() == self.photos@.take(i as int).to_set(),
                filter.inserted().subset_of(filter.accepted()),
                i == 0 ==> filter.accepted() == Set::<i32>::empty(),
            decreases self.photos@.len() - i,
        {
            filter = filter.insert(self.photos[i]);
            proof {
                let taken = self.photos@.take(i as int);
                assert(self.photos@.take(i + 1) =~= taken.push(self.photos@[i as int]));
                taken.lemma_push_to_set_commute(self.photos@[i as int]);
            }
            i += 1;
        }
        assert(self.photos@.take(i as int) =~= self.photos@);
        Ok(filter)
    }

    /// The node's report: its name, and those of its items that the filter
    /// does not recognise, in the order in which the node holds them.
    pub fn check_bloom(&self, filter: &MembershipFilter) -> (report: ReconciliationResult)
        ensures
            report.replica_id@ == self@.name,
            report.missing_items@ == missing_from(self@.photos, filter.accepted()),
    {
        let mut missing: Vec<i32> = Vec::new();
        let mut i: usize = 0;
        proof {
            reveal(Seq::filter);
            assert(self.photos@.take(0) =~= Seq::<i32>::empty());
        }
        while i < self.photos.len()
            invariant
                i <= self.photos@.len(),
                missing@ == missing_from(self.photos@.take(i as int), filter.accepted()),
            decreases self.photos@.len() - i,
        {
            let photo = self.photos[i];
            proof {
                reveal(Seq::filter);
                let taken = self.photos@.take(i + 1);
                assert(taken.drop_last() =~= self.photos@.take(i as int));
                assert(taken.last() == photo);
            }
            if !filter_contains(filter, photo) {
                missing.push(photo);
            }
            i += 1;
        }
        assert(self.photos@.take(i as int) =~= self.photos@);
        ReconciliationResult { replica_id: self.name.clone(), missing_items: missing }
    }
}

} // verus!
