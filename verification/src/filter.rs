//! The membership filter that the master hands to its replicas, and the
//! configuration it is built from.

use bloomfilter::Bloom;
use vstd::prelude::*;

verus! {

/// The Bloom filter of the `bloomfilter` crate.
#[verifier::external_type_specification]
#[verifier::external_body]
#[verifier::reject_recursive_types(T)]
pub struct ExBloom<T: ?Sized>(Bloom<T>);

/// The items for which the filter's `check` answers yes.
pub uninterp spec fn bloom_accepts(bloom: Bloom<i32>) -> Set<i32>;

/// Whether the filter is in working order: its bit vector has as many bits as
/// the filter counts, and at least one.
pub uninterp spec fn bloom_ready(bloom: Bloom<i32>) -> bool;

/// `Bloom::new`: a filter of `bitmap_size` bytes for about `items_count` items.
///
/// Trusted: where both numbers are positive and the size in bits fits in
/// `usize`, the new filter is in working order and has no bit set, so that it
/// answers no for every item. Its hash keys come from the operating system's
/// random source; nothing is stated of them.
#[verifier::external_body]
fn bloom_new(bitmap_size: usize, items_count: usize) -> (bloom: Bloom<i32>)
    requires
        0 < bitmap_size <= usize::MAX / 8,
        0 < items_count,
    ensures
        bloom_ready(bloom),
        bloom_accepts(bloom) == Set::<i32>::empty(),
{
    Bloom::new(bitmap_size, items_count)
}

/// `Bloom::set`: records an item.
///
/// Trusted: the filter stays in working order, answers yes for the item from
/// now on, and still answers yes wherever it did before, since bits are only
/// ever switched on.
#[verifier::external_body]
fn bloom_set(bloom: &mut Bloom<i32>, item: &i32)
    requires
        bloom_ready(*old(bloom)),
    ensures
        bloom_ready(*final(bloom)),
        bloom_accepts(*final(bloom)).contains(*item),
        bloom_accepts(*old(bloom)).subset_of(bloom_accepts(*final(bloom))),
{
    bloom.set(item)
}

/// `Bloom::check`: asks the filter about an item.
///
/// Trusted: the answer is the filter's answer for that item, which depends on
/// the filter and the item alone.
#[verifier::external_body]
fn bloom_check(bloom: &Bloom<i32>, item: &i32) -> (found: bool)
    requires
        bloom_ready(*bloom),
    ensures
        found == bloom_accepts(*bloom).contains(*item),
{
    bloom.check(item)
}

/// Bit pattern of the number one in IEEE 754 binary64.
pub const ONE_BITS: u64 = 0x3FF0_0000_0000_0000;

/// Whether `bits`, read as an IEEE 754 binary64 number, is a rate strictly
/// between zero and one. Among the patterns of positive numbers the order of
/// the patterns is the order of the numbers; the patterns of zero, of
/// negative numbers, of infinities and of NaNs all lie outside this range.
pub open spec fn rate_in_range(bits: u64) -> bool {
    0 < bits < ONE_BITS
}

/// Why a filter could not be set up.
#[derive(Clone, Copy, Debug, PartialEq, Eq, Structural)]
pub enum ConfigError {
    /// The false-positive rate is not strictly between zero and one.
    FalsePositiveRate,
    /// The capacity hint is zero.
    CapacityHint,
    /// The bitmap has no bytes, or more bytes than can be counted in bits.
    BitmapSize,
}

/// Whether a bitmap of that many bytes can be made.
pub open spec fn bitmap_in_range(bitmap_bytes: usize) -> bool {
    0 < bitmap_bytes <= usize::MAX / 8
}

/// The first reason, if any, for which a filter cannot be set up.
pub open spec fn config_error(capacity_hint: usize, fp_rate_bits: u64, bitmap_bytes: usize)
    -> Option<ConfigError> {
    if !rate_in_range(fp_rate_bits) {
        Some(ConfigError::FalsePositiveRate)
    } else if capacity_hint == 0 {
        Some(ConfigError::CapacityHint)
    } else if !bitmap_in_range(bitmap_bytes) {
        Some(ConfigError::BitmapSize)
    } else {
        None
    }
}

/// The tunables of a filter, checked: the number of items it is sized for and
/// the false-positive rate it aims at.
#[derive(Clone, Copy, Debug)]
pub struct FilterConfig {
    capacity_hint: usize,
    fp_rate_bits: u64,
}

impl FilterConfig {
    /// The tunables passed their checks.
    #[verifier::type_invariant]
    pub open spec fn wf(&self) -> bool {
        rate_in_range(self.fp_rate_bits()) && self.capacity_hint() > 0
    }

    /// The number of items the filter is sized for.
    pub closed spec fn capacity_hint(&self) -> usize {
        self.capacity_hint
    }

    /// The target false-positive rate, as the bit pattern of a binary64 number.
    pub closed spec fn fp_rate_bits(&self) -> u64 {
        self.fp_rate_bits
    }

    /// Checks the tunables, the rate first. The rate is given as the bit
    /// pattern of a binary64 number.
    pub fn new(capacity_hint: usize, fp_rate_bits: u64) -> (outcome: Result<
        FilterConfig,
        ConfigError,
    >)
        ensures
            match outcome {
                Ok(config) => {
                    &&& rate_in_range(fp_rate_bits)
                    &&& capacity_hint > 0
                    &&& config.capacity_hint() == capacity_hint
                    &&& config.fp_rate_bits() == fp_rate_bits
                },
                Err(error) => if rate_in_range(fp_rate_bits) {
                    capacity_hint == 0 && error == ConfigError::CapacityHint
                } else {
                    error == ConfigError::FalsePositiveRate
                },
            },
    {
        if fp_rate_bits == 0 || fp_rate_bits >= ONE_BITS {
            Err(ConfigError::FalsePositiveRate)
        } else if capacity_hint == 0 {
            Err(ConfigError::CapacityHint)
        } else {
            Ok(FilterConfig { capacity_hint, fp_rate_bits })
        }
    }

    /// The number of items the filter is sized for.
    pub fn get_capacity_hint(&self) -> (hint: usize)
        ensures
            hint == self.capacity_hint(),
            hint > 0,
    {
        proof {
            use_type_invariant(self);
        }
        self.capacity_hint
    }

    /// The target false-positive rate, as the bit pattern of a binary64 number.
    pub fn get_fp_rate_bits(&self) -> (bits: u64)
        ensures
            bits == self.fp_rate_bits(),
            rate_in_range(bits),
    {
        proof {
            use_type_invariant(self);
        }
        self.fp_rate_bits
    }
}

/// A probabilistic record of a set of items. It recognises every item that was
/// put into it, and may recognise others.
pub struct MembershipFilter {
    bloom: Bloom<i32>,
    config: FilterConfig,
    bitmap_bytes: usize,
    inserted: Ghost<Set<i32>>,
}

impl MembershipFilter {
    /// The filter works, and recognises all that was put into it.
    #[verifier::type_invariant]
    pub closed spec fn wf(&self) -> bool {
        &&& bloom_ready(self.bloom)
        &&& self.inserted@.subset_of(bloom_accepts(self.bloom))
        &&& self.config.wf()
        &&& bitmap_in_range(self.bitmap_bytes)
    }

    /// The items that were put into the filter.
    pub closed spec fn inserted(&self) -> Set<i32> {
        self.inserted@
    }

    /// The items that the filter recognises.
    pub closed spec fn accepted(&self) -> Set<i32> {
        bloom_accepts(self.bloom)
    }

    /// The tunables the filter was made with.
    pub closed spec fn config(&self) -> FilterConfig {
        self.config
    }

    /// The size of the filter's bitmap in bytes.
    pub closed spec fn bitmap_bytes(&self) -> usize {
        self.bitmap_bytes
    }

    /// The filter recognises `item` although it was never put in.
    pub open spec fn is_false_positive(&self, item: i32) -> bool {
        self.accepted().contains(item) && !self.inserted().contains(item)
    }

    /// An empty filter with a bitmap of `bitmap_bytes` bytes. It recognises
    /// nothing. The size is the caller's choice for the tunables; deriving it
    /// from them takes logarithms and is not done here.
    pub fn new(config: &FilterConfig, bitmap_bytes: usize) -> (outcome: Result<
        MembershipFilter,
        ConfigError,
    >)
        ensures
            match outcome {
                Ok(filter) => {
                    &&& bitmap_in_range(bitmap_bytes)
                    &&& filter.wf()
                    &&& filter.config() == *config
                    &&& filter.bitmap_bytes() == bitmap_bytes
                    &&& filter.inserted() == Set::<i32>::empty()
                    &&& filter.accepted() == Set::<i32>::empty()
                },
                Err(error) => !bitmap_in_range(bitmap_bytes) && error == ConfigError::BitmapSize,
            },
    {
        if bitmap_bytes == 0 || bitmap_bytes > usize::MAX / 8 {
            return Err(ConfigError::BitmapSize);
        }
        let bloom = bloom_new(bitmap_bytes, config.get_capacity_hint());
        proof {
            use_type_invariant(config);
        }
        Ok(MembershipFilter { bloom, config: *config, bitmap_bytes, inserted: Ghost(Set::empty()) })
    }

    /// The filter with `item` put in. What it recognised before it still
    /// recognises.
    pub fn insert(self, item: i32) -> (filter: MembershipFilter)
        ensures
            filter.wf(),
            filter.config() == self.config(),
            filter.bitmap_bytes() == self.bitmap_bytes(),
            filter.inserted() == self.inserted().insert(item),
            filter.accepted().contains(item),
            self.accepted().subset_of(filter.accepted()),
    {
        proof {
            use_type_invariant(&self);
        }
        let ghost inserted = self.inserted@.insert(item);
        let MembershipFilter { bloom, config, bitmap_bytes, inserted: _ } = self;
        let mut bloom = bloom;
        bloom_set(&mut bloom, &item);
        MembershipFilter { bloom, config, bitmap_bytes, inserted: Ghost(inserted) }
    }

    /// The tunables the filter was made with.
    pub fn get_config(&self) -> (config: FilterConfig)
        ensures
            config == self.config(),
            config.wf(),
    {
        proof {
            use_type_invariant(self);
        }
        self.config
    }

    /// The size of the filter's bitmap in bytes.
    pub fn get_bitmap_bytes(&self) -> (bytes: usize)
        ensures
            bytes == self.bitmap_bytes(),
            bitmap_in_range(bytes),
    {
        proof {
            use_type_invariant(self);
        }
        self.bitmap_bytes
    }
}

/// Whether the filter recognises `item`: always so if the item was put in,
/// and possibly so if it was not.
pub fn filter_contains(filter: &MembershipFilter, item: i32) -> (found: bool)
    ensures
        found == filter.accepted().contains(item),
        filter.inserted().contains(item) ==> found,
{
    proof {
        use_type_invariant(filter);
    }
    bloom_check(&filter.bloom, &item)
}

/// No false negatives: a filter recognises every item that was put into it.
pub proof fn filter_recognises_inserted(filter: MembershipFilter, item: i32)
    requires
        filter.wf(),
        filter.inserted().contains(item),
    ensures
        filter.accepted().contains(item),
{
}

} // verus!
