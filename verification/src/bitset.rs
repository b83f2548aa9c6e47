//! What this crate takes for granted about `tantivy_common::BitSet`, the set
//! of document ids that the encoder reads.
//!
//! Nothing in this module is proved: each contract restates what the source
//! of `tantivy_common` does.

use tantivy_common::BitSet;
use vstd::prelude::*;

verus! {

#[verifier::external_type_specification]
#[verifier::external_body]
pub struct ExBitSet(tantivy_common::BitSet);

/// The elements of a `BitSet`: the values for which `contains` answers yes.
pub uninterp spec fn bitset_docs(set: BitSet) -> Set<u32>;

/// The bound that a `BitSet` was made with, as `max_value` reports it.
pub uninterp spec fn bitset_max_value(set: BitSet) -> u32;

/// The count that a `BitSet` keeps and `len` reports. `insert` raises it by
/// one for each new element; `clear` empties the set without resetting it,
/// so it is the number of elements only of a set that was never cleared.
pub uninterp spec fn bitset_count(set: BitSet) -> nat;

/// The values that a `BitSet` has room for are those below this bound: it
/// holds one 64-bit word for every 64 values up to `max_value`, rounded up.
/// No word is allocated where that rounding leaves the range of `u32`.
pub open spec fn bitset_reach(set: BitSet) -> int {
    if bitset_max_value(set) + 63 <= u32::MAX {
        64 * ((bitset_max_value(set) + 63) / 64)
    } else {
        0
    }
}

/// Whether the kept count of a `BitSet` is the number of its elements.
pub open spec fn bitset_counted(set: BitSet) -> bool {
    bitset_count(set) == bitset_docs(set).len()
}

/// `BitSet::with_max_value` returns an empty set with the given bound. It
/// computes `max_value + 63` in `u32`, so larger bounds are left out.
pub assume_specification[ BitSet::with_max_value ](max_value: u32) -> (set: BitSet)
    requires
        max_value + 63 <= u32::MAX,
    ensures
        bitset_docs(set) == Set::<u32>::empty(),
        bitset_max_value(set) == max_value,
        bitset_count(set) == 0,
;

/// `BitSet::insert` adds `el` to the set and raises the kept count if `el`
/// is new. It indexes the word `el / 64` unchecked, so `el` must lie within
/// the set's reach.
pub assume_specification[ BitSet::insert ](set: &mut BitSet, el: u32)
    requires
        el < bitset_reach(*old(set)),
        bitset_count(*old(set)) < usize::MAX,
    ensures
        bitset_docs(*final(set)) == bitset_docs(*old(set)).insert(el),
        bitset_max_value(*final(set)) == bitset_max_value(*old(set)),
        bitset_count(*final(set)) == bitset_count(*old(set)) + (if bitset_docs(*old(set)).contains(el) {
            0nat
        } else {
            1nat
        }),
;

/// `BitSet::contains` tells whether `el` is an element. It indexes the word
/// `el / 64` unchecked, so `el` must lie within the set's reach.
pub assume_specification[ BitSet::contains ](set: &BitSet, el: u32) -> (found: bool)
    requires
        el < bitset_reach(*set),
    ensures
        found == bitset_docs(*set).contains(el),
;

/// `BitSet::len` returns the kept count.
pub assume_specification[ BitSet::len ](set: &BitSet) -> (len: usize)
    ensures
        len == bitset_count(*set),
;

/// `BitSet::max_value` returns the bound that the set was made with.
pub assume_specification[ BitSet::max_value ](set: &BitSet) -> (max_value: u32)
    ensures
        max_value == bitset_max_value(*set),
;

} // verus!
