//! Sets of row addresses, kept as compressed bitmaps.

use roaring::RoaringTreemap;
use vstd::prelude::*;

verus! {

/// A compressed bitmap of 64-bit values, from the `roaring` crate.
#[verifier::external_type_specification]
#[verifier::external_body]
pub struct ExRoaringTreemap(RoaringTreemap);

/// The values that a bitmap holds.
pub uninterp spec fn treemap_values(t: RoaringTreemap) -> Set<u64>;

/// `RoaringTreemap::new`: the bitmap holds nothing.
pub assume_specification[ RoaringTreemap::new ]() -> (r: RoaringTreemap)
    ensures
        treemap_values(r) == Set::<u64>::empty(),
;

/// `RoaringTreemap::insert`: the value is in the bitmap afterwards, everything
/// else is as before, and the answer tells whether it was not there yet.
pub assume_specification[ RoaringTreemap::insert ](t: &mut RoaringTreemap, value: u64) -> (r: bool)
    ensures
        treemap_values(*final(t)) == treemap_values(*old(t)).insert(value),
        r == !treemap_values(*old(t)).contains(value),
;

} // verus!
