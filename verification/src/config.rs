//! Sizes of the fixed tables.
use vstd::prelude::*;

verus! {

/// How many multicast groups an interface can be a member of.
pub const IFACE_MAX_MULTICAST_GROUP_COUNT: usize = 4;

/// How many disjoint ranges an assembler can hold.
pub const ASSEMBLER_MAX_SEGMENT_COUNT: usize = 4;

} // verus!
