//! No congestion control at all.
use vstd::prelude::*;

verus! {

/// The controller of a sender whose window nothing bounds.
#[derive(Debug, Clone, Copy, PartialEq, Eq, Structural)]
pub struct NoControl;

} // verus!
