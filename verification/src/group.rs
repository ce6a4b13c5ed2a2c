//! The identifier namespace for scanlation-group pages.
use vstd::prelude::*;

verus! {

/// The identifier of a scanlation group on the site.
#[derive(Debug, Clone, Copy, PartialEq, Eq, Structural)]
pub struct GroupId(pub usize);

} // verus!
