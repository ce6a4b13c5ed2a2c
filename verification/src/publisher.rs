//! The identifier namespace for publisher pages.
use vstd::prelude::*;

verus! {

/// The identifier of a publisher on the site.
#[derive(Debug, Clone, Copy, PartialEq, Eq, Structural)]
pub struct PublisherId(pub usize);

} // verus!
