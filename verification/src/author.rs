//! The identifier namespace for author pages.
use vstd::prelude::*;

verus! {

/// The identifier of an author on the site.
#[derive(Debug, Clone, Copy, PartialEq, Eq, Structural)]
pub struct AuthorId(pub usize);

} // verus!
