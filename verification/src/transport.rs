//! The capability through which the engine asks for a secondary page.
use vstd::prelude::*;

use crate::dom::DomNode;

verus! {

/// A synchronous page fetcher: hands back the parsed tree of the page at
/// `url`. Network and parse failures are the implementor's concern; the
/// engine states nothing about the tree that comes back.
pub trait Transport {
    fn get(&self, url: &str) -> DomNode;
}

} // verus!
