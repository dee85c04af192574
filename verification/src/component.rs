//! Typed content nodes and the kind discipline that restricts which node
//! may stand where.
//!
//! Every content node belongs to exactly one kind (inline, block, table
//! cell, table row, section, asset, page, location). A container's type
//! only admits children of the kind it expects, so an ill-kinded tree
//! cannot be built at all.

use vstd::prelude::*;

pub mod asset;
pub mod block;
pub mod inline;
pub mod location;
pub mod page;
pub mod section;

pub use asset::AssetComponent;
pub use block::BlockComponent;
pub use inline::InlineComponent;
pub use location::LocationComponent;
pub use page::PageComponent;
pub use section::SectionComponent;

verus! {

/// A kind of component: one of the closed set of categories a content
/// node can belong to. The marker types implementing this trait tag the
/// rendering context with the kind it currently expects.
pub trait ComponentKind {

}

} // verus!
