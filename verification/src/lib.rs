//! A small growable array that owns its items, with a read-only forward
//! cursor over them.
//!
//! [`ToyVec`] keeps its items in a block of slots that it replaces with a
//! larger one when an append finds it full; [`Iter`] walks the items without
//! owning them. The module `growth` holds the rule by which the block grows.

pub mod container;
pub mod cursor;
pub mod growth;

pub use crate::container::ToyVec;
pub use crate::cursor::Iter;
