//! The state that a block's header records for an object.

use vstd::prelude::*;

verus! {

/// What the header of a block knows of one of its objects. An object without
/// a status is unrooted and has not been visited by the running cycle.
#[derive(Clone, Copy, Debug, PartialEq, Eq, Hash, Structural)]
pub enum ObjectStatus {
    /// The object was moved to the address.
    Moved(u64),
    /// The object is rooted; the number names its `RootInner`, whose `ptr`
    /// is the object's current address.
    Rooted(u64),
    /// The object's destructor has been run. Only objects of a type that is
    /// not safe to drop get this status.
    Dropped,
}

} // verus!
