//! Query-side traversal direction.

use vstd::prelude::*;

verus! {

/// Direction for graph traversal in queries.
#[derive(Debug, Clone, Copy, PartialEq, Eq, Hash)]
pub enum TraverseDirection {
    /// Traverse outgoing edges (source to target).
    Outgoing,
    /// Traverse incoming edges (target to source).
    Incoming,
    /// Traverse both directions.
    Both,
}

impl TraverseDirection {
    /// Whether this direction includes outgoing traversal.
    pub fn includes_outgoing(&self) -> (r: bool)
        ensures
            r == (*self is Outgoing || *self is Both),
    {
        match self {
            TraverseDirection::Outgoing | TraverseDirection::Both => true,
            TraverseDirection::Incoming => false,
        }
    }

    /// Whether this direction includes incoming traversal.
    pub fn includes_incoming(&self) -> (r: bool)
        ensures
            r == (*self is Incoming || *self is Both),
    {
        match self {
            TraverseDirection::Incoming | TraverseDirection::Both => true,
            TraverseDirection::Outgoing => false,
        }
    }

    /// The display form of this direction.
    pub fn to_string(&self) -> (r: String)
        ensures
            *self is Outgoing ==> r@ == "outgoing"@,
            *self is Incoming ==> r@ == "incoming"@,
            *self is Both ==> r@ == "both"@,
    {
        match self {
            TraverseDirection::Outgoing => String::from_str("outgoing"),
            TraverseDirection::Incoming => String::from_str("incoming"),
            TraverseDirection::Both => String::from_str("both"),
        }
    }
}

} // verus!
