//! Edges of the tensor-graph.

use vstd::prelude::*;
use crate::error::CoreError;
use crate::ids::{id_to_string, uuid_text};
use crate::relation::{Relation, relation_name, reverse_relation};

verus! {

/// An edge: a logical relationship from a source node to a target node.
/// Weights, relation vectors and timestamps are kept beside it by the
/// services.
#[derive(Debug, PartialEq)]
pub struct Edge {
    /// Source node id.
    pub source: u128,
    /// Target node id.
    pub target: u128,
    /// Relation type.
    pub relation: Relation,
    /// Whether this edge is expired (for dynamic fact correction).
    pub expired: bool,
    /// If expired, the id of the replacement.
    pub replaced_by: Option<u128>,
}

impl Clone for Edge {
    fn clone(&self) -> (r: Edge)
        ensures
            r == *self,
    {
        Edge {
            source: self.source,
            target: self.target,
            relation: self.relation.clone(),
            expired: self.expired,
            replaced_by: self.replaced_by,
        }
    }
}

impl Edge {
    /// A new active edge.
    pub fn new(source: u128, target: u128, relation: Relation) -> (r: Edge)
        ensures
            r == (Edge { source, target, relation, expired: false, replaced_by: None }),
    {
        Edge { source, target, relation, expired: false, replaced_by: None }
    }

    /// The identifier of this edge: source, target and relation, joined by
    /// `::`.
    pub fn id(&self) -> (r: String)
        ensures
            r@ == uuid_text(self.source) + "::"@ + uuid_text(self.target) + "::"@ + relation_name(self.relation@),
    {
        let s = id_to_string(self.source);
        let t = id_to_string(self.target);
        let rel = self.relation.to_string();
        s.concat("::").concat(t.as_str()).concat("::").concat(rel.as_str())
    }

    /// Whether this edge is active (not expired).
    pub fn is_active(&self) -> (r: bool)
        ensures
            r == !self.expired,
    {
        !self.expired
    }

    /// Whether this edge is expired.
    pub fn is_expired(&self) -> (r: bool)
        ensures
            r == self.expired,
    {
        self.expired
    }

    /// Marks this edge as expired.
    pub fn expire(&mut self)
        ensures
            *final(self) == (Edge { expired: true, ..*old(self) }),
    {
        self.expired = true;
    }

    /// Marks this edge as expired and replaced by another.
    pub fn replace_with(&mut self, replacement_id: u128)
        ensures
            *final(self) == (Edge { expired: true, replaced_by: Some(replacement_id), ..*old(self) }),
    {
        self.expired = true;
        self.replaced_by = Some(replacement_id);
    }

    /// Sets the expired flag.
    pub fn with_expired(self, expired: bool) -> (r: Edge)
        ensures
            r == (Edge { expired, ..self }),
    {
        Edge { expired, ..self }
    }

    /// Checks that the edge does not loop on one node.
    pub fn validate(&self) -> (r: Result<(), CoreError>)
        ensures
            self.source == self.target ==> r == Err::<(), CoreError>(CoreError::SelfReferentialEdge),
            self.source != self.target ==> r is Ok,
    {
        if self.source == self.target {
            Err(CoreError::SelfReferentialEdge)
        } else {
            Ok(())
        }
    }

    /// The reverse edge: source and target swapped, relation reversed,
    /// active and not replaced.
    pub fn reverse(&self) -> (r: Edge)
        ensures
            r.source == self.target,
            r.target == self.source,
            r.relation@ == reverse_relation(self.relation@),
            !r.expired,
            r.replaced_by is None,
    {
        Edge {
            source: self.target,
            target: self.source,
            relation: self.relation.reverse(),
            expired: false,
            replaced_by: None,
        }
    }
}

} // verus!
