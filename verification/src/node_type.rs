//! Semantic types of nodes.

use vstd::prelude::*;
use crate::text::{lowercase, to_lower, str_eq};

verus! {

/// Node type in the tensor-graph: each node is a semantic unit of one kind.
#[derive(Debug, Clone, Copy, PartialEq, Eq, Hash)]
pub enum NodeType {
    /// Entity (a person, company, place).
    Entity,
    /// Concept (an idea or category).
    Concept,
    /// Fact (a statement about entities).
    Fact,
    /// Raw text chunk (unstructured content segment).
    RawChunk,
}

/// The lower-case name under which a node type is written and parsed.
pub open spec fn node_type_name(t: NodeType) -> Seq<char> {
    match t {
        NodeType::Entity => "entity"@,
        NodeType::Concept => "concept"@,
        NodeType::Fact => "fact"@,
        NodeType::RawChunk => "raw_chunk"@,
    }
}

/// The node type whose name is `name`, if any.
pub open spec fn node_type_named(name: Seq<char>) -> Option<NodeType> {
    if name == "entity"@ {
        Some(NodeType::Entity)
    } else if name == "concept"@ {
        Some(NodeType::Concept)
    } else if name == "fact"@ {
        Some(NodeType::Fact)
    } else if name == "raw_chunk"@ {
        Some(NodeType::RawChunk)
    } else {
        None
    }
}

impl NodeType {
    /// Whether this node type is structured (carries semantic meaning).
    pub fn is_structured(&self) -> (r: bool)
        ensures
            r == (*self != NodeType::RawChunk),
    {
        match self {
            NodeType::Entity | NodeType::Concept | NodeType::Fact => true,
            NodeType::RawChunk => false,
        }
    }

    /// Whether this node type is unstructured (raw content).
    pub fn is_raw(&self) -> (r: bool)
        ensures
            r == (*self == NodeType::RawChunk),
    {
        match self {
            NodeType::RawChunk => true,
            _ => false,
        }
    }

    /// The lower-case name of this node type.
    pub fn name(&self) -> (r: &'static str)
        ensures
            r@ == node_type_name(*self),
    {
        match self {
            NodeType::Entity => "entity",
            NodeType::Concept => "concept",
            NodeType::Fact => "fact",
            NodeType::RawChunk => "raw_chunk",
        }
    }

    /// The display form of this node type (its lower-case name).
    pub fn to_string(&self) -> (r: String)
        ensures
            r@ == node_type_name(*self),
    {
        String::from_str(self.name())
    }

    /// Parses a node type name, ignoring case.
    pub fn parse(s: &str) -> (r: Result<NodeType, String>)
        ensures
            r is Ok <==> node_type_named(lowercase(s@)) is Some,
            r matches Ok(t) ==> node_type_named(lowercase(s@)) == Some(t),
            r matches Err(e) ==> e@ == "Unknown node type: "@ + s@,
    {
        let lower = to_lower(s);
        let l = lower.as_str();
        if str_eq(l, "entity") {
            Ok(NodeType::Entity)
        } else if str_eq(l, "concept") {
            Ok(NodeType::Concept)
        } else if str_eq(l, "fact") {
            Ok(NodeType::Fact)
        } else if str_eq(l, "raw_chunk") {
            Ok(NodeType::RawChunk)
        } else {
            let msg = String::from_str("Unknown node type: ");
            Err(msg.concat(s))
        }
    }
}

} // verus!

verus! {

impl std::str::FromStr for NodeType {
    type Err = String;

    fn from_str(s: &str) -> (r: Result<NodeType, String>)
        ensures
            r is Ok <==> node_type_named(lowercase(s@)) is Some,
            r matches Ok(t) ==> node_type_named(lowercase(s@)) == Some(t),
            r matches Err(e) ==> e@ == "Unknown node type: "@ + s@,
    {
        NodeType::parse(s)
    }
}

} // verus!
