//! Tests of the data model: node types, relations, directions, edges and
//! reasoning paths.

use synton::edge::Edge;
use synton::filter::TraverseDirection;
use synton::node::Node;
use synton::node_type::NodeType;
use synton::path::{PathBuilder, PathType, ReasoningPath};
use synton::relation::Relation;
use synton::error::CoreError;

fn fresh_id() -> u128 {
    uuid::Uuid::new_v4().as_u128()
}

#[test]
fn test_node_type_display() {
    assert_eq!(NodeType::Entity.to_string(), "entity");
    assert_eq!(NodeType::Concept.to_string(), "concept");
    assert_eq!(NodeType::Fact.to_string(), "fact");
    assert_eq!(NodeType::RawChunk.to_string(), "raw_chunk");
}

#[test]
fn test_node_type_from_str() {
    assert_eq!("entity".parse::<NodeType>().unwrap(), NodeType::Entity);
    assert_eq!("ENTITY".parse::<NodeType>().unwrap(), NodeType::Entity);
    assert_eq!("concept".parse::<NodeType>().unwrap(), NodeType::Concept);
    assert_eq!("fact".parse::<NodeType>().unwrap(), NodeType::Fact);
    assert_eq!("raw_chunk".parse::<NodeType>().unwrap(), NodeType::RawChunk);
    assert!("unknown".parse::<NodeType>().is_err());
}

#[test]
fn test_node_type_is_structured() {
    assert!(NodeType::Entity.is_structured());
    assert!(NodeType::Concept.is_structured());
    assert!(NodeType::Fact.is_structured());
    assert!(!NodeType::RawChunk.is_structured());
}

#[test]
fn test_node_type_is_raw() {
    assert!(!NodeType::Entity.is_raw());
    assert!(!NodeType::Concept.is_raw());
    assert!(!NodeType::Fact.is_raw());
    assert!(NodeType::RawChunk.is_raw());
}

#[test]
fn test_relation_display() {
    assert_eq!(Relation::IsPartOf.to_string(), "is_part_of");
    assert_eq!(Relation::Causes.to_string(), "causes");
    assert_eq!(Relation::Custom("custom_rel".to_string()).to_string(), "custom_rel");
}

#[test]
fn test_relation_from_str() {
    assert_eq!("is_part_of".parse::<Relation>().unwrap(), Relation::IsPartOf);
    assert_eq!("CAUSES".parse::<Relation>().unwrap(), Relation::Causes);
    assert_eq!("custom_rel".parse::<Relation>().unwrap(), Relation::Custom("custom_rel".to_string()));
}

#[test]
fn test_relation_reverse() {
    assert_eq!(Relation::IsPartOf.reverse(), Relation::BelongsTo);
    assert_eq!(Relation::BelongsTo.reverse(), Relation::IsPartOf);
    assert_eq!(Relation::Causes.reverse(), Relation::Custom("caused_by".to_string()));
}

#[test]
fn test_relation_properties() {
    assert!(Relation::IsPartOf.is_transitive());
    assert!(Relation::IsA.is_transitive());
    assert!(Relation::SimilarTo.is_symmetric());
    assert!(!Relation::Causes.is_symmetric());
}

#[test]
fn test_relation_is_directional() {
    assert!(Relation::Causes.is_directional());
    assert!(Relation::IsPartOf.is_directional());
    assert!(!Relation::SimilarTo.is_directional());
    assert!(!Relation::Contradicts.is_directional());
}

#[test]
fn test_traverse_direction() {
    assert!(TraverseDirection::Outgoing.includes_outgoing());
    assert!(!TraverseDirection::Outgoing.includes_incoming());

    assert!(TraverseDirection::Incoming.includes_incoming());
    assert!(!TraverseDirection::Incoming.includes_outgoing());

    assert!(TraverseDirection::Both.includes_outgoing());
    assert!(TraverseDirection::Both.includes_incoming());
}

#[test]
fn test_edge_id() {
    let source = fresh_id();
    let target = fresh_id();
    let edge = Edge::new(source, target, Relation::IsPartOf);

    assert!(edge.id().contains(&uuid::Uuid::from_u128(source).to_string()));
    assert!(edge.id().contains(&uuid::Uuid::from_u128(target).to_string()));
    assert!(edge.id().contains("is_part_of"));
}

#[test]
fn test_edge_expire() {
    let mut edge = Edge::new(fresh_id(), fresh_id(), Relation::Causes);
    assert!(edge.is_active());

    edge.expire();
    assert!(edge.is_expired());
}

#[test]
fn test_edge_replace_with() {
    let mut edge = Edge::new(fresh_id(), fresh_id(), Relation::Causes);
    let replacement_id = fresh_id();

    edge.replace_with(replacement_id);
    assert!(edge.is_expired());
    assert_eq!(edge.replaced_by, Some(replacement_id));
}

#[test]
fn test_edge_reverse() {
    let source = fresh_id();
    let target = fresh_id();
    let edge = Edge::new(source, target, Relation::IsPartOf);

    let reversed = edge.reverse();
    assert_eq!(reversed.source, target);
    assert_eq!(reversed.target, source);
    assert_eq!(reversed.relation, Relation::BelongsTo);
}

#[test]
fn test_empty_path() {
    let path = ReasoningPath::new();
    assert!(path.is_empty());
    assert_eq!(path.len(), 0);
    assert_eq!(path.hops(), 0);
    assert!(path.start().is_none());
    assert!(path.end().is_none());
}

#[test]
fn test_path_builder_with_edges() {
    let node1 = Node::new("A", NodeType::Entity);
    let node2 = Node::new("B", NodeType::Entity);
    let node3 = Node::new("C", NodeType::Entity);

    let edge1 = Edge::new(node1.id, node2.id, Relation::Causes);
    let edge2 = Edge::new(node2.id, node3.id, Relation::Causes);

    let path = PathBuilder::new()
        .add_nodes(vec![node1, node2, node3])
        .add_edges(vec![edge1, edge2])
        .path_type(PathType::Causal)
        .build()
        .unwrap();

    assert_eq!(path.len(), 3);
    assert_eq!(path.hops(), 2);
    assert_eq!(path.path_type, PathType::Causal);
}

#[test]
fn test_path_builder_validation() {
    let node1 = Node::new("A", NodeType::Entity);
    let node2 = Node::new("B", NodeType::Entity);
    let edge1 = Edge::new(node1.id, node2.id, Relation::Causes);

    let result = PathBuilder::new()
        .add_nodes(vec![node1, node2])
        .add_edges(vec![edge1.clone(), edge1])
        .build();

    assert!(result.is_err());
}

#[test]
fn node_validation_refuses_empty_content() {
    let node = Node::new("Valid content", NodeType::Entity);
    assert!(node.validate().is_ok());
    let empty = Node::new("", NodeType::Entity);
    assert!(empty.validate().is_err());
}

#[test]
fn edge_to_itself_is_refused() {
    let id = fresh_id();
    let edge = Edge::new(id, id, Relation::Causes);
    assert!(edge.validate().is_err());
    let other = Edge::new(id, fresh_id(), Relation::Causes);
    assert!(other.validate().is_ok());
}

#[test]
fn relation_reverse_twice_law_values() {
    for r in [Relation::IsPartOf, Relation::BelongsTo, Relation::SimilarTo] {
        assert_eq!(r.reverse().reverse(), r);
    }
    assert_ne!(Relation::Causes.reverse().reverse(), Relation::Causes);
    assert_eq!(Relation::Contradicts.reverse(), Relation::SimilarTo);
    assert_eq!(Relation::Custom("x".to_string()).reverse(), Relation::Custom("reverse_x".to_string()));
}

#[test]
fn names_read_back() {
    for t in [NodeType::Entity, NodeType::Concept, NodeType::Fact, NodeType::RawChunk] {
        assert_eq!(NodeType::parse(t.name()).unwrap(), t);
    }
    for r in [
        Relation::IsPartOf,
        Relation::Causes,
        Relation::Contradicts,
        Relation::HappenedAfter,
        Relation::SimilarTo,
        Relation::IsA,
        Relation::LocatedAt,
        Relation::BelongsTo,
    ] {
        assert_eq!(Relation::parse(&r.to_string()), r);
    }
}

#[test]
fn test_node_with_source() {
    let node = Node::with_source("Test", NodeType::Fact, synton::source::Source::ApiImport);
    assert_eq!(node.source, synton::source::Source::ApiImport);
}

#[test]
fn test_node_validation() {
    // Valid node
    let node = Node::new("Valid content", NodeType::Entity);
    assert!(node.validate().is_ok());

    // Empty content
    let node = Node::new("", NodeType::Entity);
    assert!(matches!(node.validate(), Err(synton::error::CoreError::EmptyContent)));
}

#[test]
fn test_edge_validation() {
    let id = fresh_id();
    let edge = Edge::new(id, id, Relation::Causes);
    assert!(matches!(edge.validate(), Err(synton::error::CoreError::SelfReferentialEdge)));

    let edge = Edge::new(fresh_id(), fresh_id(), Relation::Causes);
    assert!(edge.validate().is_ok());
}

#[test]
fn test_path_builder() {
    let node1 = Node::new("A", NodeType::Entity);
    let node2 = Node::new("B", NodeType::Entity);
    let edge = Edge::new(node1.id, node2.id, Relation::Causes);

    let path = PathBuilder::new()
        .add_node(node1.clone())
        .add_node(node2.clone())
        .add_edge(edge)
        .explanation("A to B".to_string())
        .build()
        .unwrap();

    assert_eq!(path.len(), 2);
    assert_eq!(path.hops(), 1);
    assert_eq!(path.start().unwrap().content(), "A");
    assert_eq!(path.end().unwrap().content(), "B");
}

#[test]
fn test_core_error_messages() {
    assert!(CoreError::EmptyContent.to_string().contains("empty"));
    assert!(CoreError::SelfReferentialEdge.to_string().to_lowercase().contains("self-referential"));
    assert_eq!(
        CoreError::ContentTooLarge { size: 12, max: 10 }.to_string(),
        "Content too large: 12 bytes (max: 10 bytes)"
    );
    assert_eq!(CoreError::EmptyContent, CoreError::EmptyContent);
}

#[test]
fn test_node_validation_too_large() {
    let big = "x".repeat(synton::node::MAX_CONTENT_SIZE + 1);
    let node = Node::new(&big, NodeType::RawChunk);
    assert!(matches!(
        node.validate(),
        Err(synton::error::CoreError::ContentTooLarge { size, max })
            if size == synton::node::MAX_CONTENT_SIZE + 1 && max == synton::node::MAX_CONTENT_SIZE
    ));
}
