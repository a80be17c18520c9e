//! Tests of the database service: nodes, edges, queries, traversals,
//! statistics, bulk operations and document ingestion.

use synton::api_models::{
    AddEdgeRequest, AddNodeRequest, BulkOperationRequest, ChunkingStrategy, DeleteNodeRequest, GetNodeRequest,
    IngestDocumentRequest, TraverseDirection, TraverseRequest,
};
use synton::grpc::{
    decode_bulk, direction_from_code, node_type_code, node_type_from_code, page, query_limit, relation_code,
    relation_from_code, edges_to_wire, nodes_to_wire, GrpcService, GrpcStatus, WireEdge, WireEdgeRequest, WireNode, WireNodeRequest,
    WireStats,
};
use synton::node::Node;
use synton::node_type::NodeType;
use synton::relation::Relation;
use synton::service::{QueryNode, SyntonDbService};

fn text(q: &str) -> QueryNode {
    // A plain word or phrase is parsed as a text search.
    QueryNode::TextSearch { query: q.to_string() }
}

fn add(service: &mut SyntonDbService, content: &str, node_type: NodeType) -> Node {
    service.add_node(AddNodeRequest::new(content.to_string(), node_type)).unwrap().node
}

fn edge(source: u128, target: u128, relation: Relation) -> AddEdgeRequest {
    AddEdgeRequest { source, target, relation }
}

fn fresh() -> u128 {
    uuid::Uuid::new_v4().as_u128()
}

// ========== Service creation ==========

#[test]
fn test_service_health() {
    let service = SyntonDbService::new();
    let health = service.health();
    assert_eq!(health.status, "healthy");
    assert!(!health.version.is_empty());
}

#[test]
fn test_service_creation() {
    let service = SyntonDbService::new();
    let health = service.health();
    assert_eq!(health.status, "healthy");
}

#[test]
fn test_service_stats_empty() {
    let service = SyntonDbService::new();
    let stats = service.stats().unwrap();
    assert_eq!(stats.node_count, 0);
    assert_eq!(stats.edge_count, 0);
    assert_eq!(stats.embedded_count, 0);
}

#[test]
fn service_test_stats() {
    let service = SyntonDbService::new();
    let stats = service.stats().unwrap();
    assert_eq!(stats.node_count, 0);
    assert_eq!(stats.edge_count, 0);
}

#[test]
fn test_empty_service_stats() {
    let service = SyntonDbService::default();
    let stats = service.stats().unwrap();
    assert_eq!(stats.node_count, 0);
    assert_eq!(stats.edge_count, 0);
    assert_eq!(stats.embedded_count, 0);
}

// ========== Nodes ==========

#[test]
fn service_test_test_add_node() {
    let mut service = SyntonDbService::new();
    let request = AddNodeRequest::new("Test concept".to_string(), NodeType::Concept);
    let response = service.add_node(request).unwrap();
    assert!(response.created);
    assert_eq!(response.node.content(), "Test concept");
    assert_eq!(response.node.node_type, NodeType::Concept);
}

#[test]
fn service_test_add_node() {
    let mut service = SyntonDbService::new();
    let request = AddNodeRequest::new("Test concept".to_string(), NodeType::Concept);
    let response = service.add_node(request).unwrap();
    assert!(response.created);
    assert_eq!(response.node.content(), "Test concept");
}

#[test]
fn test_add_duplicate_content() {
    let mut service = SyntonDbService::new();
    let request = AddNodeRequest::new("Duplicate test".to_string(), NodeType::Concept);
    let response1 = service.add_node(request.clone()).unwrap();
    assert!(response1.created);
    let response2 = service.add_node(request).unwrap();
    assert!(response2.created);
    assert_ne!(response1.node.id, response2.node.id);
}

#[test]
fn test_add_node_different_types() {
    let mut service = SyntonDbService::new();
    for node_type in [NodeType::Entity, NodeType::Concept, NodeType::Fact, NodeType::RawChunk] {
        let request = AddNodeRequest::new(format!("{:?}", node_type), node_type);
        let response = service.add_node(request).unwrap();
        assert_eq!(response.node.node_type, node_type);
    }
}

#[test]
fn service_test_test_get_node() {
    let mut service = SyntonDbService::new();
    let node_id = add(&mut service, "Test node", NodeType::Entity).id;
    let get_response = service.get_node(GetNodeRequest { id: node_id }).unwrap();
    assert!(get_response.node.is_some());
    assert_eq!(get_response.node.unwrap().id, node_id);
}

#[test]
fn service_test_test_get_nonexistent_node() {
    let service = SyntonDbService::new();
    let response = service.get_node(GetNodeRequest { id: fresh() }).unwrap();
    assert!(response.node.is_none());
}

#[test]
fn test_delete_node() {
    let mut service = SyntonDbService::new();
    let node_id = add(&mut service, "To be deleted", NodeType::Concept).id;
    let delete_response = service.delete_node(DeleteNodeRequest { id: node_id }).unwrap();
    assert!(delete_response.deleted);
    assert_eq!(delete_response.id, node_id);
    let get_response = service.get_node(GetNodeRequest { id: node_id }).unwrap();
    assert!(get_response.node.is_none());
}

#[test]
fn test_delete_nonexistent_node() {
    let mut service = SyntonDbService::new();
    let response = service.delete_node(DeleteNodeRequest { id: fresh() }).unwrap();
    assert!(!response.deleted);
}

#[test]
fn test_delete_keeps_graph_node() {
    let mut service = SyntonDbService::new();
    let node_id = add(&mut service, "Kept in graph", NodeType::Concept).id;
    service.delete_node(DeleteNodeRequest { id: node_id }).unwrap();
    // The node leaves the table, not the graph.
    assert_eq!(service.stats().unwrap().node_count, 1);
    assert!(service.all_nodes().is_empty());
}

#[test]
fn test_all_nodes() {
    let mut service = SyntonDbService::new();
    for i in 0..5 {
        add(&mut service, &format!("Node {}", i), NodeType::Entity);
    }
    assert_eq!(service.all_nodes().len(), 5);
}

#[test]
fn test_all_nodes_empty() {
    let service = SyntonDbService::new();
    assert!(service.all_nodes().is_empty());
}

// ========== Edges ==========

#[test]
fn service_test_test_add_edge() {
    let mut service = SyntonDbService::new();
    let n1 = add(&mut service, "Node 1", NodeType::Entity);
    let n2 = add(&mut service, "Node 2", NodeType::Concept);
    let edge_response = service.add_edge(edge(n1.id, n2.id, Relation::Causes)).unwrap();
    assert_eq!(edge_response.edge.source, n1.id);
    assert_eq!(edge_response.edge.target, n2.id);
}

#[test]
fn service_test_add_edge() {
    let mut service = SyntonDbService::new();
    let n1 = add(&mut service, "Node 1", NodeType::Entity);
    let n2 = add(&mut service, "Node 2", NodeType::Entity);
    let response = service.add_edge(edge(n1.id, n2.id, Relation::Causes)).unwrap();
    assert_eq!(response.edge.source, n1.id);
}

#[test]
fn test_add_edge_nonexistent_source() {
    let mut service = SyntonDbService::new();
    let n1 = add(&mut service, "Node 1", NodeType::Entity);
    let missing = fresh();
    let result = service.add_edge(edge(missing, n1.id, Relation::Causes));
    assert!(result.is_err());
    assert_eq!(result.unwrap_err(), synton::api_error::ApiError::NodeNotFound(missing));
}

#[test]
fn test_add_edge_nonexistent_target() {
    let mut service = SyntonDbService::new();
    let n1 = add(&mut service, "Node 1", NodeType::Entity);
    let missing = fresh();
    let result = service.add_edge(edge(n1.id, missing, Relation::Causes));
    assert!(result.is_err());
    assert_eq!(result.unwrap_err(), synton::api_error::ApiError::NodeNotFound(missing));
}

#[test]
fn test_add_multiple_edges() {
    let mut service = SyntonDbService::new();
    let nodes: Vec<Node> = (0..5).map(|_| add(&mut service, "Node", NodeType::Entity)).collect();
    for i in 0..nodes.len() - 1 {
        service.add_edge(edge(nodes[i].id, nodes[i + 1].id, Relation::Causes)).unwrap();
    }
    let stats = service.stats().unwrap();
    assert_eq!(stats.node_count, 5);
    assert_eq!(stats.edge_count, 4);
}

// ========== Queries ==========

#[test]
fn test_query() {
    let mut service = SyntonDbService::new();
    add(&mut service, "Machine learning concept", NodeType::Concept);
    let response = service.query(&text("machine"), Some(10)).unwrap();
    assert!(!response.nodes.is_empty());
}

#[test]
fn test_query_simple() {
    let mut service = SyntonDbService::new();
    add(&mut service, "Machine learning algorithms", NodeType::Concept);
    add(&mut service, "Deep neural networks", NodeType::Concept);
    add(&mut service, "Data structures", NodeType::Concept);
    let response = service.query(&text("machine"), Some(10)).unwrap();
    assert!(!response.nodes.is_empty());
    assert_eq!(response.total_count, response.nodes.len());
}

#[test]
fn test_query_case_insensitive() {
    let mut service = SyntonDbService::new();
    add(&mut service, "Test Content", NodeType::Concept);
    let response = service.query(&text("test content"), Some(10)).unwrap();
    assert_eq!(response.nodes.len(), 1);
}

#[test]
fn test_case_insensitive_query() {
    let mut service = SyntonDbService::new();
    add(&mut service, "Machine Learning Algorithms", NodeType::Concept);
    for query in ["MACHINE", "machine", "MaChInE"] {
        let result = service.query(&text(query), Some(10)).unwrap();
        assert!(!result.nodes.is_empty(), "Failed for query: {}", query);
    }
}

#[test]
fn test_query_no_results() {
    let mut service = SyntonDbService::new();
    add(&mut service, "Machine learning", NodeType::Concept);
    let response = service.query(&text("nonexistent term"), Some(10)).unwrap();
    assert!(response.nodes.is_empty());
}

#[test]
fn test_query_with_no_results() {
    let mut service = SyntonDbService::new();
    add(&mut service, "Machine Learning", NodeType::Concept);
    let response = service.query(&text("quantum physics"), Some(10)).unwrap();
    assert!(response.nodes.is_empty());
}

#[test]
fn test_query_with_limit() {
    let mut service = SyntonDbService::new();
    for i in 0..10 {
        add(&mut service, &format!("Node {}", i), NodeType::Entity);
    }
    let response = service.query(&text("Node"), Some(3)).unwrap();
    assert_eq!(response.nodes.len(), 3);
    // The limit is applied by the search, so nothing is reported truncated.
    assert!(!response.truncated);
    // The count is that of all matching nodes, before the limit.
    assert_eq!(response.total_count, 10);
}

#[test]
fn test_query_limit() {
    let mut service = SyntonDbService::new();
    for i in 0..10 {
        add(&mut service, &format!("Test Node {}", i), NodeType::Entity);
    }
    let result = service.query(&text("Test"), Some(5)).unwrap();
    assert_eq!(result.nodes.len(), 5);
}

#[test]
fn test_query_tree_union() {
    let mut service = SyntonDbService::new();
    let a = add(&mut service, "alpha one", NodeType::Concept);
    let b = add(&mut service, "beta two", NodeType::Concept);
    let c = add(&mut service, "gamma three", NodeType::Concept);
    let both = add(&mut service, "alpha and two", NodeType::Concept);
    // `And` keeps the nodes that match both sides, ignoring case.
    let q = QueryNode::And { left: Box::new(text("ALPHA")), right: Box::new(text("two")) };
    let found = service.text_search(&q, None).unwrap();
    assert_eq!(found.iter().map(|n| n.id).collect::<Vec<_>>(), vec![both.id]);
    // `Or` keeps the nodes that match either side.
    let q = QueryNode::Or { left: Box::new(text("alpha")), right: Box::new(text("gamma")) };
    let found = service.text_search(&q, None).unwrap();
    assert_eq!(found.iter().map(|n| n.id).collect::<Vec<_>>(), vec![a.id, c.id, both.id]);
    // `Not` keeps the nodes that do not match its input.
    let not = QueryNode::Not { input: Box::new(text("alpha")) };
    let found = service.text_search(&not, None).unwrap();
    assert_eq!(found.iter().map(|n| n.id).collect::<Vec<_>>(), vec![b.id, c.id]);
    let filtered = QueryNode::Filter { input: Box::new(text("gamma")) };
    assert_eq!(service.text_search(&filtered, None).unwrap().len(), 1);
}

#[test]
fn test_hybrid_search_without_embeddings() {
    let mut service = SyntonDbService::new();
    for i in 0..4 {
        add(&mut service, &format!("Topic {}", i), NodeType::Concept);
    }
    assert_eq!(service.hybrid_search("topic", 2).unwrap().len(), 2);
    assert!(service.hybrid_search("absent", 2).unwrap().is_empty());
}

#[test]
fn test_delete_and_query() {
    let mut service = SyntonDbService::new();
    let node = add(&mut service, "Temporary node", NodeType::Concept);
    let query1 = service.query(&text("temporary"), Some(10)).unwrap();
    assert!(!query1.nodes.is_empty());
    service.delete_node(DeleteNodeRequest { id: node.id }).unwrap();
    let query2 = service.query(&text("temporary"), Some(10)).unwrap();
    assert!(query2.nodes.is_empty());
}

// ========== Traversals ==========

fn chain(service: &mut SyntonDbService) -> (Node, Node, Node) {
    let n1 = add(service, "Node 1", NodeType::Entity);
    let n2 = add(service, "Node 2", NodeType::Concept);
    let n3 = add(service, "Node 3", NodeType::Fact);
    service.add_edge(edge(n1.id, n2.id, Relation::Causes)).unwrap();
    service.add_edge(edge(n2.id, n3.id, Relation::Causes)).unwrap();
    (n1, n2, n3)
}

fn traverse_request(start_id: u128, max_depth: usize, direction: TraverseDirection) -> TraverseRequest {
    TraverseRequest { start_id, max_depth, max_nodes: 10, direction }
}

#[test]
fn test_traverse_forward() {
    let mut service = SyntonDbService::new();
    let (n1, _, _) = chain(&mut service);
    let response = service.traverse(traverse_request(n1.id, 2, TraverseDirection::Forward)).unwrap();
    assert_eq!(response.nodes.len(), 2); // n2, n3 (not including start)
}

#[test]
fn test_traverse_backward() {
    let mut service = SyntonDbService::new();
    let n1 = add(&mut service, "Node 1", NodeType::Entity);
    let n2 = add(&mut service, "Node 2", NodeType::Concept);
    service.add_edge(edge(n1.id, n2.id, Relation::Causes)).unwrap();
    let response = service.traverse(traverse_request(n2.id, 1, TraverseDirection::Backward)).unwrap();
    assert_eq!(response.nodes.len(), 1);
    assert_eq!(response.nodes[0].id, n1.id);
}

#[test]
fn test_traverse_both_directions() {
    let mut service = SyntonDbService::new();
    let (_, n2, _) = chain(&mut service);
    let response = service.traverse(traverse_request(n2.id, 1, TraverseDirection::Both)).unwrap();
    assert_eq!(response.nodes.len(), 2);
}

#[test]
fn service_test_test_traverse_nonexistent_start() {
    let service = SyntonDbService::new();
    let result = service.traverse(traverse_request(fresh(), 1, TraverseDirection::Forward));
    assert!(result.is_err());
}

#[test]
fn workflow_test_test_traverse_nonexistent_start() {
    let service = SyntonDbService::new();
    let id = fresh();
    let result = service.traverse(traverse_request(id, 1, TraverseDirection::Forward));
    assert!(result.is_err());
    assert_eq!(
        result.unwrap_err().to_string(),
        format!("Storage error: Node not found: {}", uuid::Uuid::from_u128(id))
    );
}

#[test]
fn test_traverse_reports_forward_edges() {
    let mut service = SyntonDbService::new();
    let (n1, n2, n3) = chain(&mut service);
    let response = service.traverse(traverse_request(n1.id, 2, TraverseDirection::Forward)).unwrap();
    // The forward edges of n2 and n3: n2 -> n3 only.
    assert_eq!(response.edges.len(), 1);
    assert_eq!(response.edges[0].source, n2.id);
    assert_eq!(response.edges[0].target, n3.id);
}

#[test]
fn test_circular_relationships() {
    let mut service = SyntonDbService::new();
    let a = add(&mut service, "Node A", NodeType::Entity);
    let b = add(&mut service, "Node B", NodeType::Entity);
    let c = add(&mut service, "Node C", NodeType::Entity);
    service.add_edge(edge(a.id, b.id, Relation::Causes)).unwrap();
    service.add_edge(edge(b.id, c.id, Relation::Causes)).unwrap();
    service.add_edge(edge(c.id, a.id, Relation::Causes)).unwrap();
    let result = service.traverse(traverse_request(a.id, 3, TraverseDirection::Forward)).unwrap();
    assert!(result.nodes.iter().any(|n| n.id == b.id));
    assert!(result.nodes.iter().any(|n| n.id == c.id));
}

// ========== Statistics and workflows ==========

#[test]
fn test_stats_with_nodes() {
    let mut service = SyntonDbService::new();
    for _ in 0..10 {
        add(&mut service, "Test", NodeType::Entity);
    }
    assert_eq!(service.stats().unwrap().node_count, 10);
}

#[test]
fn test_stats_with_edges() {
    let mut service = SyntonDbService::new();
    let nodes: Vec<Node> = (0..3).map(|_| add(&mut service, "Node", NodeType::Entity)).collect();
    for i in 0..nodes.len() - 1 {
        service.add_edge(edge(nodes[i].id, nodes[i + 1].id, Relation::Causes)).unwrap();
    }
    assert_eq!(service.stats().unwrap().edge_count, 2);
}

#[test]
fn test_graph_workflow() {
    let mut service = SyntonDbService::new();
    let ml = add(&mut service, "Machine Learning", NodeType::Concept);
    let dl = add(&mut service, "Deep Learning", NodeType::Concept);
    let nn = add(&mut service, "Neural Networks", NodeType::Concept);
    service.add_edge(edge(ml.id, dl.id, Relation::IsA)).unwrap();
    service.add_edge(edge(dl.id, nn.id, Relation::IsPartOf)).unwrap();
    let query_result = service.query(&text("learning"), Some(10)).unwrap();
    assert!(!query_result.nodes.is_empty());
    let traverse_result = service.traverse(traverse_request(ml.id, 2, TraverseDirection::Forward)).unwrap();
    assert_eq!(traverse_result.nodes.len(), 2);
    let stats = service.stats().unwrap();
    assert_eq!(stats.node_count, 3);
    assert_eq!(stats.edge_count, 2);
}

#[test]
fn test_complete_knowledge_graph_workflow() {
    let mut service = SyntonDbService::new();
    let ml = add(&mut service, "Machine Learning is a subset of artificial intelligence", NodeType::Concept);
    let dl = add(&mut service, "Deep Learning uses neural networks with multiple layers", NodeType::Concept);
    let nn = add(&mut service, "Neural Networks are computing systems inspired by biological neurons", NodeType::Concept);
    let python = add(&mut service, "Python is a popular programming language for ML", NodeType::Entity);
    service.add_edge(edge(ml.id, dl.id, Relation::IsA)).unwrap();
    service.add_edge(edge(dl.id, nn.id, Relation::IsPartOf)).unwrap();
    service.add_edge(edge(python.id, ml.id, Relation::SimilarTo)).unwrap();
    let query_result = service.query(&text("learning"), Some(10)).unwrap();
    assert!(!query_result.nodes.is_empty());
    assert!(query_result.nodes.iter().any(|n| n.id == ml.id));
    let traverse_result = service.traverse(traverse_request(ml.id, 2, TraverseDirection::Forward)).unwrap();
    assert!(traverse_result.nodes.len() >= 2);
    let stats = service.stats().unwrap();
    assert_eq!(stats.node_count, 4);
    assert_eq!(stats.edge_count, 3);
}

#[test]
fn test_bulk_operations() {
    let mut service = SyntonDbService::new();
    let requests = vec![
        AddNodeRequest::new("Node 1".to_string(), NodeType::Entity),
        AddNodeRequest::new("Node 2".to_string(), NodeType::Concept),
        AddNodeRequest::new("Node 3".to_string(), NodeType::Fact),
    ];
    let mut node_ids = Vec::new();
    for node_req in requests {
        node_ids.push(service.add_node(node_req).unwrap().node.id);
    }
    service.add_edge(edge(node_ids[0], node_ids[1], Relation::Causes)).unwrap();
    service.add_edge(edge(node_ids[1], node_ids[2], Relation::Causes)).unwrap();
    let traverse_result = service.traverse(traverse_request(node_ids[0], 2, TraverseDirection::Forward)).unwrap();
    assert_eq!(traverse_result.nodes.len(), 2);
}

#[test]
fn test_initialize_and_clash() {
    let mut service = SyntonDbService::new();
    let a = Node::new("A", NodeType::Entity);
    let b = Node::new("B", NodeType::Entity);
    let e = synton::edge::Edge::new(a.id, b.id, Relation::Causes);
    service.initialize(vec![a.clone(), b.clone()], vec![e]).unwrap();
    assert_eq!(service.stats().unwrap().node_count, 2);
    assert_eq!(service.stats().unwrap().edge_count, 1);
    assert_eq!(service.all_nodes().len(), 2);
    // A node the graph already holds is refused; the edges are not loaded.
    let c = Node::new("C", NodeType::Entity);
    let err = service.initialize(vec![c.clone(), a.clone()], vec![]).unwrap_err();
    assert_eq!(
        err.to_string(),
        format!("Storage error: Node {} already exists", uuid::Uuid::from_u128(a.id))
    );
    assert_eq!(service.stats().unwrap().node_count, 3);
}

// ========== Bulk operations ==========

#[test]
fn test_bulk_operation_counts() {
    let mut service = SyntonDbService::new();
    let known = add(&mut service, "Known", NodeType::Entity);
    let missing = fresh();
    let request = BulkOperationRequest {
        nodes: vec![
            AddNodeRequest::new("One".to_string(), NodeType::Entity),
            AddNodeRequest::new("Two".to_string(), NodeType::Fact),
        ],
        edges: vec![edge(known.id, known.id, Relation::SimilarTo), edge(missing, known.id, Relation::Causes)],
    };
    let resp = service.bulk_operation(request);
    assert_eq!(resp.node_ids.len(), 2);
    assert_eq!(resp.edge_ids.len(), 1);
    assert_eq!(resp.success_count, 3);
    assert_eq!(resp.failure_count, 1);
    let kid = uuid::Uuid::from_u128(known.id);
    assert_eq!(resp.edge_ids[0], format!("{}::{}::similar_to", kid, kid));
    assert_eq!(
        resp.errors,
        vec![format!("Edge creation failed: Node not found: {}", uuid::Uuid::from_u128(missing))]
    );
    assert_eq!(service.stats().unwrap().node_count, 3);
}

#[test]
fn add_node_keeps_requested_attributes() {
    let mut service = SyntonDbService::new();
    let mut map = serde_json::Map::new();
    map.insert("key".to_string(), serde_json::Value::String("value".to_string()));
    let attrs = serde_json::Value::Object(map);
    let request = AddNodeRequest::new("With attributes".to_string(), NodeType::Fact).with_attributes(attrs.clone());
    let node = service.add_node(request).unwrap().node;
    assert_eq!(node.attributes, attrs);
    assert_eq!(node.attributes.get("key"), Some(&serde_json::Value::String("value".to_string())));
    let plain = add(&mut service, "Without", NodeType::Fact);
    assert_eq!(plain.attributes, serde_json::Value::Object(serde_json::Map::new()));
}

#[test]
fn bulk_reports_node_ids_in_request_order() {
    let mut service = SyntonDbService::new();
    let request = BulkOperationRequest {
        nodes: vec![
            AddNodeRequest::new("first".to_string(), NodeType::Entity),
            AddNodeRequest::new("second".to_string(), NodeType::Fact),
            AddNodeRequest::new("third".to_string(), NodeType::Concept),
        ],
        edges: vec![],
    };
    let resp = service.bulk_operation(request);
    assert_eq!(resp.node_ids.len(), 3);
    let fetch = |id: u128| service.get_node(GetNodeRequest { id }).unwrap().node.unwrap();
    let contents: Vec<String> = resp.node_ids.iter().map(|id| fetch(*id).content.clone()).collect();
    assert_eq!(contents, vec!["first".to_string(), "second".to_string(), "third".to_string()]);
    assert_eq!(fetch(resp.node_ids[1]).node_type, NodeType::Fact);
}

#[test]
fn traversal_leaves_the_start_out_of_a_cycle() {
    let mut service = SyntonDbService::new();
    let a = add(&mut service, "Node A", NodeType::Entity);
    let b = add(&mut service, "Node B", NodeType::Entity);
    let c = add(&mut service, "Node C", NodeType::Entity);
    service.add_edge(edge(a.id, b.id, Relation::Causes)).unwrap();
    service.add_edge(edge(b.id, c.id, Relation::Causes)).unwrap();
    service.add_edge(edge(c.id, a.id, Relation::Causes)).unwrap();
    let result = service.traverse(traverse_request(a.id, 3, TraverseDirection::Forward)).unwrap();
    let ids: Vec<u128> = result.nodes.iter().map(|n| n.id).collect();
    assert_eq!(ids, vec![b.id, c.id]);
}

#[test]
fn test_grpc_codes() {
    assert_eq!(node_type_from_code(1), NodeType::Entity);
    assert_eq!(node_type_from_code(4), NodeType::RawChunk);
    assert_eq!(node_type_from_code(99), NodeType::Concept);
    assert_eq!(node_type_code(NodeType::Fact), 3);
    assert_eq!(relation_from_code(2), Relation::IsPartOf);
    assert_eq!(relation_from_code(0), Relation::SimilarTo);
    assert_eq!(relation_code(&Relation::LocatedAt), 7);
    assert_eq!(relation_code(&Relation::Custom("x".to_string())), 4);
    assert_eq!(direction_from_code(3), TraverseDirection::Both);
    assert_eq!(direction_from_code(9), TraverseDirection::Forward);
    assert_eq!(query_limit(0), None);
    assert_eq!(query_limit(7), Some(7));
}

#[test]
fn test_grpc_page() {
    let nodes: Vec<Node> = (0..5).map(|i| Node::new(&format!("{}", i), NodeType::Fact)).collect();
    let p = page(nodes.clone(), 1, 2);
    assert_eq!(p.iter().map(|n| n.content()).collect::<Vec<_>>(), vec!["1", "2"]);
    assert_eq!(page(nodes.clone(), 4, 10).len(), 1);
    assert!(page(nodes, 5, 3).is_empty());
}

#[test]
fn test_grpc_bulk_operation() {
    let mut grpc = GrpcService::new(SyntonDbService::new());
    let a = uuid::Uuid::new_v4();
    let decoded = decode_bulk(
        &vec![WireNodeRequest { content: "n".to_string(), node_type: 3 }],
        &vec![
            WireEdgeRequest { source: "bad".to_string(), target: a.to_string(), relation: 1 },
            WireEdgeRequest { source: a.to_string(), target: a.to_string(), relation: 6 },
        ],
    );
    assert_eq!(decoded.nodes[0].node_type, NodeType::Fact);
    // An edge whose ids do not read as UUIDs is passed over.
    assert_eq!(decoded.edges.len(), 1);
    assert_eq!(decoded.edges[0].relation, Relation::HappenedAfter);
    let resp = grpc.bulk_operation(
        &vec![WireNodeRequest { content: "hello".to_string(), node_type: 1 }],
        &vec![WireEdgeRequest { source: a.to_string(), target: a.to_string(), relation: 3 }],
    );
    assert_eq!(resp.node_ids.len(), 1);
    assert!(uuid::Uuid::parse_str(&resp.node_ids[0]).is_ok());
    assert_eq!(resp.success_count, 1);
    assert_eq!(resp.failure_count, 1);
}

// ========== Document ingestion ==========

#[test]
fn test_ingest_document_fixed() {
    let mut service = SyntonDbService::new();
    let request = IngestDocumentRequest {
        title: Some("Doc".to_string()),
        content: "abcdefghij".to_string(),
        chunking: Some(ChunkingStrategy::Fixed { chunk_size: 4, overlap: 0 }),
        embed: false,
    };
    let resp = service.ingest_document(request).unwrap();
    assert_eq!(resp.chunk_count, resp.chunks.len());
    assert!(resp.chunk_count >= 3);
    assert_eq!(resp.chunks[0].chunk_type, "Custom");
    let joined: String = resp.chunks.iter().map(|c| c.content.clone()).collect();
    assert_eq!(joined, "abcdefghij");
    assert!(!resp.embedded);
    // The document and its chunks join the table; the part-of edges join the graph.
    let all = service.all_nodes();
    assert_eq!(all.len(), 1 + resp.chunk_count);
    assert!(all.iter().any(|n| n.id == resp.document_id && n.content() == "Doc: abcdefghij"));
    assert_eq!(service.stats().unwrap().edge_count, resp.chunk_count);
}

#[test]
fn test_ingest_document_invalid_config() {
    let mut service = SyntonDbService::new();
    let request = IngestDocumentRequest {
        title: None,
        content: "text".to_string(),
        chunking: Some(ChunkingStrategy::Fixed { chunk_size: 0, overlap: 0 }),
        embed: true,
    };
    let err = service.ingest_document(request).unwrap_err();
    assert_eq!(err.to_string(), "Internal error: Invalid chunk size: chunk_size must be greater than 0");
    // The document node was recorded before chunking failed.
    let all = service.all_nodes();
    assert_eq!(all.len(), 1);
    assert_eq!(all[0].content(), "Untitled Document: text");
}

#[test]
fn test_ingest_document_default_semantic() {
    let mut service = SyntonDbService::new();
    let content = "Rust is a systems language. It is fast and safe. Many teams use it for servers. \
                   Gardening needs water and sun. Tomatoes grow well in summer."
        .to_string();
    let request = IngestDocumentRequest { title: Some("Notes".to_string()), content, chunking: None, embed: true };
    let resp = service.ingest_document(request).unwrap();
    assert!(resp.chunk_count >= 1);
    assert!(resp.chunks.iter().all(|c| c.chunk_type == "Paragraph"));
    assert!(resp.embedded);
}

#[test]
fn test_grpc_node_calls() {
    let mut grpc = GrpcService::new(SyntonDbService::new());
    assert_eq!(grpc.health().status, "healthy");
    let added = grpc.add_node("Paris is a city".to_string(), 1).unwrap();
    assert!(added.created);
    assert_eq!(added.node.content, "Paris is a city");
    assert_eq!(added.node.node_type, 1);
    // An unknown type code is a concept.
    let other = grpc.add_node("Rome".to_string(), 42).unwrap();
    assert_eq!(other.node.node_type, 2);

    let got = grpc.get_node(&added.node.id).unwrap().unwrap();
    assert_eq!(got, WireNode { id: added.node.id.clone(), content: "Paris is a city".to_string(), node_type: 1 });
    assert_eq!(grpc.get_node("not-a-uuid"), Err(GrpcStatus::InvalidArgument("Invalid UUID format".to_string())));
    assert_eq!(grpc.get_node(&uuid::Uuid::new_v4().to_string()), Ok(None));

    let page = grpc.list_nodes(1, 10);
    assert_eq!(page.total_count, 2);
    assert_eq!(page.nodes.len(), 1);
    assert_eq!(page.nodes[0].content, "Rome");
    assert_eq!(grpc.list_nodes(5, 10).nodes.len(), 0);
    assert_eq!(grpc.list_nodes(0, 1).nodes[0].content, "Paris is a city");

    let deleted = grpc.delete_node(&other.node.id).unwrap();
    assert!(deleted.deleted);
    assert_eq!(deleted.id, other.node.id);
    assert!(!grpc.delete_node(&other.node.id).unwrap().deleted);
    assert_eq!(grpc.list_nodes(0, 10).total_count, 1);
}

#[test]
fn test_grpc_edges_query_traverse_stats() {
    let mut grpc = GrpcService::new(SyntonDbService::new());
    let a = grpc.add_node("alpha node".to_string(), 2).unwrap().node.id;
    let b = grpc.add_node("beta node".to_string(), 3).unwrap().node.id;
    let e = grpc.add_edge(&a, &b, 3).unwrap();
    assert_eq!(e, WireEdge { source: a.clone(), target: b.clone(), relation: 3, expired: false, replaced_by: String::new() });
    assert_eq!(grpc.add_edge("x", &b, 1), Err(GrpcStatus::InvalidArgument("Invalid UUID format".to_string())));
    let missing = uuid::Uuid::new_v4().to_string();
    assert_eq!(
        grpc.add_edge(&missing, &b, 1),
        Err(GrpcStatus::Internal(format!("Node not found: {}", missing)))
    );
    assert_eq!(grpc.get_edges(&a).unwrap(), vec![e]);
    assert_eq!(grpc.get_edges(&b).unwrap(), vec![]);

    let found = grpc.query(&QueryNode::TextSearch { query: "BETA".to_string() }, 0).unwrap();
    assert_eq!(found.total_count, 1);
    assert_eq!(found.nodes[0].id, b);
    assert!(!found.truncated);
    let limited = grpc.query(&QueryNode::TextSearch { query: "node".to_string() }, 1).unwrap();
    assert_eq!(limited.nodes.len(), 1);

    let t = grpc.traverse(&a, 2, 10, 1).unwrap();
    assert_eq!(t.nodes.len(), 1);
    assert_eq!(t.nodes[0].id, b);
    assert_eq!(t.depth, 1);
    assert!(!t.truncated);
    let back = grpc.traverse(&b, 2, 10, 2).unwrap();
    assert_eq!(back.nodes[0].id, a);
    assert_eq!(back.edges.len(), 1);
    assert!(matches!(grpc.traverse(&missing, 2, 10, 1), Err(GrpcStatus::Internal(_))));

    let stats = grpc.stats().unwrap();
    assert_eq!(stats, WireStats { node_count: 2, edge_count: 1, embedded_count: 0 });
}

#[test]
fn test_grpc_wire_forms() {
    let mut edge = synton::edge::Edge::new(1, 2, Relation::LocatedAt);
    edge.replace_with(7);
    let w = edges_to_wire(&vec![edge]);
    assert_eq!(w[0].relation, 7);
    assert!(w[0].expired);
    assert_eq!(w[0].replaced_by, uuid::Uuid::from_u128(7).to_string());
    assert_eq!(w[0].source, "00000000-0000-0000-0000-000000000001");
    let n = Node::new("text", NodeType::RawChunk);
    let wn = nodes_to_wire(&vec![n.clone()]);
    assert_eq!(wn[0].node_type, 4);
    assert_eq!(wn[0].id, uuid::Uuid::from_u128(n.id).to_string());
}
