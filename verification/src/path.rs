//! Reasoning paths: chains of nodes joined by edges.

use vstd::prelude::*;
use crate::edge::Edge;
use crate::node::Node;
use crate::text::{decimal, usize_to_string};

verus! {

/// Type of reasoning a path represents.
#[derive(Debug, Clone, Copy, PartialEq, Eq, Hash)]
pub enum PathType {
    /// Causal chain (A causes B causes C).
    Causal,
    /// Hierarchical structure (A is part of B is part of C).
    Hierarchical,
    /// Temporal sequence.
    Temporal,
    /// Associative chain.
    Associative,
    /// Mixed path with several relation types.
    Hybrid,
}

impl PathType {
    /// The display form of this path type.
    pub fn to_string(&self) -> (r: String)
        ensures
            *self is Causal ==> r@ == "causal"@,
            *self is Hierarchical ==> r@ == "hierarchical"@,
            *self is Temporal ==> r@ == "temporal"@,
            *self is Associative ==> r@ == "associative"@,
            *self is Hybrid ==> r@ == "hybrid"@,
    {
        match self {
            PathType::Causal => String::from_str("causal"),
            PathType::Hierarchical => String::from_str("hierarchical"),
            PathType::Temporal => String::from_str("temporal"),
            PathType::Associative => String::from_str("associative"),
            PathType::Hybrid => String::from_str("hybrid"),
        }
    }
}

/// A reasoning path resulting from graph traversal: nodes in order, the
/// edges joining them, an explanation and the kind of reasoning. The
/// confidence score of a path, a floating-point value, is kept beside it by
/// the services.
#[derive(Debug, Clone)]
pub struct ReasoningPath {
    /// Nodes in the path, in order.
    pub nodes: Vec<Node>,
    /// Edges connecting the nodes.
    pub edges: Vec<Edge>,
    /// Natural language explanation of the path.
    pub explanation: String,
    /// Type of reasoning this path represents.
    pub path_type: PathType,
}

impl ReasoningPath {
    /// An empty associative path.
    pub fn new() -> (r: ReasoningPath)
        ensures
            r.nodes@.len() == 0,
            r.edges@.len() == 0,
            r.explanation@.len() == 0,
            r.path_type == PathType::Associative,
    {
        ReasoningPath { nodes: Vec::new(), edges: Vec::new(), explanation: String::new(), path_type: PathType::Associative }
    }

    /// A hybrid path made of the given nodes and edges.
    pub fn from_components(nodes: Vec<Node>, edges: Vec<Edge>) -> (r: ReasoningPath)
        ensures
            r.nodes == nodes,
            r.edges == edges,
            r.explanation@.len() == 0,
            r.path_type == PathType::Hybrid,
    {
        ReasoningPath { nodes, edges, explanation: String::new(), path_type: PathType::Hybrid }
    }

    /// The first node of the path.
    pub fn start(&self) -> (r: Option<&Node>)
        ensures
            self.nodes@.len() == 0 ==> r is None,
            self.nodes@.len() > 0 ==> r == Some(&self.nodes@[0]),
    {
        if self.nodes.len() == 0 {
            None
        } else {
            Some(&self.nodes[0])
        }
    }

    /// The last node of the path.
    pub fn end(&self) -> (r: Option<&Node>)
        ensures
            self.nodes@.len() == 0 ==> r is None,
            self.nodes@.len() > 0 ==> r == Some(&self.nodes@.last()),
    {
        if self.nodes.len() == 0 {
            None
        } else {
            Some(&self.nodes[self.nodes.len() - 1])
        }
    }

    /// The number of nodes.
    pub fn len(&self) -> (r: usize)
        ensures
            r == self.nodes@.len(),
    {
        self.nodes.len()
    }

    /// Whether the path has no node.
    pub fn is_empty(&self) -> (r: bool)
        ensures
            r == (self.nodes@.len() == 0),
    {
        self.nodes.len() == 0
    }

    /// The number of hops (edges).
    pub fn hops(&self) -> (r: usize)
        ensures
            r == self.edges@.len(),
    {
        self.edges.len()
    }

    /// Sets the path type.
    pub fn with_path_type(self, path_type: PathType) -> (r: ReasoningPath)
        ensures
            r == (ReasoningPath { path_type, ..self }),
    {
        ReasoningPath { path_type, ..self }
    }

    /// Sets the explanation.
    pub fn with_explanation(self, explanation: String) -> (r: ReasoningPath)
        ensures
            r == (ReasoningPath { explanation, ..self }),
    {
        ReasoningPath { explanation, ..self }
    }
}

impl Default for ReasoningPath {
    fn default() -> (r: ReasoningPath)
        ensures
            r.nodes@.len() == 0,
            r.edges@.len() == 0,
            r.path_type == PathType::Associative,
    {
        ReasoningPath::new()
    }
}

/// Error when building a path.
#[derive(Debug, Clone, PartialEq)]
pub enum PathBuildError {
    /// The edge count does not match the node count.
    EdgeNodeMismatch { nodes: usize, edges: usize },
}

/// A path of `nodes` nodes is well formed with `edges` edges: an empty path
/// is always accepted, otherwise there is one edge fewer than nodes.
pub open spec fn path_shape_ok(nodes: nat, edges: nat) -> bool {
    nodes == 0 || edges + 1 == nodes
}

impl PathBuildError {
    /// The message of this error.
    pub fn to_string(&self) -> (r: String)
        ensures
            self matches PathBuildError::EdgeNodeMismatch { nodes, edges } && r@ == "Path has "@
                + decimal(nodes as nat) + " nodes but "@ + decimal(edges as nat) + " edges (expected "@
                + decimal(if nodes > 0 { (nodes - 1) as nat } else { 0 }) + " edges)"@,
    {
        match self {
            PathBuildError::EdgeNodeMismatch { nodes, edges } => {
                let expected = if *nodes > 0 {
                    *nodes - 1
                } else {
                    0
                };
                let a = usize_to_string(*nodes);
                let b = usize_to_string(*edges);
                let c = usize_to_string(expected);
                String::from_str("Path has ").concat(a.as_str()).concat(" nodes but ").concat(b.as_str()).concat(
                    " edges (expected ",
                ).concat(c.as_str()).concat(" edges)")
            },
        }
    }
}

/// Builder for reasoning paths.
#[derive(Debug, Clone)]
pub struct PathBuilder {
    path: ReasoningPath,
}

impl PathBuilder {
    /// The path built so far.
    pub closed spec fn current(&self) -> ReasoningPath {
        self.path
    }

    /// A builder holding an empty path.
    pub fn new() -> (b: PathBuilder)
        ensures
            b.current().nodes@.len() == 0,
            b.current().edges@.len() == 0,
            b.current().explanation@.len() == 0,
            b.current().path_type == PathType::Associative,
    {
        PathBuilder { path: ReasoningPath::new() }
    }

    /// Appends a node.
    pub fn add_node(self, node: Node) -> (b: PathBuilder)
        ensures
            b.current().nodes@ == self.current().nodes@.push(node),
            b.current().edges == self.current().edges,
            b.current().explanation == self.current().explanation,
            b.current().path_type == self.current().path_type,
    {
        let mut p = self.path;
        p.nodes.push(node);
        PathBuilder { path: p }
    }

    /// Appends nodes in order.
    pub fn add_nodes(self, nodes: Vec<Node>) -> (b: PathBuilder)
        ensures
            b.current().nodes@ == self.current().nodes@ + nodes@,
            b.current().edges == self.current().edges,
            b.current().explanation == self.current().explanation,
            b.current().path_type == self.current().path_type,
    {
        let mut p = self.path;
        let mut more = nodes;
        p.nodes.append(&mut more);
        PathBuilder { path: p }
    }

    /// Appends an edge.
    pub fn add_edge(self, edge: Edge) -> (b: PathBuilder)
        ensures
            b.current().edges@ == self.current().edges@.push(edge),
            b.current().nodes == self.current().nodes,
            b.current().explanation == self.current().explanation,
            b.current().path_type == self.current().path_type,
    {
        let mut p = self.path;
        p.edges.push(edge);
        PathBuilder { path: p }
    }

    /// Appends edges in order.
    pub fn add_edges(self, edges: Vec<Edge>) -> (b: PathBuilder)
        ensures
            b.current().edges@ == self.current().edges@ + edges@,
            b.current().nodes == self.current().nodes,
            b.current().explanation == self.current().explanation,
            b.current().path_type == self.current().path_type,
    {
        let mut p = self.path;
        let mut more = edges;
        p.edges.append(&mut more);
        PathBuilder { path: p }
    }

    /// Sets the explanation.
    pub fn explanation(self, explanation: String) -> (b: PathBuilder)
        ensures
            b.current() == (ReasoningPath { explanation, ..self.current() }),
    {
        PathBuilder { path: ReasoningPath { explanation, ..self.path } }
    }

    /// Sets the path type.
    pub fn path_type(self, path_type: PathType) -> (b: PathBuilder)
        ensures
            b.current() == (ReasoningPath { path_type, ..self.current() }),
    {
        PathBuilder { path: ReasoningPath { path_type, ..self.path } }
    }

    /// The path, when its edges join its nodes: a non-empty path needs one
    /// edge fewer than nodes.
    pub fn build(self) -> (r: Result<ReasoningPath, PathBuildError>)
        ensures
            path_shape_ok(self.current().nodes@.len(), self.current().edges@.len()) ==> r == Ok::<
                ReasoningPath,
                PathBuildError,
            >(self.current()),
            !path_shape_ok(self.current().nodes@.len(), self.current().edges@.len()) ==> r == Err::<
                ReasoningPath,
                PathBuildError,
            >(
                PathBuildError::EdgeNodeMismatch {
                    nodes: self.current().nodes@.len() as usize,
                    edges: self.current().edges@.len() as usize,
                },
            ),
    {
        let n = self.path.nodes.len();
        let e = self.path.edges.len();
        if n != 0 && e != (if n > 0 { n - 1 } else { 0 }) {
            return Err(PathBuildError::EdgeNodeMismatch { nodes: n, edges: e });
        }
        Ok(self.path)
    }
}

impl Default for PathBuilder {
    fn default() -> (b: PathBuilder)
        ensures
            b.current().nodes@.len() == 0,
            b.current().edges@.len() == 0,
    {
        PathBuilder::new()
    }
}

} // verus!
