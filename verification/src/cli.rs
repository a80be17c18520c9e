//! Argument parsing and text helpers of the command-line client, and the
//! shapes of its commands and of the server's replies.

use vstd::prelude::*;
use crate::node_type::{NodeType, node_type_named};
use crate::relation::{Relation, RelationModel};
use crate::text::{cuttable, lowercase, push_char, str_eq, to_lower, trim_str, trimmed, truncated, utf8_len};

verus! {

broadcast use vstd::string::group_string_axioms;

/// Output format of the client.
#[derive(Debug, Clone, Copy, PartialEq, Eq)]
pub enum OutputFormat {
    /// Human-readable text.
    Text,
    /// JSON.
    Json,
}

impl OutputFormat {
    /// `json` (in any case) selects JSON; anything else plain text.
    pub fn from_str(s: &str) -> (r: OutputFormat)
        ensures
            r == (if lowercase(s@) == "json"@ { OutputFormat::Json } else { OutputFormat::Text }),
    {
        let lower = to_lower(s);
        if str_eq(lower.as_str(), "json") {
            OutputFormat::Json
        } else {
            OutputFormat::Text
        }
    }
}

/// Parses a node type name, ignoring case.
pub fn parse_node_type(s: &str) -> (r: Result<NodeType, String>)
    ensures
        r is Ok <==> node_type_named(lowercase(s@)) is Some,
        r matches Ok(t) ==> node_type_named(lowercase(s@)) == Some(t),
        r matches Err(e) ==> e@ == "Unknown node type: "@ + s@,
{
    NodeType::parse(s)
}

/// A text with each `-` replaced by `_`.
pub open spec fn dashes_to_underscores(s: Seq<char>) -> Seq<char> {
    s.map_values(|c: char| if c == '-' { '_' } else { c })
}

/// The relation that the client accepts under a name (after lower-casing
/// and turning dashes into underscores), if any.
pub open spec fn cli_relation_named(name: Seq<char>) -> Option<RelationModel> {
    if name == "is_a"@ {
        Some(RelationModel::IsA)
    } else if name == "is_part_of"@ {
        Some(RelationModel::IsPartOf)
    } else if name == "causes"@ {
        Some(RelationModel::Causes)
    } else if name == "similar_to"@ {
        Some(RelationModel::SimilarTo)
    } else if name == "contradicts"@ {
        Some(RelationModel::Contradicts)
    } else if name == "happened_after"@ {
        Some(RelationModel::HappenedAfter)
    } else if name == "belongs_to"@ {
        Some(RelationModel::BelongsTo)
    } else {
        None
    }
}

/// Replaces each `-` of a string by `_`.
fn underscored(s: &str) -> (r: String)
    ensures
        r@ == dashes_to_underscores(s@),
{
    let mut out = String::new();
    let mut i: usize = 0;
    let v = crate::text::chars_of(s);
    while i < v.len()
        invariant
            v@ == s@,
            i <= v@.len(),
            out@ == dashes_to_underscores(v@.take(i as int)),
        decreases v@.len() - i,
    {
        let c = v[i];
        let d = if c == '-' {
            '_'
        } else {
            c
        };
        push_char(&mut out, d);
        assert(dashes_to_underscores(v@.take(i + 1)) =~= dashes_to_underscores(v@.take(i as int)).push(d));
        i = i + 1;
    }
    assert(v@.take(v@.len() as int) =~= v@);
    out
}

/// Parses a relation name, ignoring case and taking `-` for `_`; only the
/// seven built-in relations other than `located_at` are accepted.
pub fn parse_relation(s: &str) -> (r: Result<Relation, String>)
    ensures
        r is Ok <==> cli_relation_named(dashes_to_underscores(lowercase(s@))) is Some,
        r matches Ok(rel) ==> cli_relation_named(dashes_to_underscores(lowercase(s@))) == Some(rel@),
        r matches Err(e) ==> e@ == "Unknown relation: "@ + s@,
{
    let lower = to_lower(s);
    let name = underscored(lower.as_str());
    let n = name.as_str();
    if str_eq(n, "is_a") {
        Ok(Relation::IsA)
    } else if str_eq(n, "is_part_of") {
        Ok(Relation::IsPartOf)
    } else if str_eq(n, "causes") {
        Ok(Relation::Causes)
    } else if str_eq(n, "similar_to") {
        Ok(Relation::SimilarTo)
    } else if str_eq(n, "contradicts") {
        Ok(Relation::Contradicts)
    } else if str_eq(n, "happened_after") {
        Ok(Relation::HappenedAfter)
    } else if str_eq(n, "belongs_to") {
        Ok(Relation::BelongsTo)
    } else {
        Err(String::from_str("Unknown relation: ").concat(s))
    }
}

/// A text shortened for display: unchanged when it fits in `max_len`
/// bytes, else its first `max_len - 3` bytes followed by `...`.
pub open spec fn shortened(s: Seq<char>, max_len: nat) -> Seq<char> {
    if utf8_len(s) <= max_len {
        s
    } else {
        truncated(s, max_len) + "..."@
    }
}

/// Shortens a text for display to about `max_len` bytes, marking a cut
/// with `...`.
pub fn truncate(s: &str, max_len: usize) -> (r: String)
    requires
        cuttable(s@, max_len as nat),
    ensures
        r@ == shortened(s@, max_len as nat),
{
    if s.len() <= max_len {
        String::from_str(s)
    } else {
        let head = crate::text::truncate(s, max_len);
        String::from_str(head).concat("...")
    }
}

/// A reply of the server with its HTTP status.
#[derive(Debug)]
pub struct ApiResponse<T> {
    /// The decoded reply.
    pub data: T,
    /// The HTTP status code.
    pub status: u16,
}

/// Health check reply.
#[derive(Debug, Clone, PartialEq, Eq)]
pub struct HealthResponse {
    /// Service status.
    pub status: String,
    /// Server version.
    pub version: String,
}

/// Statistics reply.
#[derive(Debug, Clone, Copy, PartialEq, Eq)]
pub struct StatsResponse {
    /// Number of nodes.
    pub node_count: u64,
    /// Number of edges.
    pub edge_count: u64,
    /// Number of nodes with embeddings.
    pub embedded_count: u64,
}

/// Node commands.
#[derive(Debug, Clone, PartialEq, Eq)]
pub enum NodeCommand {
    /// Create a node with the given content and type name.
    Create { content: String, node_type: String },
    /// Get a node by id.
    Get { id: String },
    /// Delete a node by id, unless confirmation is skipped.
    Delete { id: String, force: bool },
    /// List nodes, at most `limit` of them.
    List { limit: usize },
}

/// Query commands.
#[derive(Debug, Clone, PartialEq, Eq)]
pub enum QueryCommand {
    /// Execute a query, with an optional result limit.
    Execute { query: String, limit: Option<usize> },
}

/// Arguments of the statistics command.
#[derive(Debug, Clone, Copy, PartialEq, Eq)]
pub struct StatsCommand {
    /// Show detailed statistics.
    pub detailed: bool,
}

/// Arguments of the edge listing command.
#[derive(Debug, Clone, PartialEq, Eq)]
pub struct EdgeListCommand {
    /// Node id.
    pub id: String,
    /// Maximum number of edges to list.
    pub limit: usize,
}

/// An answer confirms when, trimmed and lower-cased, it starts with `y`.
pub open spec fn confirms(answer: Seq<char>) -> bool {
    let a = lowercase(trimmed(answer));
    a.len() > 0 && a[0] == 'y'
}

/// Whether an answer to "are you sure?" confirms.
pub fn confirmed(answer: &str) -> (r: bool)
    ensures
        r == confirms(answer@),
{
    let t = trim_str(answer);
    let lower = to_lower(t.as_str());
    let cs = crate::text::chars_of(lower.as_str());
    cs.len() > 0 && cs[0] == 'y'
}

/// The node an imported record asks for: its content (empty when it has
/// none) and its node type (a concept when it names none or an unknown
/// one).
pub fn import_record(content: Option<&str>, node_type: Option<&str>) -> (r: (String, NodeType))
    ensures
        r.0@ == (match content {
            Some(c) => c@,
            None => Seq::<char>::empty(),
        }),
        r.1 == (match node_type {
            Some(t) => match node_type_named(lowercase(t@)) {
                Some(k) => k,
                None => NodeType::Concept,
            },
            None => match node_type_named(lowercase("concept"@)) {
                Some(k) => k,
                None => NodeType::Concept,
            },
        }),
{
    let text = match content {
        Some(c) => String::from_str(c),
        None => String::new(),
    };
    let name = match node_type {
        Some(t) => t,
        None => "concept",
    };
    let kind = match parse_node_type(name) {
        Ok(k) => k,
        Err(_) => NodeType::Concept,
    };
    (text, kind)
}

/// The counts of an import so far.
#[derive(Debug, Clone, Copy, PartialEq, Eq)]
pub struct ImportTally {
    /// Records imported.
    pub success: usize,
    /// Records that failed.
    pub failed: usize,
}

/// What an import does after a record.
#[derive(Debug, Clone, Copy, PartialEq, Eq)]
pub enum ImportStep {
    /// Go on with the next record.
    Continue,
    /// Stop with the record's error.
    Stop,
}

impl ImportTally {
    /// No record imported yet.
    pub fn new() -> (r: ImportTally)
        ensures
            r == (ImportTally { success: 0, failed: 0 }),
    {
        ImportTally { success: 0, failed: 0 }
    }

    /// Counts a record: a created one is a success; a failed one is counted
    /// and stops the import unless errors are to be passed over.
    pub fn record(&mut self, created: bool, continue_on_error: bool) -> (r: ImportStep)
        requires
            old(self).success < usize::MAX,
            old(self).failed < usize::MAX,
        ensures
            created ==> final(self).success == old(self).success + 1 && final(self).failed == old(self).failed && r
                == ImportStep::Continue,
            !created ==> final(self).failed == old(self).failed + 1 && final(self).success == old(self).success,
            !created ==> r == (if continue_on_error { ImportStep::Continue } else { ImportStep::Stop }),
    {
        if created {
            self.success = self.success + 1;
            ImportStep::Continue
        } else {
            self.failed = self.failed + 1;
            if continue_on_error {
                ImportStep::Continue
            } else {
                ImportStep::Stop
            }
        }
    }
}

/// The label under which the client names a node type to the server (the
/// variant's name).
pub open spec fn node_type_label(t: NodeType) -> Seq<char> {
    match t {
        NodeType::Entity => "Entity"@,
        NodeType::Concept => "Concept"@,
        NodeType::Fact => "Fact"@,
        NodeType::RawChunk => "RawChunk"@,
    }
}

/// The label of a node type as the client sends it.
pub fn label_of_node_type(t: NodeType) -> (r: &'static str)
    ensures
        r@ == node_type_label(t),
{
    match t {
        NodeType::Entity => "Entity",
        NodeType::Concept => "Concept",
        NodeType::Fact => "Fact",
        NodeType::RawChunk => "RawChunk",
    }
}

/// The node type that the client reads from a label in a reply: the
/// variant so named, a concept for any other label.
pub open spec fn reply_node_type(label: Seq<char>) -> NodeType {
    if label == "Entity"@ {
        NodeType::Entity
    } else if label == "Fact"@ {
        NodeType::Fact
    } else if label == "RawChunk"@ {
        NodeType::RawChunk
    } else {
        NodeType::Concept
    }
}

/// Reads the node type of a node in a reply of the server.
pub fn node_type_from_label(label: &str) -> (r: NodeType)
    ensures
        r == reply_node_type(label@),
{
    if str_eq(label, "Entity") {
        NodeType::Entity
    } else if str_eq(label, "Fact") {
        NodeType::Fact
    } else if str_eq(label, "RawChunk") {
        NodeType::RawChunk
    } else {
        NodeType::Concept
    }
}

/// The relation that the client reads from a name in a reply: one of the
/// seven it knows, `similar_to` for any other name.
pub open spec fn reply_relation(name: Seq<char>) -> RelationModel {
    match cli_relation_named(name) {
        Some(r) => r,
        None => RelationModel::SimilarTo,
    }
}

/// Reads the relation of an edge in a reply of the server.
pub fn relation_from_label(name: &str) -> (r: Relation)
    ensures
        r@ == reply_relation(name@),
{
    if str_eq(name, "is_a") {
        Relation::IsA
    } else if str_eq(name, "is_part_of") {
        Relation::IsPartOf
    } else if str_eq(name, "causes") {
        Relation::Causes
    } else if str_eq(name, "similar_to") {
        Relation::SimilarTo
    } else if str_eq(name, "contradicts") {
        Relation::Contradicts
    } else if str_eq(name, "happened_after") {
        Relation::HappenedAfter
    } else if str_eq(name, "belongs_to") {
        Relation::BelongsTo
    } else {
        Relation::SimilarTo
    }
}

/// Whether the client can export or import in a format: only `json`.
pub fn transfer_format_supported(format_name: &str) -> (r: bool)
    ensures
        r == (format_name@ == "json"@),
{
    str_eq(format_name, "json")
}

} // verus!
