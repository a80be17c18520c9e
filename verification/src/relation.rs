//! Relations between nodes of the tensor-graph.

use vstd::prelude::*;
use crate::text::{lowercase, to_lower, str_eq};

verus! {

/// Relation type between nodes; relations carry the semantics that graph
/// reasoning and traversal follow.
#[derive(Debug, PartialEq, Eq, Hash)]
pub enum Relation {
    /// Composition: A is part of B.
    IsPartOf,
    /// Causality: A causes B.
    Causes,
    /// Contradiction: A contradicts B.
    Contradicts,
    /// Temporal: A happened after B.
    HappenedAfter,
    /// Similarity: A is similar to B.
    SimilarTo,
    /// Taxonomy: A is a kind of B.
    IsA,
    /// Location: A is located at B.
    LocatedAt,
    /// Belonging: A belongs to B.
    BelongsTo,
    /// Custom relation with its identifier.
    Custom(String),
}

/// The mathematical value of a relation: its variant, and the chars of a
/// custom identifier.
pub ghost enum RelationModel {
    IsPartOf,
    Causes,
    Contradicts,
    HappenedAfter,
    SimilarTo,
    IsA,
    LocatedAt,
    BelongsTo,
    Custom(Seq<char>),
}

impl View for Relation {
    type V = RelationModel;

    open spec fn view(&self) -> RelationModel {
        match self {
            Relation::IsPartOf => RelationModel::IsPartOf,
            Relation::Causes => RelationModel::Causes,
            Relation::Contradicts => RelationModel::Contradicts,
            Relation::HappenedAfter => RelationModel::HappenedAfter,
            Relation::SimilarTo => RelationModel::SimilarTo,
            Relation::IsA => RelationModel::IsA,
            Relation::LocatedAt => RelationModel::LocatedAt,
            Relation::BelongsTo => RelationModel::BelongsTo,
            Relation::Custom(s) => RelationModel::Custom(s@),
        }
    }
}

/// The name under which a relation is written.
pub open spec fn relation_name(r: RelationModel) -> Seq<char> {
    match r {
        RelationModel::IsPartOf => "is_part_of"@,
        RelationModel::Causes => "causes"@,
        RelationModel::Contradicts => "contradicts"@,
        RelationModel::HappenedAfter => "happened_after"@,
        RelationModel::SimilarTo => "similar_to"@,
        RelationModel::IsA => "is_a"@,
        RelationModel::LocatedAt => "located_at"@,
        RelationModel::BelongsTo => "belongs_to"@,
        RelationModel::Custom(s) => s,
    }
}

/// The relation read from an already lower-cased name: a standard relation
/// when the name is one of theirs, a custom one holding the name otherwise.
pub open spec fn relation_from_name(name: Seq<char>) -> RelationModel {
    if name == "is_part_of"@ {
        RelationModel::IsPartOf
    } else if name == "causes"@ {
        RelationModel::Causes
    } else if name == "contradicts"@ {
        RelationModel::Contradicts
    } else if name == "happened_after"@ {
        RelationModel::HappenedAfter
    } else if name == "similar_to"@ {
        RelationModel::SimilarTo
    } else if name == "is_a"@ {
        RelationModel::IsA
    } else if name == "located_at"@ {
        RelationModel::LocatedAt
    } else if name == "belongs_to"@ {
        RelationModel::BelongsTo
    } else {
        RelationModel::Custom(name)
    }
}

/// The reverse of a relation, read from the target back to the source.
pub open spec fn reverse_relation(r: RelationModel) -> RelationModel {
    match r {
        RelationModel::IsPartOf => RelationModel::BelongsTo,
        RelationModel::BelongsTo => RelationModel::IsPartOf,
        RelationModel::Causes => RelationModel::Custom("caused_by"@),
        RelationModel::HappenedAfter => RelationModel::Custom("happened_before"@),
        RelationModel::LocatedAt => RelationModel::Custom("contains"@),
        RelationModel::IsA => RelationModel::Custom("has_instance"@),
        RelationModel::SimilarTo => RelationModel::SimilarTo,
        RelationModel::Contradicts => RelationModel::SimilarTo,
        RelationModel::Custom(s) => RelationModel::Custom("reverse_"@ + s),
    }
}

/// Transitive relations: chains of them imply the relation end to end.
pub open spec fn is_transitive_relation(r: RelationModel) -> bool {
    r is IsPartOf || r is IsA || r is Causes || r is LocatedAt
}

/// Symmetric relations: they hold in both directions.
pub open spec fn is_symmetric_relation(r: RelationModel) -> bool {
    r is SimilarTo || r is Contradicts
}

impl Clone for Relation {
    fn clone(&self) -> (r: Relation)
        ensures
            r == *self,
    {
        match self {
            Relation::IsPartOf => Relation::IsPartOf,
            Relation::Causes => Relation::Causes,
            Relation::Contradicts => Relation::Contradicts,
            Relation::HappenedAfter => Relation::HappenedAfter,
            Relation::SimilarTo => Relation::SimilarTo,
            Relation::IsA => Relation::IsA,
            Relation::LocatedAt => Relation::LocatedAt,
            Relation::BelongsTo => Relation::BelongsTo,
            Relation::Custom(s) => Relation::Custom(s.clone()),
        }
    }
}

impl Relation {
    /// The reverse relation.
    pub fn reverse(&self) -> (r: Relation)
        ensures
            r@ == reverse_relation(self@),
    {
        match self {
            Relation::IsPartOf => Relation::BelongsTo,
            Relation::BelongsTo => Relation::IsPartOf,
            Relation::Causes => Relation::Custom(String::from_str("caused_by")),
            Relation::HappenedAfter => Relation::Custom(String::from_str("happened_before")),
            Relation::LocatedAt => Relation::Custom(String::from_str("contains")),
            Relation::IsA => Relation::Custom(String::from_str("has_instance")),
            Relation::SimilarTo | Relation::Contradicts => Relation::SimilarTo,
            Relation::Custom(s) => {
                let prefix = String::from_str("reverse_");
                Relation::Custom(prefix.concat(s.as_str()))
            },
        }
    }

    /// Whether two relations are the same: the same variant, and for custom
    /// relations the same identifier.
    pub fn same_as(&self, other: &Relation) -> (r: bool)
        ensures
            r == (self@ == other@),
    {
        match (self, other) {
            (Relation::IsPartOf, Relation::IsPartOf) => true,
            (Relation::Causes, Relation::Causes) => true,
            (Relation::Contradicts, Relation::Contradicts) => true,
            (Relation::HappenedAfter, Relation::HappenedAfter) => true,
            (Relation::SimilarTo, Relation::SimilarTo) => true,
            (Relation::IsA, Relation::IsA) => true,
            (Relation::LocatedAt, Relation::LocatedAt) => true,
            (Relation::BelongsTo, Relation::BelongsTo) => true,
            (Relation::Custom(a), Relation::Custom(b)) => str_eq(a.as_str(), b.as_str()),
            _ => false,
        }
    }

    /// Whether this relation is transitive.
    pub fn is_transitive(&self) -> (r: bool)
        ensures
            r == is_transitive_relation(self@),
    {
        match self {
            Relation::IsPartOf | Relation::IsA | Relation::Causes | Relation::LocatedAt => true,
            _ => false,
        }
    }

    /// Whether this relation is symmetric.
    pub fn is_symmetric(&self) -> (r: bool)
        ensures
            r == is_symmetric_relation(self@),
    {
        match self {
            Relation::SimilarTo | Relation::Contradicts => true,
            _ => false,
        }
    }

    /// Whether this relation is directional (not symmetric).
    pub fn is_directional(&self) -> (r: bool)
        ensures
            r == !is_symmetric_relation(self@),
    {
        !self.is_symmetric()
    }

    /// The display form of this relation: its name.
    pub fn to_string(&self) -> (r: String)
        ensures
            r@ == relation_name(self@),
    {
        match self {
            Relation::IsPartOf => String::from_str("is_part_of"),
            Relation::Causes => String::from_str("causes"),
            Relation::Contradicts => String::from_str("contradicts"),
            Relation::HappenedAfter => String::from_str("happened_after"),
            Relation::SimilarTo => String::from_str("similar_to"),
            Relation::IsA => String::from_str("is_a"),
            Relation::LocatedAt => String::from_str("located_at"),
            Relation::BelongsTo => String::from_str("belongs_to"),
            Relation::Custom(s) => s.clone(),
        }
    }

    /// Reads a relation from its name, ignoring case; a name that is not a
    /// standard relation becomes a custom relation holding the lower-cased name.
    pub fn parse(s: &str) -> (r: Relation)
        ensures
            r@ == relation_from_name(lowercase(s@)),
    {
        let lower = to_lower(s);
        let l = lower.as_str();
        if str_eq(l, "is_part_of") {
            Relation::IsPartOf
        } else if str_eq(l, "causes") {
            Relation::Causes
        } else if str_eq(l, "contradicts") {
            Relation::Contradicts
        } else if str_eq(l, "happened_after") {
            Relation::HappenedAfter
        } else if str_eq(l, "similar_to") {
            Relation::SimilarTo
        } else if str_eq(l, "is_a") {
            Relation::IsA
        } else if str_eq(l, "located_at") {
            Relation::LocatedAt
        } else if str_eq(l, "belongs_to") {
            Relation::BelongsTo
        } else {
            Relation::Custom(lower)
        }
    }
}

/// Error when parsing a relation string; parsing never fails, so it is
/// never built by the parser.
#[derive(Debug, Clone, PartialEq, Eq)]
pub struct RelationParseError;

impl RelationParseError {
    /// The display form of the error.
    pub fn to_string(&self) -> (r: String)
        ensures
            r@ == "Failed to parse relation"@,
    {
        String::from_str("Failed to parse relation")
    }
}

impl std::str::FromStr for Relation {
    type Err = RelationParseError;

    fn from_str(s: &str) -> (r: Result<Relation, RelationParseError>)
        ensures
            r matches Ok(rel) && rel@ == relation_from_name(lowercase(s@)),
    {
        Ok(Relation::parse(s))
    }
}

} // verus!
