//! The XML Schema datatypes that name a cast.
use crate::model::NamedNode;
use vstd::prelude::*;

verus! {

/// A datatype that a value can be cast to by calling the datatype's IRI as a function.
#[derive(Clone, Copy, Debug, PartialEq, Eq, Structural)]
pub enum CastTarget {
    Boolean,
    Double,
    Float,
    Decimal,
    Integer,
    Date,
    Time,
    DateTime,
    String,
}

impl CastTarget {
    /// The datatype's local name.
    pub open spec fn local_name(self) -> Seq<char> {
        match self {
            CastTarget::Boolean => "boolean"@,
            CastTarget::Double => "double"@,
            CastTarget::Float => "float"@,
            CastTarget::Decimal => "decimal"@,
            CastTarget::Integer => "integer"@,
            CastTarget::Date => "date"@,
            CastTarget::Time => "time"@,
            CastTarget::DateTime => "dateTime"@,
            CastTarget::String => "string"@,
        }
    }

    /// The datatype's local name.
    pub fn name(&self) -> (name: &'static str)
        ensures
            name@ == self.local_name(),
    {
        match self {
            CastTarget::Boolean => "boolean",
            CastTarget::Double => "double",
            CastTarget::Float => "float",
            CastTarget::Decimal => "decimal",
            CastTarget::Integer => "integer",
            CastTarget::Date => "date",
            CastTarget::Time => "time",
            CastTarget::DateTime => "dateTime",
            CastTarget::String => "string",
        }
    }
}

/// The datatype that an IRI names, where it is one of the cast targets.
pub open spec fn cast_target_of(iri: Seq<char>) -> Option<CastTarget> {
    if iri == "http://www.w3.org/2001/XMLSchema#boolean"@ {
        Some(CastTarget::Boolean)
    } else if iri == "http://www.w3.org/2001/XMLSchema#double"@ {
        Some(CastTarget::Double)
    } else if iri == "http://www.w3.org/2001/XMLSchema#float"@ {
        Some(CastTarget::Float)
    } else if iri == "http://www.w3.org/2001/XMLSchema#decimal"@ {
        Some(CastTarget::Decimal)
    } else if iri == "http://www.w3.org/2001/XMLSchema#integer"@ {
        Some(CastTarget::Integer)
    } else if iri == "http://www.w3.org/2001/XMLSchema#date"@ {
        Some(CastTarget::Date)
    } else if iri == "http://www.w3.org/2001/XMLSchema#time"@ {
        Some(CastTarget::Time)
    } else if iri == "http://www.w3.org/2001/XMLSchema#dateTime"@ {
        Some(CastTarget::DateTime)
    } else if iri == "http://www.w3.org/2001/XMLSchema#string"@ {
        Some(CastTarget::String)
    } else {
        None
    }
}

/// Whether an IRI is the one spelled out.
pub fn is_iri(node: &NamedNode, iri: &str) -> (same: bool)
    ensures
        same == (node@ == iri@),
{
    node.iri == iri.to_owned()
}

/// The datatype that an IRI names, where it is one of the cast targets.
pub fn cast_target(name: &NamedNode) -> (target: Option<CastTarget>)
    ensures
        target == cast_target_of(name@),
{
    if is_iri(name, "http://www.w3.org/2001/XMLSchema#boolean") {
        Some(CastTarget::Boolean)
    } else if is_iri(name, "http://www.w3.org/2001/XMLSchema#double") {
        Some(CastTarget::Double)
    } else if is_iri(name, "http://www.w3.org/2001/XMLSchema#float") {
        Some(CastTarget::Float)
    } else if is_iri(name, "http://www.w3.org/2001/XMLSchema#decimal") {
        Some(CastTarget::Decimal)
    } else if is_iri(name, "http://www.w3.org/2001/XMLSchema#integer") {
        Some(CastTarget::Integer)
    } else if is_iri(name, "http://www.w3.org/2001/XMLSchema#date") {
        Some(CastTarget::Date)
    } else if is_iri(name, "http://www.w3.org/2001/XMLSchema#time") {
        Some(CastTarget::Time)
    } else if is_iri(name, "http://www.w3.org/2001/XMLSchema#dateTime") {
        Some(CastTarget::DateTime)
    } else if is_iri(name, "http://www.w3.org/2001/XMLSchema#string") {
        Some(CastTarget::String)
    } else {
        None
    }
}

} // verus!
