//! RDF terms and SPARQL variables.
use vstd::prelude::*;

verus! {

/// An IRI.
#[derive(Debug)]
pub struct NamedNode {
    pub iri: String,
}

impl View for NamedNode {
    type V = Seq<char>;

    open spec fn view(&self) -> Seq<char> {
        self.iri@
    }
}

/// A blank node, by its identifier.
#[derive(Debug)]
pub struct BlankNode {
    pub id: u128,
}

/// A literal, by its lexical form.
#[derive(Debug)]
pub enum Literal {
    Simple { value: String },
    LanguageTagged { value: String, language: String },
    Typed { value: String, datatype: NamedNode },
}

/// An RDF term.
#[derive(Debug)]
pub enum Term {
    NamedNode(NamedNode),
    BlankNode(BlankNode),
    Literal(Literal),
}

/// A variable of a query: one the query names, or one that stands for a blank node or was made
/// up while the query was read.
#[derive(Debug)]
pub enum Variable {
    Named { name: String },
    Unnamed { id: u128 },
}

/// What tells a variable from another one.
pub enum Name {
    Named(Seq<char>),
    Unnamed(u128),
}

impl View for Variable {
    type V = Name;

    open spec fn view(&self) -> Name {
        match self {
            Variable::Named { name } => Name::Named(name@),
            Variable::Unnamed { id } => Name::Unnamed(*id),
        }
    }
}

impl Variable {
    /// Whether the query gives the variable a name.
    pub fn has_name(&self) -> (named: bool)
        ensures
            named == (self@ is Named),
    {
        match self {
            Variable::Named { .. } => true,
            Variable::Unnamed { .. } => false,
        }
    }
}

impl Clone for Variable {
    fn clone(&self) -> (copy: Variable)
        ensures
            copy@ == self@,
    {
        match self {
            Variable::Named { name } => Variable::Named { name: name.clone() },
            Variable::Unnamed { id } => Variable::Unnamed { id: *id },
        }
    }
}

impl PartialEq for Variable {
    fn eq(&self, other: &Variable) -> (same: bool) {
        match (self, other) {
            (Variable::Named { name: a }, Variable::Named { name: b }) => *a == *b,
            (Variable::Unnamed { id: a }, Variable::Unnamed { id: b }) => *a == *b,
            _ => false,
        }
    }
}

impl vstd::std_specs::cmp::PartialEqSpecImpl for Variable {
    open spec fn obeys_eq_spec() -> bool {
        true
    }

    open spec fn eq_spec(&self, other: &Variable) -> bool {
        self@ == other@
    }
}

impl Eq for Variable {

}

/// The names of a list of variables.
pub open spec fn names(variables: Seq<Variable>) -> Seq<Name> {
    Seq::new(variables.len(), |i: int| variables[i]@)
}

/// A copy of a list of variables.
pub fn copy_variables(variables: &Vec<Variable>) -> (copy: Vec<Variable>)
    ensures
        names(copy@) == names(variables@),
{
    let mut copy: Vec<Variable> = Vec::new();
    for i in 0..variables.len()
        invariant
            copy@.len() == i,
            forall|j: int| 0 <= j < i ==> (#[trigger] copy@[j])@ == variables@[j]@,
    {
        copy.push(variables[i].clone());
    }
    assert(names(copy@) =~= names(variables@));
    copy
}

} // verus!
