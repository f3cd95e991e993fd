//! The SPARQL algebra: what a query says.
use crate::model::{Literal, NamedNode, Term, Variable};
use crate::xsd::is_iri;
use vstd::prelude::*;

verus! {

/// The subject or the object of a triple pattern.
#[derive(Debug)]
pub enum TermOrVariable {
    Term(Term),
    Variable(Variable),
}

/// The predicate of a triple pattern, or the name of a graph.
#[derive(Debug)]
pub enum NamedNodeOrVariable {
    NamedNode(NamedNode),
    Variable(Variable),
}

/// A triple with variables.
#[derive(Debug)]
pub struct TriplePattern {
    pub subject: TermOrVariable,
    pub predicate: NamedNodeOrVariable,
    pub object: TermOrVariable,
}

/// A path of predicates.
#[derive(Debug)]
pub enum PropertyPath {
    Predicate(NamedNode),
    Inverse(Box<PropertyPath>),
    Sequence(Box<PropertyPath>, Box<PropertyPath>),
    Alternative(Box<PropertyPath>, Box<PropertyPath>),
    ZeroOrMore(Box<PropertyPath>),
    OneOrMore(Box<PropertyPath>),
    ZeroOrOne(Box<PropertyPath>),
    NegatedSet(Vec<NamedNode>),
}

/// Two ends that a path of predicates connects.
#[derive(Debug)]
pub struct PathPattern {
    pub subject: TermOrVariable,
    pub path: PropertyPath,
    pub object: TermOrVariable,
}

/// A member of a basic graph pattern.
#[derive(Debug)]
pub enum TripleOrPathPattern {
    Triple(TriplePattern),
    Path(PathPattern),
}

impl TripleOrPathPattern {
    pub open spec fn subject_of(self) -> TermOrVariable {
        match self {
            TripleOrPathPattern::Triple(t) => t.subject,
            TripleOrPathPattern::Path(p) => p.subject,
        }
    }

    pub open spec fn object_of(self) -> TermOrVariable {
        match self {
            TripleOrPathPattern::Triple(t) => t.object,
            TripleOrPathPattern::Path(p) => p.object,
        }
    }

    pub fn subject(&self) -> (subject: &TermOrVariable)
        ensures
            *subject == self.subject_of(),
    {
        match self {
            TripleOrPathPattern::Triple(t) => &t.subject,
            TripleOrPathPattern::Path(p) => &p.subject,
        }
    }

    pub fn object(&self) -> (object: &TermOrVariable)
        ensures
            *object == self.object_of(),
    {
        match self {
            TripleOrPathPattern::Triple(t) => &t.object,
            TripleOrPathPattern::Path(p) => &p.object,
        }
    }
}

/// A table of solutions that the query spells out. `None` leaves a variable unbound.
#[derive(Debug)]
pub struct StaticBindings {
    pub variables: Vec<Variable>,
    pub values: Vec<Vec<Option<Term>>>,
}

/// A function that an expression calls.
#[derive(Debug)]
pub enum Function {
    Str,
    Lang,
    LangMatches,
    Datatype,
    IRI,
    BNode,
    Rand,
    Abs,
    Ceil,
    Floor,
    Round,
    Concat,
    SubStr,
    StrLen,
    Replace,
    UCase,
    LCase,
    EncodeForURI,
    Contains,
    StrStarts,
    StrEnds,
    StrBefore,
    StrAfter,
    Year,
    Month,
    Day,
    Hours,
    Minutes,
    Seconds,
    Timezone,
    Tz,
    Now,
    UUID,
    StrUUID,
    MD5,
    SHA1,
    SHA256,
    SHA384,
    SHA512,
    Coalesce,
    If,
    StrLang,
    StrDT,
    SameTerm,
    IsIRI,
    IsBlank,
    IsLiteral,
    IsNumeric,
    Regex,
    Custom(NamedNode),
}

/// An expression over a solution.
#[derive(Debug)]
pub enum Expression {
    Constant(TermOrVariable),
    Or(Box<Expression>, Box<Expression>),
    And(Box<Expression>, Box<Expression>),
    Equal(Box<Expression>, Box<Expression>),
    NotEqual(Box<Expression>, Box<Expression>),
    Greater(Box<Expression>, Box<Expression>),
    GreaterOrEq(Box<Expression>, Box<Expression>),
    Lower(Box<Expression>, Box<Expression>),
    LowerOrEq(Box<Expression>, Box<Expression>),
    In(Box<Expression>, Vec<Expression>),
    NotIn(Box<Expression>, Vec<Expression>),
    Add(Box<Expression>, Box<Expression>),
    Sub(Box<Expression>, Box<Expression>),
    Mul(Box<Expression>, Box<Expression>),
    Div(Box<Expression>, Box<Expression>),
    UnaryPlus(Box<Expression>),
    UnaryMinus(Box<Expression>),
    UnaryNot(Box<Expression>),
    FunctionCall(Function, Vec<Expression>),
    Bound(Variable),
    Exists(Box<GraphPattern>),
}

/// A key that solutions are sorted by.
#[derive(Debug)]
pub enum OrderComparator {
    Asc(Expression),
    Desc(Expression),
}

/// What solutions are grouped by, and the pattern whose solutions they are.
#[derive(Debug)]
pub struct GroupPattern(pub Vec<Expression>, pub Box<GraphPattern>);

/// A query's pattern.
#[derive(Debug)]
pub enum GraphPattern {
    BGP(Vec<TripleOrPathPattern>),
    Join(Box<GraphPattern>, Box<GraphPattern>),
    LeftJoin(Box<GraphPattern>, Box<GraphPattern>, Expression),
    Filter(Expression, Box<GraphPattern>),
    Union(Box<GraphPattern>, Box<GraphPattern>),
    Graph(NamedNodeOrVariable, Box<GraphPattern>),
    Extend(Box<GraphPattern>, Variable, Expression),
    Minus(Box<GraphPattern>, Box<GraphPattern>),
    Service(NamedNodeOrVariable, Box<GraphPattern>, bool),
    AggregateJoin(GroupPattern, Vec<Variable>),
    Data(StaticBindings),
    OrderBy(Box<GraphPattern>, Vec<OrderComparator>),
    Project(Box<GraphPattern>, Vec<Variable>),
    Distinct(Box<GraphPattern>),
    Reduced(Box<GraphPattern>),
    Slice(Box<GraphPattern>, usize, Option<usize>),
}

impl Expression {
    /// Whether the expression is the literal `true`, of the boolean datatype.
    pub open spec fn is_literal_true(self) -> bool {
        match self {
            Expression::Constant(
                TermOrVariable::Term(Term::Literal(Literal::Typed { value, datatype })),
            ) => value@ == "true"@ && datatype@ == "http://www.w3.org/2001/XMLSchema#boolean"@,
            _ => false,
        }
    }

    /// Whether the expression is the literal `true`, of the boolean datatype.
    pub fn is_true(&self) -> (answer: bool)
        ensures
            answer == self.is_literal_true(),
    {
        match self {
            Expression::Constant(TermOrVariable::Term(Term::Literal(literal))) => match literal {
                Literal::Typed { value, datatype } => {
                    let is_boolean = is_iri(datatype, "http://www.w3.org/2001/XMLSchema#boolean");
                    *value == "true".to_owned() && is_boolean
                },
                _ => false,
            },
            _ => false,
        }
    }
}

} // verus!
