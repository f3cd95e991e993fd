//! Query plans.
use crate::store::EncodedTerm;
use vstd::prelude::*;

verus! {

/// A solution: for each position its value, where it has one.
pub type EncodedTuple = Vec<Option<EncodedTerm>>;

/// A place of a quad that is matched: a value, or the tuple position that it is taken from or
/// put at.
#[derive(Clone, Copy, Debug, PartialEq, Eq, Structural)]
pub enum PatternValue {
    Constant(EncodedTerm),
    Variable(usize),
}

/// A place of a triple that is made: a value, a blank node made for each solution, or the tuple
/// position that it is taken from.
#[derive(Clone, Copy, Debug, PartialEq, Eq, Structural)]
pub enum TripleTemplateValue {
    Constant(EncodedTerm),
    BlankNode(usize),
    Variable(usize),
}

/// A triple to make of each solution.
#[derive(Clone, Copy, Debug, PartialEq, Eq, Structural)]
pub struct TripleTemplate {
    pub subject: TripleTemplateValue,
    pub predicate: TripleTemplateValue,
    pub object: TripleTemplateValue,
}

/// How to compute an expression over a tuple.
#[derive(Debug, PartialEq, Eq)]
pub enum PlanExpression {
    Constant(EncodedTerm),
    Variable(usize),
    Bound(usize),
    Exists(Box<PlanNode>),
    Or(Box<PlanExpression>, Box<PlanExpression>),
    And(Box<PlanExpression>, Box<PlanExpression>),
    Equal(Box<PlanExpression>, Box<PlanExpression>),
    NotEqual(Box<PlanExpression>, Box<PlanExpression>),
    Greater(Box<PlanExpression>, Box<PlanExpression>),
    GreaterOrEq(Box<PlanExpression>, Box<PlanExpression>),
    Lower(Box<PlanExpression>, Box<PlanExpression>),
    LowerOrEq(Box<PlanExpression>, Box<PlanExpression>),
    In(Box<PlanExpression>, Vec<PlanExpression>),
    Add(Box<PlanExpression>, Box<PlanExpression>),
    Sub(Box<PlanExpression>, Box<PlanExpression>),
    Mul(Box<PlanExpression>, Box<PlanExpression>),
    Div(Box<PlanExpression>, Box<PlanExpression>),
    UnaryPlus(Box<PlanExpression>),
    UnaryMinus(Box<PlanExpression>),
    UnaryNot(Box<PlanExpression>),
    Str(Box<PlanExpression>),
    Lang(Box<PlanExpression>),
    LangMatches(Box<PlanExpression>, Box<PlanExpression>),
    Datatype(Box<PlanExpression>),
    IRI(Box<PlanExpression>),
    BNode(Option<Box<PlanExpression>>),
    Rand,
    Abs(Box<PlanExpression>),
    Ceil(Box<PlanExpression>),
    Floor(Box<PlanExpression>),
    Round(Box<PlanExpression>),
    Concat(Vec<PlanExpression>),
    SubStr(Box<PlanExpression>, Box<PlanExpression>, Option<Box<PlanExpression>>),
    StrLen(Box<PlanExpression>),
    Replace(
        Box<PlanExpression>,
        Box<PlanExpression>,
        Box<PlanExpression>,
        Option<Box<PlanExpression>>,
    ),
    UCase(Box<PlanExpression>),
    LCase(Box<PlanExpression>),
    EncodeForURI(Box<PlanExpression>),
    Contains(Box<PlanExpression>, Box<PlanExpression>),
    StrStarts(Box<PlanExpression>, Box<PlanExpression>),
    StrEnds(Box<PlanExpression>, Box<PlanExpression>),
    StrBefore(Box<PlanExpression>, Box<PlanExpression>),
    StrAfter(Box<PlanExpression>, Box<PlanExpression>),
    Year(Box<PlanExpression>),
    Month(Box<PlanExpression>),
    Day(Box<PlanExpression>),
    Hours(Box<PlanExpression>),
    Minutes(Box<PlanExpression>),
    Seconds(Box<PlanExpression>),
    Timezone(Box<PlanExpression>),
    Tz(Box<PlanExpression>),
    Now,
    UUID,
    StrUUID,
    MD5(Box<PlanExpression>),
    SHA1(Box<PlanExpression>),
    SHA256(Box<PlanExpression>),
    SHA384(Box<PlanExpression>),
    SHA512(Box<PlanExpression>),
    Coalesce(Vec<PlanExpression>),
    If(Box<PlanExpression>, Box<PlanExpression>, Box<PlanExpression>),
    StrLang(Box<PlanExpression>, Box<PlanExpression>),
    StrDT(Box<PlanExpression>, Box<PlanExpression>),
    SameTerm(Box<PlanExpression>, Box<PlanExpression>),
    IsIRI(Box<PlanExpression>),
    IsBlank(Box<PlanExpression>),
    IsLiteral(Box<PlanExpression>),
    IsNumeric(Box<PlanExpression>),
    Regex(Box<PlanExpression>, Box<PlanExpression>, Option<Box<PlanExpression>>),
    BooleanCast(Box<PlanExpression>),
    DoubleCast(Box<PlanExpression>),
    FloatCast(Box<PlanExpression>),
    DecimalCast(Box<PlanExpression>),
    IntegerCast(Box<PlanExpression>),
    DateCast(Box<PlanExpression>),
    TimeCast(Box<PlanExpression>),
    DateTimeCast(Box<PlanExpression>),
    StringCast(Box<PlanExpression>),
}

/// A key that tuples are sorted by.
#[derive(Debug, PartialEq, Eq)]
pub enum Comparator {
    Asc(PlanExpression),
    Desc(PlanExpression),
}

/// How to compute the tuples of a pattern.
#[derive(Debug, PartialEq, Eq)]
pub enum PlanNode {
    Init,
    StaticBindings { tuples: Vec<EncodedTuple> },
    QuadPatternJoin {
        child: Box<PlanNode>,
        subject: PatternValue,
        predicate: PatternValue,
        object: PatternValue,
        graph_name: PatternValue,
    },
    Filter { child: Box<PlanNode>, expression: PlanExpression },
    Union { entry: Box<PlanNode>, children: Vec<PlanNode> },
    Join { left: Box<PlanNode>, right: Box<PlanNode> },
    AntiJoin { left: Box<PlanNode>, right: Box<PlanNode> },
    LeftJoin { left: Box<PlanNode>, right: Box<PlanNode>, possible_problem_vars: Vec<usize> },
    Extend { child: Box<PlanNode>, position: usize, expression: PlanExpression },
    Sort { child: Box<PlanNode>, by: Vec<Comparator> },
    HashDeduplicate { child: Box<PlanNode> },
    Skip { child: Box<PlanNode>, count: usize },
    Limit { child: Box<PlanNode>, count: usize },
    Project { child: Box<PlanNode>, mapping: Vec<usize> },
}

/// The operators of a [`Formula`].
pub enum Operator {
    Or,
    And,
    Equal,
    NotEqual,
    Greater,
    GreaterOrEq,
    Lower,
    LowerOrEq,
    In,
    Add,
    Sub,
    Mul,
    Div,
    UnaryPlus,
    UnaryMinus,
    UnaryNot,
    Str,
    Lang,
    LangMatches,
    Datatype,
    IRI,
    BNode,
    Rand,
    Abs,
    Ceil,
    Floor,
    Round,
    Concat,
    SubStr,
    StrLen,
    Replace,
    UCase,
    LCase,
    EncodeForURI,
    Contains,
    StrStarts,
    StrEnds,
    StrBefore,
    StrAfter,
    Year,
    Month,
    Day,
    Hours,
    Minutes,
    Seconds,
    Timezone,
    Tz,
    Now,
    UUID,
    StrUUID,
    MD5,
    SHA1,
    SHA256,
    SHA384,
    SHA512,
    Coalesce,
    If,
    StrLang,
    StrDT,
    SameTerm,
    IsIRI,
    IsBlank,
    IsLiteral,
    IsNumeric,
    Regex,
    BooleanCast,
    DoubleCast,
    FloatCast,
    DecimalCast,
    IntegerCast,
    DateCast,
    TimeCast,
    DateTimeCast,
    StringCast,
}

/// A place of a quad that is matched.
pub enum Slot {
    Constant(EncodedTerm),
    Variable(nat),
}

/// A place of a triple that is made.
pub enum TemplateSlot {
    Constant(EncodedTerm),
    BlankNode(nat),
    Variable(nat),
}

/// A triple that is made.
pub struct TemplateTriple {
    pub subject: TemplateSlot,
    pub predicate: TemplateSlot,
    pub object: TemplateSlot,
}

/// An expression as a tree of operators. An operand that a [`PlanExpression`] may lack is last,
/// and is missing here where it is missing there.
pub enum Formula {
    Constant(EncodedTerm),
    Variable(nat),
    Bound(nat),
    Exists(Box<Plan>),
    Apply(Operator, Seq<Formula>),
}

/// A key that tuples are sorted by.
pub enum SortKey {
    Asc(Formula),
    Desc(Formula),
}

/// A plan, with lists as sequences and positions as natural numbers.
pub enum Plan {
    Init,
    StaticBindings { tuples: Seq<Seq<Option<EncodedTerm>>> },
    QuadPatternJoin {
        child: Box<Plan>,
        subject: Slot,
        predicate: Slot,
        object: Slot,
        graph_name: Slot,
    },
    Filter { child: Box<Plan>, expression: Formula },
    Union { entry: Box<Plan>, children: Seq<Plan> },
    Join { left: Box<Plan>, right: Box<Plan> },
    AntiJoin { left: Box<Plan>, right: Box<Plan> },
    LeftJoin { left: Box<Plan>, right: Box<Plan>, possible_problem_vars: Seq<nat> },
    Extend { child: Box<Plan>, position: nat, expression: Formula },
    Sort { child: Box<Plan>, by: Seq<SortKey> },
    HashDeduplicate { child: Box<Plan> },
    Skip { child: Box<Plan>, count: nat },
    Limit { child: Box<Plan>, count: nat },
    Project { child: Box<Plan>, mapping: Seq<nat> },
}

impl PatternValue {
    pub open spec fn model(self) -> Slot {
        match self {
            PatternValue::Constant(code) => Slot::Constant(code),
            PatternValue::Variable(position) => Slot::Variable(position as nat),
        }
    }

    /// Whether the place is the tuple position `position`.
    pub fn is_at(&self, position: usize) -> (answer: bool)
        ensures
            answer == (self.model() == Slot::Variable(position as nat)),
    {
        match self {
            PatternValue::Constant(_) => false,
            PatternValue::Variable(place) => *place == position,
        }
    }
}

impl TripleTemplateValue {
    pub open spec fn model(self) -> TemplateSlot {
        match self {
            TripleTemplateValue::Constant(code) => TemplateSlot::Constant(code),
            TripleTemplateValue::BlankNode(key) => TemplateSlot::BlankNode(key as nat),
            TripleTemplateValue::Variable(position) => TemplateSlot::Variable(position as nat),
        }
    }
}

impl TripleTemplate {
    pub open spec fn model(self) -> TemplateTriple {
        TemplateTriple {
            subject: self.subject.model(),
            predicate: self.predicate.model(),
            object: self.object.model(),
        }
    }
}

/// The triples that a list of templates makes.
pub open spec fn template_models(templates: Seq<TripleTemplate>) -> Seq<TemplateTriple> {
    Seq::new(templates.len(), |i: int| templates[i].model())
}

/// Positions as natural numbers.
pub open spec fn positions(list: Seq<usize>) -> Seq<nat> {
    Seq::new(list.len(), |i: int| list[i] as nat)
}

/// Tuples as sequences.
pub open spec fn tuple_models(tuples: Seq<EncodedTuple>) -> Seq<Seq<Option<EncodedTerm>>> {
    Seq::new(tuples.len(), |i: int| tuples[i]@)
}

impl PlanExpression {
    /// The operator that an expression applies to its operands. It has none if it is a
    /// constant, a variable, a test of a variable or of a plan.
    pub open spec fn operator(self) -> Option<Operator> {
        match self {
            PlanExpression::Or(..) => Some(Operator::Or),
            PlanExpression::And(..) => Some(Operator::And),
            PlanExpression::Equal(..) => Some(Operator::Equal),
            PlanExpression::NotEqual(..) => Some(Operator::NotEqual),
            PlanExpression::Greater(..) => Some(Operator::Greater),
            PlanExpression::GreaterOrEq(..) => Some(Operator::GreaterOrEq),
            PlanExpression::Lower(..) => Some(Operator::Lower),
            PlanExpression::LowerOrEq(..) => Some(Operator::LowerOrEq),
            PlanExpression::In(..) => Some(Operator::In),
            PlanExpression::Add(..) => Some(Operator::Add),
            PlanExpression::Sub(..) => Some(Operator::Sub),
            PlanExpression::Mul(..) => Some(Operator::Mul),
            PlanExpression::Div(..) => Some(Operator::Div),
            PlanExpression::UnaryPlus(..) => Some(Operator::UnaryPlus),
            PlanExpression::UnaryMinus(..) => Some(Operator::UnaryMinus),
            PlanExpression::UnaryNot(..) => Some(Operator::UnaryNot),
            PlanExpression::Str(..) => Some(Operator::Str),
            PlanExpression::Lang(..) => Some(Operator::Lang),
            PlanExpression::LangMatches(..) => Some(Operator::LangMatches),
            PlanExpression::Datatype(..) => Some(Operator::Datatype),
            PlanExpression::IRI(..) => Some(Operator::IRI),
            PlanExpression::BNode(..) => Some(Operator::BNode),
            PlanExpression::Rand => Some(Operator::Rand),
            PlanExpression::Abs(..) => Some(Operator::Abs),
            PlanExpression::Ceil(..) => Some(Operator::Ceil),
            PlanExpression::Floor(..) => Some(Operator::Floor),
            PlanExpression::Round(..) => Some(Operator::Round),
            PlanExpression::Concat(..) => Some(Operator::Concat),
            PlanExpression::SubStr(..) => Some(Operator::SubStr),
            PlanExpression::StrLen(..) => Some(Operator::StrLen),
            PlanExpression::Replace(..) => Some(Operator::Replace),
            PlanExpression::UCase(..) => Some(Operator::UCase),
            PlanExpression::LCase(..) => Some(Operator::LCase),
            PlanExpression::EncodeForURI(..) => Some(Operator::EncodeForURI),
            PlanExpression::Contains(..) => Some(Operator::Contains),
            PlanExpression::StrStarts(..) => Some(Operator::StrStarts),
            PlanExpression::StrEnds(..) => Some(Operator::StrEnds),
            PlanExpression::StrBefore(..) => Some(Operator::StrBefore),
            PlanExpression::StrAfter(..) => Some(Operator::StrAfter),
            PlanExpression::Year(..) => Some(Operator::Year),
            PlanExpression::Month(..) => Some(Operator::Month),
            PlanExpression::Day(..) => Some(Operator::Day),
            PlanExpression::Hours(..) => Some(Operator::Hours),
            PlanExpression::Minutes(..) => Some(Operator::Minutes),
            PlanExpression::Seconds(..) => Some(Operator::Seconds),
            PlanExpression::Timezone(..) => Some(Operator::Timezone),
            PlanExpression::Tz(..) => Some(Operator::Tz),
            PlanExpression::Now => Some(Operator::Now),
            PlanExpression::UUID => Some(Operator::UUID),
            PlanExpression::StrUUID => Some(Operator::StrUUID),
            PlanExpression::MD5(..) => Some(Operator::MD5),
            PlanExpression::SHA1(..) => Some(Operator::SHA1),
            PlanExpression::SHA256(..) => Some(Operator::SHA256),
            PlanExpression::SHA384(..) => Some(Operator::SHA384),
            PlanExpression::SHA512(..) => Some(Operator::SHA512),
            PlanExpression::Coalesce(..) => Some(Operator::Coalesce),
            PlanExpression::If(..) => Some(Operator::If),
            PlanExpression::StrLang(..) => Some(Operator::StrLang),
            PlanExpression::StrDT(..) => Some(Operator::StrDT),
            PlanExpression::SameTerm(..) => Some(Operator::SameTerm),
            PlanExpression::IsIRI(..) => Some(Operator::IsIRI),
            PlanExpression::IsBlank(..) => Some(Operator::IsBlank),
            PlanExpression::IsLiteral(..) => Some(Operator::IsLiteral),
            PlanExpression::IsNumeric(..) => Some(Operator::IsNumeric),
            PlanExpression::Regex(..) => Some(Operator::Regex),
            PlanExpression::BooleanCast(..) => Some(Operator::BooleanCast),
            PlanExpression::DoubleCast(..) => Some(Operator::DoubleCast),
            PlanExpression::FloatCast(..) => Some(Operator::FloatCast),
            PlanExpression::DecimalCast(..) => Some(Operator::DecimalCast),
            PlanExpression::IntegerCast(..) => Some(Operator::IntegerCast),
            PlanExpression::DateCast(..) => Some(Operator::DateCast),
            PlanExpression::TimeCast(..) => Some(Operator::TimeCast),
            PlanExpression::DateTimeCast(..) => Some(Operator::DateTimeCast),
            PlanExpression::StringCast(..) => Some(Operator::StringCast),
            _ => None,
        }
    }

    /// The formulas of the operands.
    pub open spec fn operands(self) -> Seq<Formula>
        decreases self, 0nat,
    {
        match self {
            PlanExpression::UnaryPlus(a)
            | PlanExpression::UnaryMinus(a)
            | PlanExpression::UnaryNot(a)
            | PlanExpression::Str(a)
            | PlanExpression::Lang(a)
            | PlanExpression::Datatype(a)
            | PlanExpression::IRI(a)
            | PlanExpression::Abs(a)
            | PlanExpression::Ceil(a)
            | PlanExpression::Floor(a)
            | PlanExpression::Round(a)
            | PlanExpression::StrLen(a)
            | PlanExpression::UCase(a)
            | PlanExpression::LCase(a)
            | PlanExpression::EncodeForURI(a)
            | PlanExpression::Year(a)
            | PlanExpression::Month(a)
            | PlanExpression::Day(a)
            | PlanExpression::Hours(a)
            | PlanExpression::Minutes(a)
            | PlanExpression::Seconds(a)
            | PlanExpression::Timezone(a)
            | PlanExpression::Tz(a)
            | PlanExpression::MD5(a)
            | PlanExpression::SHA1(a)
            | PlanExpression::SHA256(a)
            | PlanExpression::SHA384(a)
            | PlanExpression::SHA512(a)
            | PlanExpression::IsIRI(a)
            | PlanExpression::IsBlank(a)
            | PlanExpression::IsLiteral(a)
            | PlanExpression::IsNumeric(a)
            | PlanExpression::BooleanCast(a)
            | PlanExpression::DoubleCast(a)
            | PlanExpression::FloatCast(a)
            | PlanExpression::DecimalCast(a)
            | PlanExpression::IntegerCast(a)
            | PlanExpression::DateCast(a)
            | PlanExpression::TimeCast(a)
            | PlanExpression::DateTimeCast(a)
            | PlanExpression::StringCast(a) => seq![a.model()],
            PlanExpression::Or(a, b)
            | PlanExpression::And(a, b)
            | PlanExpression::Equal(a, b)
            | PlanExpression::NotEqual(a, b)
            | PlanExpression::Greater(a, b)
            | PlanExpression::GreaterOrEq(a, b)
            | PlanExpression::Lower(a, b)
            | PlanExpression::LowerOrEq(a, b)
            | PlanExpression::Add(a, b)
            | PlanExpression::Sub(a, b)
            | PlanExpression::Mul(a, b)
            | PlanExpression::Div(a, b)
            | PlanExpression::LangMatches(a, b)
            | PlanExpression::Contains(a, b)
            | PlanExpression::StrStarts(a, b)
            | PlanExpression::StrEnds(a, b)
            | PlanExpression::StrBefore(a, b)
            | PlanExpression::StrAfter(a, b)
            | PlanExpression::StrLang(a, b)
            | PlanExpression::StrDT(a, b)
            | PlanExpression::SameTerm(a, b) => seq![a.model(), b.model()],
            PlanExpression::If(a, b, c) => seq![a.model(), b.model(), c.model()],
            PlanExpression::BNode(a) => optional_model(a),
            PlanExpression::SubStr(a, b, c)
            | PlanExpression::Regex(a, b, c) => seq![a.model(), b.model()] + optional_model(c),
            PlanExpression::Replace(a, b, c, d) => seq![a.model(), b.model(), c.model()]
                + optional_model(d),
            PlanExpression::Concat(list)
            | PlanExpression::Coalesce(list) => expression_models(list@),
            PlanExpression::In(a, list) => seq![a.model()] + expression_models(list@),
            _ => seq![],
        }
    }

    pub open spec fn model(self) -> Formula
        decreases self, 1nat,
    {
        match self {
            PlanExpression::Constant(code) => Formula::Constant(code),
            PlanExpression::Variable(position) => Formula::Variable(position as nat),
            PlanExpression::Bound(position) => Formula::Bound(position as nat),
            PlanExpression::Exists(node) => Formula::Exists(Box::new(node.model())),
            _ => Formula::Apply(self.operator()->0, self.operands()),
        }
    }
}

/// The formula of an operand that may be missing.
pub open spec fn optional_model(operand: Option<Box<PlanExpression>>) -> Seq<Formula>
    decreases operand, 0nat,
{
    match operand {
        Some(operand) => seq![operand.model()],
        None => seq![],
    }
}

/// The formulas of a list of expressions.
pub open spec fn expression_models(list: Seq<PlanExpression>) -> Seq<Formula>
    decreases list, 0nat,
{
    Seq::new(
        list.len(),
        |i: int|
            if 0 <= i < list.len() {
                list[i].model()
            } else {
                arbitrary()
            },
    )
}

impl Comparator {
    pub open spec fn model(self) -> SortKey
        decreases self, 0nat,
    {
        match self {
            Comparator::Asc(expression) => SortKey::Asc(expression.model()),
            Comparator::Desc(expression) => SortKey::Desc(expression.model()),
        }
    }
}

/// The sort keys of a list of comparators.
pub open spec fn comparator_models(list: Seq<Comparator>) -> Seq<SortKey>
    decreases list, 0nat,
{
    Seq::new(
        list.len(),
        |i: int|
            if 0 <= i < list.len() {
                list[i].model()
            } else {
                arbitrary()
            },
    )
}

impl PlanNode {
    pub open spec fn model(self) -> Plan
        decreases self, 0nat,
    {
        match self {
            PlanNode::Init => Plan::Init,
            PlanNode::StaticBindings { tuples } => Plan::StaticBindings {
                tuples: tuple_models(tuples@),
            },
            PlanNode::QuadPatternJoin { child, subject, predicate, object, graph_name } =>
                Plan::QuadPatternJoin {
                child: Box::new(child.model()),
                subject: subject.model(),
                predicate: predicate.model(),
                object: object.model(),
                graph_name: graph_name.model(),
            },
            PlanNode::Filter { child, expression } => Plan::Filter {
                child: Box::new(child.model()),
                expression: expression.model(),
            },
            PlanNode::Union { entry, children } => Plan::Union {
                entry: Box::new(entry.model()),
                children: node_models(children@),
            },
            PlanNode::Join { left, right } => Plan::Join {
                left: Box::new(left.model()),
                right: Box::new(right.model()),
            },
            PlanNode::AntiJoin { left, right } => Plan::AntiJoin {
                left: Box::new(left.model()),
                right: Box::new(right.model()),
            },
            PlanNode::LeftJoin { left, right, possible_problem_vars } => Plan::LeftJoin {
                left: Box::new(left.model()),
                right: Box::new(right.model()),
                possible_problem_vars: positions(possible_problem_vars@),
            },
            PlanNode::Extend { child, position, expression } => Plan::Extend {
                child: Box::new(child.model()),
                position: position as nat,
                expression: expression.model(),
            },
            PlanNode::Sort { child, by } => Plan::Sort {
                child: Box::new(child.model()),
                by: comparator_models(by@),
            },
            PlanNode::HashDeduplicate { child } => Plan::HashDeduplicate {
                child: Box::new(child.model()),
            },
            PlanNode::Skip { child, count } => Plan::Skip {
                child: Box::new(child.model()),
                count: count as nat,
            },
            PlanNode::Limit { child, count } => Plan::Limit {
                child: Box::new(child.model()),
                count: count as nat,
            },
            PlanNode::Project { child, mapping } => Plan::Project {
                child: Box::new(child.model()),
                mapping: positions(mapping@),
            },
        }
    }
}

/// The plans of a list of nodes.
pub open spec fn node_models(list: Seq<PlanNode>) -> Seq<Plan>
    decreases list, 0nat,
{
    Seq::new(
        list.len(),
        |i: int|
            if 0 <= i < list.len() {
                list[i].model()
            } else {
                arbitrary()
            },
    )
}

impl Clone for PlanExpression {
    #[verifier::rlimit(60)]
    fn clone(&self) -> (copy: PlanExpression)
        ensures
            copy.model() == self.model(),
        decreases self, 0nat,
    {
        match self {
            PlanExpression::Constant(code) => PlanExpression::Constant(*code),
            PlanExpression::Variable(position) => PlanExpression::Variable(*position),
            PlanExpression::Bound(position) => PlanExpression::Bound(*position),
            PlanExpression::Exists(node) => PlanExpression::Exists(Box::new((**node).clone())),
            PlanExpression::Or(a, b) => PlanExpression::Or(copy_box(a), copy_box(b)),
            PlanExpression::And(a, b) => PlanExpression::And(copy_box(a), copy_box(b)),
            PlanExpression::Equal(a, b) => PlanExpression::Equal(copy_box(a), copy_box(b)),
            PlanExpression::NotEqual(a, b) => PlanExpression::NotEqual(copy_box(a), copy_box(b)),
            PlanExpression::Greater(a, b) => PlanExpression::Greater(copy_box(a), copy_box(b)),
            PlanExpression::GreaterOrEq(a, b) => PlanExpression::GreaterOrEq(
                copy_box(a),
                copy_box(b),
            ),
            PlanExpression::Lower(a, b) => PlanExpression::Lower(copy_box(a), copy_box(b)),
            PlanExpression::LowerOrEq(a, b) => PlanExpression::LowerOrEq(copy_box(a), copy_box(b)),
            PlanExpression::In(a, list) => PlanExpression::In(copy_box(a), copy_expressions(list)),
            PlanExpression::Add(a, b) => PlanExpression::Add(copy_box(a), copy_box(b)),
            PlanExpression::Sub(a, b) => PlanExpression::Sub(copy_box(a), copy_box(b)),
            PlanExpression::Mul(a, b) => PlanExpression::Mul(copy_box(a), copy_box(b)),
            PlanExpression::Div(a, b) => PlanExpression::Div(copy_box(a), copy_box(b)),
            PlanExpression::UnaryPlus(a) => PlanExpression::UnaryPlus(copy_box(a)),
            PlanExpression::UnaryMinus(a) => PlanExpression::UnaryMinus(copy_box(a)),
            PlanExpression::UnaryNot(a) => PlanExpression::UnaryNot(copy_box(a)),
            PlanExpression::Str(a) => PlanExpression::Str(copy_box(a)),
            PlanExpression::Lang(a) => PlanExpression::Lang(copy_box(a)),
            PlanExpression::LangMatches(a, b) => PlanExpression::LangMatches(
                copy_box(a),
                copy_box(b),
            ),
            PlanExpression::Datatype(a) => PlanExpression::Datatype(copy_box(a)),
            PlanExpression::IRI(a) => PlanExpression::IRI(copy_box(a)),
            PlanExpression::BNode(a) => PlanExpression::BNode(copy_option(a)),
            PlanExpression::Rand => PlanExpression::Rand,
            PlanExpression::Abs(a) => PlanExpression::Abs(copy_box(a)),
            PlanExpression::Ceil(a) => PlanExpression::Ceil(copy_box(a)),
            PlanExpression::Floor(a) => PlanExpression::Floor(copy_box(a)),
            PlanExpression::Round(a) => PlanExpression::Round(copy_box(a)),
            PlanExpression::Concat(list) => PlanExpression::Concat(copy_expressions(list)),
            PlanExpression::SubStr(a, b, c) => PlanExpression::SubStr(
                copy_box(a),
                copy_box(b),
                copy_option(c),
            ),
            PlanExpression::StrLen(a) => PlanExpression::StrLen(copy_box(a)),
            PlanExpression::Replace(a, b, c, d) => PlanExpression::Replace(
                copy_box(a),
                copy_box(b),
                copy_box(c),
                copy_option(d),
            ),
            PlanExpression::UCase(a) => PlanExpression::UCase(copy_box(a)),
            PlanExpression::LCase(a) => PlanExpression::LCase(copy_box(a)),
            PlanExpression::EncodeForURI(a) => PlanExpression::EncodeForURI(copy_box(a)),
            PlanExpression::Contains(a, b) => PlanExpression::Contains(copy_box(a), copy_box(b)),
            PlanExpression::StrStarts(a, b) => PlanExpression::StrStarts(copy_box(a), copy_box(b)),
            PlanExpression::StrEnds(a, b) => PlanExpression::StrEnds(copy_box(a), copy_box(b)),
            PlanExpression::StrBefore(a, b) => PlanExpression::StrBefore(copy_box(a), copy_box(b)),
            PlanExpression::StrAfter(a, b) => PlanExpression::StrAfter(copy_box(a), copy_box(b)),
            PlanExpression::Year(a) => PlanExpression::Year(copy_box(a)),
            PlanExpression::Month(a) => PlanExpression::Month(copy_box(a)),
            PlanExpression::Day(a) => PlanExpression::Day(copy_box(a)),
            PlanExpression::Hours(a) => PlanExpression::Hours(copy_box(a)),
            PlanExpression::Minutes(a) => PlanExpression::Minutes(copy_box(a)),
            PlanExpression::Seconds(a) => PlanExpression::Seconds(copy_box(a)),
            PlanExpression::Timezone(a) => PlanExpression::Timezone(copy_box(a)),
            PlanExpression::Tz(a) => PlanExpression::Tz(copy_box(a)),
            PlanExpression::Now => PlanExpression::Now,
            PlanExpression::UUID => PlanExpression::UUID,
            PlanExpression::StrUUID => PlanExpression::StrUUID,
            PlanExpression::MD5(a) => PlanExpression::MD5(copy_box(a)),
            PlanExpression::SHA1(a) => PlanExpression::SHA1(copy_box(a)),
            PlanExpression::SHA256(a) => PlanExpression::SHA256(copy_box(a)),
            PlanExpression::SHA384(a) => PlanExpression::SHA384(copy_box(a)),
            PlanExpression::SHA512(a) => PlanExpression::SHA512(copy_box(a)),
            PlanExpression::Coalesce(list) => PlanExpression::Coalesce(copy_expressions(list)),
            PlanExpression::If(a, b, c) => PlanExpression::If(
                copy_box(a),
                copy_box(b),
                copy_box(c),
            ),
            PlanExpression::StrLang(a, b) => PlanExpression::StrLang(copy_box(a), copy_box(b)),
            PlanExpression::StrDT(a, b) => PlanExpression::StrDT(copy_box(a), copy_box(b)),
            PlanExpression::SameTerm(a, b) => PlanExpression::SameTerm(copy_box(a), copy_box(b)),
            PlanExpression::IsIRI(a) => PlanExpression::IsIRI(copy_box(a)),
            PlanExpression::IsBlank(a) => PlanExpression::IsBlank(copy_box(a)),
            PlanExpression::IsLiteral(a) => PlanExpression::IsLiteral(copy_box(a)),
            PlanExpression::IsNumeric(a) => PlanExpression::IsNumeric(copy_box(a)),
            PlanExpression::Regex(a, b, c) => PlanExpression::Regex(
                copy_box(a),
                copy_box(b),
                copy_option(c),
            ),
            PlanExpression::BooleanCast(a) => PlanExpression::BooleanCast(copy_box(a)),
            PlanExpression::DoubleCast(a) => PlanExpression::DoubleCast(copy_box(a)),
            PlanExpression::FloatCast(a) => PlanExpression::FloatCast(copy_box(a)),
            PlanExpression::DecimalCast(a) => PlanExpression::DecimalCast(copy_box(a)),
            PlanExpression::IntegerCast(a) => PlanExpression::IntegerCast(copy_box(a)),
            PlanExpression::DateCast(a) => PlanExpression::DateCast(copy_box(a)),
            PlanExpression::TimeCast(a) => PlanExpression::TimeCast(copy_box(a)),
            PlanExpression::DateTimeCast(a) => PlanExpression::DateTimeCast(copy_box(a)),
            PlanExpression::StringCast(a) => PlanExpression::StringCast(copy_box(a)),
        }
    }
}

fn copy_box(expression: &Box<PlanExpression>) -> (copy: Box<PlanExpression>)
    ensures
        copy.model() == expression.model(),
    decreases **expression, 1nat,
{
    Box::new((**expression).clone())
}

fn copy_option(expression: &Option<Box<PlanExpression>>) -> (copy: Option<Box<PlanExpression>>)
    ensures
        optional_model(copy) == optional_model(*expression),
    decreases expression, 1nat,
{
    match expression {
        Some(operand) => Some(copy_box(operand)),
        None => None,
    }
}

fn copy_expressions(list: &Vec<PlanExpression>) -> (copy: Vec<PlanExpression>)
    ensures
        expression_models(copy@) == expression_models(list@),
    decreases list, 0nat,
{
    let mut copy: Vec<PlanExpression> = Vec::new();
    for i in 0..list.len()
        invariant
            copy@.len() == i,
            forall|j: int| 0 <= j < i ==> (#[trigger] copy@[j]).model() == list@[j].model(),
    {
        copy.push(list[i].clone());
    }
    assert(expression_models(copy@) =~= expression_models(list@));
    copy
}

fn copy_comparator(comparator: &Comparator) -> (copy: Comparator)
    ensures
        copy.model() == comparator.model(),
    decreases comparator, 0nat,
{
    match comparator {
        Comparator::Asc(expression) => Comparator::Asc(expression.clone()),
        Comparator::Desc(expression) => Comparator::Desc(expression.clone()),
    }
}

fn copy_comparators(list: &Vec<Comparator>) -> (copy: Vec<Comparator>)
    ensures
        comparator_models(copy@) == comparator_models(list@),
    decreases list, 0nat,
{
    let mut copy: Vec<Comparator> = Vec::new();
    for i in 0..list.len()
        invariant
            copy@.len() == i,
            forall|j: int| 0 <= j < i ==> (#[trigger] copy@[j]).model() == list@[j].model(),
    {
        copy.push(copy_comparator(&list[i]));
    }
    assert(comparator_models(copy@) =~= comparator_models(list@));
    copy
}

fn copy_tuple(tuple: &EncodedTuple) -> (copy: EncodedTuple)
    ensures
        copy@ == tuple@,
{
    let mut copy: EncodedTuple = Vec::new();
    for i in 0..tuple.len()
        invariant
            copy@ == tuple@.take(i as int),
    {
        copy.push(tuple[i]);
        assert(tuple@.take(i + 1) =~= tuple@.take(i as int).push(tuple@[i as int]));
    }
    assert(tuple@.take(tuple@.len() as int) =~= tuple@);
    copy
}

fn copy_tuples(tuples: &Vec<EncodedTuple>) -> (copy: Vec<EncodedTuple>)
    ensures
        tuple_models(copy@) == tuple_models(tuples@),
{
    let mut copy: Vec<EncodedTuple> = Vec::new();
    for i in 0..tuples.len()
        invariant
            copy@.len() == i,
            forall|j: int| 0 <= j < i ==> (#[trigger] copy@[j])@ == tuples@[j]@,
    {
        copy.push(copy_tuple(&tuples[i]));
    }
    assert(tuple_models(copy@) =~= tuple_models(tuples@));
    copy
}

fn copy_positions(list: &Vec<usize>) -> (copy: Vec<usize>)
    ensures
        copy@ == list@,
{
    let mut copy: Vec<usize> = Vec::new();
    for i in 0..list.len()
        invariant
            copy@ == list@.take(i as int),
    {
        copy.push(list[i]);
        assert(list@.take(i + 1) =~= list@.take(i as int).push(list@[i as int]));
    }
    assert(list@.take(list@.len() as int) =~= list@);
    copy
}

impl Clone for PlanNode {
    fn clone(&self) -> (copy: PlanNode)
        ensures
            copy.model() == self.model(),
        decreases self, 0nat,
    {
        match self {
            PlanNode::Init => PlanNode::Init,
            PlanNode::StaticBindings { tuples } => PlanNode::StaticBindings {
                tuples: copy_tuples(tuples),
            },
            PlanNode::QuadPatternJoin { child, subject, predicate, object, graph_name } =>
                PlanNode::QuadPatternJoin {
                child: copy_node(child),
                subject: *subject,
                predicate: *predicate,
                object: *object,
                graph_name: *graph_name,
            },
            PlanNode::Filter { child, expression } => PlanNode::Filter {
                child: copy_node(child),
                expression: expression.clone(),
            },
            PlanNode::Union { entry, children } => PlanNode::Union {
                entry: copy_node(entry),
                children: copy_nodes(children),
            },
            PlanNode::Join { left, right } => PlanNode::Join {
                left: copy_node(left),
                right: copy_node(right),
            },
            PlanNode::AntiJoin { left, right } => PlanNode::AntiJoin {
                left: copy_node(left),
                right: copy_node(right),
            },
            PlanNode::LeftJoin { left, right, possible_problem_vars } => PlanNode::LeftJoin {
                left: copy_node(left),
                right: copy_node(right),
                possible_problem_vars: copy_positions(possible_problem_vars),
            },
            PlanNode::Extend { child, position, expression } => PlanNode::Extend {
                child: copy_node(child),
                position: *position,
                expression: expression.clone(),
            },
            PlanNode::Sort { child, by } => PlanNode::Sort {
                child: copy_node(child),
                by: copy_comparators(by),
            },
            PlanNode::HashDeduplicate { child } => PlanNode::HashDeduplicate {
                child: copy_node(child),
            },
            PlanNode::Skip { child, count } => PlanNode::Skip {
                child: copy_node(child),
                count: *count,
            },
            PlanNode::Limit { child, count } => PlanNode::Limit {
                child: copy_node(child),
                count: *count,
            },
            PlanNode::Project { child, mapping } => PlanNode::Project {
                child: copy_node(child),
                mapping: copy_positions(mapping),
            },
        }
    }
}

fn copy_node(node: &Box<PlanNode>) -> (copy: Box<PlanNode>)
    ensures
        copy.model() == node.model(),
    decreases **node, 1nat,
{
    Box::new((**node).clone())
}

fn copy_nodes(list: &Vec<PlanNode>) -> (copy: Vec<PlanNode>)
    ensures
        node_models(copy@) == node_models(list@),
    decreases list, 0nat,
{
    let mut copy: Vec<PlanNode> = Vec::new();
    for i in 0..list.len()
        invariant
            copy@.len() == i,
            forall|j: int| 0 <= j < i ==> (#[trigger] copy@[j]).model() == list@[j].model(),
    {
        copy.push(list[i].clone());
    }
    assert(node_models(copy@) =~= node_models(list@));
    copy
}

impl Formula {
    /// Whether the formula reads the tuple position `k`.
    pub open spec fn mentions(self, k: nat) -> bool
        decreases self,
    {
        match self {
            Formula::Constant(_) => false,
            Formula::Variable(position) => position == k,
            Formula::Bound(position) => position == k,
            Formula::Exists(plan) => plan.mentions(k),
            Formula::Apply(_, operands) => formulas_mention(operands, k),
        }
    }
}

/// Whether one of the formulas reads the tuple position `k`.
pub open spec fn formulas_mention(formulas: Seq<Formula>, k: nat) -> bool
    decreases formulas,
{
    exists|i: int| 0 <= i < formulas.len() && (#[trigger] formulas[i]).mentions(k)
}

broadcast proof fn lemma_none_mention(k: nat)
    ensures
        !#[trigger] formulas_mention(seq![], k),
{
}

broadcast proof fn lemma_push_mentions(formulas: Seq<Formula>, last: Formula, k: nat)
    ensures
        #[trigger] formulas_mention(formulas.push(last), k) == (formulas_mention(formulas, k)
            || last.mentions(k)),
{
    let longer = formulas.push(last);
    if formulas_mention(formulas, k) {
        let i = choose|i: int| 0 <= i < formulas.len() && (#[trigger] formulas[i]).mentions(k);
        assert(longer[i].mentions(k));
    }
    if last.mentions(k) {
        assert(longer[formulas.len() as int].mentions(k));
    }
    if formulas_mention(longer, k) && !last.mentions(k) {
        let i = choose|i: int| 0 <= i < longer.len() && (#[trigger] longer[i]).mentions(k);
        assert(formulas[i].mentions(k));
    }
}

broadcast proof fn lemma_append_mentions(front: Seq<Formula>, back: Seq<Formula>, k: nat)
    ensures
        #[trigger] formulas_mention(front + back, k) == (formulas_mention(front, k)
            || formulas_mention(back, k)),
{
    let all = front + back;
    if formulas_mention(front, k) {
        let i = choose|i: int| 0 <= i < front.len() && (#[trigger] front[i]).mentions(k);
        assert(all[i].mentions(k));
    }
    if formulas_mention(back, k) {
        let i = choose|i: int| 0 <= i < back.len() && (#[trigger] back[i]).mentions(k);
        assert(all[front.len() + i].mentions(k));
    }
    if formulas_mention(all, k) && !formulas_mention(front, k) {
        let i = choose|i: int| 0 <= i < all.len() && (#[trigger] all[i]).mentions(k);
        assert(i < front.len() ==> front[i].mentions(k));
        assert(back[i - front.len()].mentions(k));
    }
}

broadcast group group_mentions {
    lemma_none_mention,
    lemma_push_mentions,
    lemma_append_mentions,
}

impl Plan {
    /// Whether the tuple position `k` counts as one of the plan's: one that it reads or fills. What
    /// sort keys read does not count, nor what a projected plan does with the positions of its own
    /// tuples.
    pub open spec fn mentions(self, k: nat) -> bool
        decreases self,
    {
        match self {
            Plan::Init => false,
            Plan::StaticBindings { tuples } => exists|i: int|
                0 <= i < tuples.len() && k < (#[trigger] tuples[i]).len()
                    && tuples[i][k as int] is Some,
            Plan::QuadPatternJoin { child, subject, predicate, object, graph_name } => {
                ||| child.mentions(k)
                ||| subject == Slot::Variable(k)
                ||| predicate == Slot::Variable(k)
                ||| object == Slot::Variable(k)
                ||| graph_name == Slot::Variable(k)
            },
            Plan::Filter { child, expression } => child.mentions(k) || expression.mentions(k),
            Plan::Union { entry, children } => entry.mentions(k) || plans_mention(children, k),
            Plan::Join { left, right } => left.mentions(k) || right.mentions(k),
            Plan::AntiJoin { left, right } => left.mentions(k) || right.mentions(k),
            Plan::LeftJoin { left, right, .. } => left.mentions(k) || right.mentions(k),
            Plan::Extend { child, position, expression } => {
                ||| child.mentions(k)
                ||| position == k
                ||| expression.mentions(k)
            },
            Plan::Sort { child, .. } => child.mentions(k),
            Plan::HashDeduplicate { child } => child.mentions(k),
            Plan::Skip { child, .. } => child.mentions(k),
            Plan::Limit { child, .. } => child.mentions(k),
            Plan::Project { mapping, .. } => mapping.contains(k),
        }
    }
}

/// Whether the tuple position `k` counts as one of a plan in the list.
pub open spec fn plans_mention(plans: Seq<Plan>, k: nat) -> bool
    decreases plans,
{
    exists|i: int| 0 <= i < plans.len() && (#[trigger] plans[i]).mentions(k)
}

impl PlanExpression {
    /// Whether the expression reads the tuple position `position`.
    pub fn mentions(&self, position: usize) -> (answer: bool)
        ensures
            answer == self.model().mentions(position as nat),
        decreases self, 1nat,
    {
        match self {
            PlanExpression::Constant(_) => false,
            PlanExpression::Variable(place) | PlanExpression::Bound(place) => *place == position,
            PlanExpression::Exists(node) => node.mentions(position),
            _ => self.operands_mention(position),
        }
    }

    /// Whether an operand reads the tuple position `position`.
    fn operands_mention(&self, position: usize) -> (answer: bool)
        ensures
            answer == formulas_mention(self.operands(), position as nat),
        decreases self, 0nat,
    {
        broadcast use group_mentions;

        match self {
            PlanExpression::UnaryPlus(a)
            | PlanExpression::UnaryMinus(a)
            | PlanExpression::UnaryNot(a)
            | PlanExpression::Str(a)
            | PlanExpression::Lang(a)
            | PlanExpression::Datatype(a)
            | PlanExpression::IRI(a)
            | PlanExpression::Abs(a)
            | PlanExpression::Ceil(a)
            | PlanExpression::Floor(a)
            | PlanExpression::Round(a)
            | PlanExpression::StrLen(a)
            | PlanExpression::UCase(a)
            | PlanExpression::LCase(a)
            | PlanExpression::EncodeForURI(a)
            | PlanExpression::Year(a)
            | PlanExpression::Month(a)
            | PlanExpression::Day(a)
            | PlanExpression::Hours(a)
            | PlanExpression::Minutes(a)
            | PlanExpression::Seconds(a)
            | PlanExpression::Timezone(a)
            | PlanExpression::Tz(a)
            | PlanExpression::MD5(a)
            | PlanExpression::SHA1(a)
            | PlanExpression::SHA256(a)
            | PlanExpression::SHA384(a)
            | PlanExpression::SHA512(a)
            | PlanExpression::IsIRI(a)
            | PlanExpression::IsBlank(a)
            | PlanExpression::IsLiteral(a)
            | PlanExpression::IsNumeric(a)
            | PlanExpression::BooleanCast(a)
            | PlanExpression::DoubleCast(a)
            | PlanExpression::FloatCast(a)
            | PlanExpression::DecimalCast(a)
            | PlanExpression::IntegerCast(a)
            | PlanExpression::DateCast(a)
            | PlanExpression::TimeCast(a)
            | PlanExpression::DateTimeCast(a)
            | PlanExpression::StringCast(a) => a.mentions(position),
            PlanExpression::Or(a, b)
            | PlanExpression::And(a, b)
            | PlanExpression::Equal(a, b)
            | PlanExpression::NotEqual(a, b)
            | PlanExpression::Greater(a, b)
            | PlanExpression::GreaterOrEq(a, b)
            | PlanExpression::Lower(a, b)
            | PlanExpression::LowerOrEq(a, b)
            | PlanExpression::Add(a, b)
            | PlanExpression::Sub(a, b)
            | PlanExpression::Mul(a, b)
            | PlanExpression::Div(a, b)
            | PlanExpression::LangMatches(a, b)
            | PlanExpression::Contains(a, b)
            | PlanExpression::StrStarts(a, b)
            | PlanExpression::StrEnds(a, b)
            | PlanExpression::StrBefore(a, b)
            | PlanExpression::StrAfter(a, b)
            | PlanExpression::StrLang(a, b)
            | PlanExpression::StrDT(a, b)
            | PlanExpression::SameTerm(a, b) => a.mentions(position) || b.mentions(position),
            PlanExpression::If(a, b, c) => a.mentions(position) || b.mentions(position)
                || c.mentions(position),
            PlanExpression::BNode(a) => option_mentions(a, position),
            PlanExpression::SubStr(a, b, c)
            | PlanExpression::Regex(a, b, c) => a.mentions(position) || b.mentions(position)
                || option_mentions(c, position),
            PlanExpression::Replace(a, b, c, d) => a.mentions(position) || b.mentions(position)
                || c.mentions(position) || option_mentions(d, position),
            PlanExpression::Concat(list)
            | PlanExpression::Coalesce(list) => list_mentions(list, position),
            PlanExpression::In(a, list) => a.mentions(position) || list_mentions(list, position),
            _ => false,
        }
    }
}

/// Whether an operand that may be missing reads the tuple position `position`.
fn option_mentions(operand: &Option<Box<PlanExpression>>, position: usize) -> (answer: bool)
    ensures
        answer == formulas_mention(optional_model(*operand), position as nat),
    decreases operand, 0nat,
{
    broadcast use group_mentions;

    match operand {
        Some(operand) => operand.mentions(position),
        None => false,
    }
}

/// Whether one of the expressions reads the tuple position `position`.
fn list_mentions(list: &Vec<PlanExpression>, position: usize) -> (answer: bool)
    ensures
        answer == formulas_mention(expression_models(list@), position as nat),
    decreases list, 0nat,
{
    for i in 0..list.len()
        invariant
            forall|j: int| 0 <= j < i ==> !(#[trigger] list@[j]).model().mentions(position as nat),
    {
        if list[i].mentions(position) {
            assert(expression_models(list@)[i as int].mentions(position as nat));
            return true;
        }
    }
    assert forall|j: int| 0 <= j < list@.len() implies !(
    #[trigger] expression_models(list@)[j]).mentions(position as nat) by {
        assert(!list@[j].model().mentions(position as nat));
    }
    false
}

/// Whether one of the tuples has a value at `position`.
fn tuples_mention(tuples: &Vec<EncodedTuple>, position: usize) -> (answer: bool)
    ensures
        answer == (Plan::StaticBindings { tuples: tuple_models(tuples@) }).mentions(
            position as nat,
        ),
{
    for i in 0..tuples.len()
        invariant
            forall|j: int|
                0 <= j < i ==> !(position < (#[trigger] tuples@[j])@.len()
                    && tuples@[j]@[position as int] is Some),
    {
        let tuple = &tuples[i];
        if position < tuple.len() && tuple[position].is_some() {
            assert(tuple_models(tuples@)[i as int] == tuple@);
            return true;
        }
    }
    assert forall|j: int| 0 <= j < tuples@.len() implies !(position < (
    #[trigger] tuple_models(tuples@)[j]).len() && tuple_models(
        tuples@,
    )[j][position as int] is Some) by {
        assert(tuple_models(tuples@)[j] == tuples@[j]@);
    }
    false
}

/// Whether `position` is in the list.
fn lists_position(list: &Vec<usize>, position: usize) -> (answer: bool)
    ensures
        answer == positions(list@).contains(position as nat),
{
    for i in 0..list.len()
        invariant
            forall|j: int| 0 <= j < i ==> list@[j] != position,
    {
        if list[i] == position {
            assert(positions(list@)[i as int] == position as nat);
            return true;
        }
    }
    assert forall|j: int| 0 <= j < list@.len() implies #[trigger] positions(list@)[j]
        != position as nat by {
        assert(list@[j] != position);
    }
    false
}

impl PlanNode {
    /// Whether the tuple position `position` counts as one of the plan's.
    pub fn mentions(&self, position: usize) -> (answer: bool)
        ensures
            answer == self.model().mentions(position as nat),
        decreases self, 0nat,
    {
        match self {
            PlanNode::Init => false,
            PlanNode::StaticBindings { tuples } => tuples_mention(tuples, position),
            PlanNode::QuadPatternJoin { child, subject, predicate, object, graph_name } =>
                child.mentions(position) || subject.is_at(position) || predicate.is_at(position)
                    || object.is_at(position) || graph_name.is_at(position),
            PlanNode::Filter { child, expression } => child.mentions(position)
                || expression.mentions(position),
            PlanNode::Union { entry, children } => entry.mentions(position) || nodes_mention(
                children,
                position,
            ),
            PlanNode::Join { left, right } => left.mentions(position) || right.mentions(position),
            PlanNode::AntiJoin { left, right } => left.mentions(position) || right.mentions(
                position,
            ),
            PlanNode::LeftJoin { left, right, .. } => left.mentions(position) || right.mentions(
                position,
            ),
            PlanNode::Extend { child, position: place, expression } => child.mentions(position)
                || *place == position || expression.mentions(position),
            PlanNode::Sort { child, .. } => child.mentions(position),
            PlanNode::HashDeduplicate { child } => child.mentions(position),
            PlanNode::Skip { child, .. } => child.mentions(position),
            PlanNode::Limit { child, .. } => child.mentions(position),
            PlanNode::Project { mapping, .. } => lists_position(mapping, position),
        }
    }
}

/// Whether one of the plans reads or fills the tuple position `position`.
fn nodes_mention(list: &Vec<PlanNode>, position: usize) -> (answer: bool)
    ensures
        answer == plans_mention(node_models(list@), position as nat),
    decreases list, 0nat,
{
    for i in 0..list.len()
        invariant
            forall|j: int| 0 <= j < i ==> !(#[trigger] list@[j]).model().mentions(position as nat),
    {
        if list[i].mentions(position) {
            assert(node_models(list@)[i as int].mentions(position as nat));
            return true;
        }
    }
    assert forall|j: int| 0 <= j < list@.len() implies !(
    #[trigger] node_models(list@)[j]).mentions(position as nat) by {
        assert(!list@[j].model().mentions(position as nat));
    }
    false
}

} // verus!
