//! What the models of plans, of errors and of variables tell of them.
use crate::error::{Error, Failure};
use crate::model::{names, NamedNode, Variable};
use crate::plan::{
    comparator_models, expression_models, formulas_mention, node_models, plans_mention, positions,
    template_models, tuple_models, Comparator, EncodedTuple, Formula, Operator, PatternValue, Plan,
    PlanExpression, PlanNode, Slot, SortKey, TemplateSlot, TripleTemplate, TripleTemplateValue,
};
use crate::store::EncodedTerm;
use vstd::prelude::*;

verus! {

/// The formula of an operand that may be missing.
pub open spec fn at_most_one(operand: Option<Box<PlanExpression>>) -> Seq<Formula> {
    match operand {
        Some(a) => seq![a.model()],
        None => seq![],
    }
}

/// The formulas of expressions.
pub open spec fn each_model(list: Seq<PlanExpression>) -> Seq<Formula> {
    Seq::new(list.len(), |i: int| list[i].model())
}

/// Whether an expression is of the kind that its operator is named after.
pub open spec fn has_operator(expression: PlanExpression, operator: Operator) -> bool {
    match expression {
        PlanExpression::Or(..) => operator is Or,
        PlanExpression::And(..) => operator is And,
        PlanExpression::Equal(..) => operator is Equal,
        PlanExpression::NotEqual(..) => operator is NotEqual,
        PlanExpression::Greater(..) => operator is Greater,
        PlanExpression::GreaterOrEq(..) => operator is GreaterOrEq,
        PlanExpression::Lower(..) => operator is Lower,
        PlanExpression::LowerOrEq(..) => operator is LowerOrEq,
        PlanExpression::In(..) => operator is In,
        PlanExpression::Add(..) => operator is Add,
        PlanExpression::Sub(..) => operator is Sub,
        PlanExpression::Mul(..) => operator is Mul,
        PlanExpression::Div(..) => operator is Div,
        PlanExpression::UnaryPlus(..) => operator is UnaryPlus,
        PlanExpression::UnaryMinus(..) => operator is UnaryMinus,
        PlanExpression::UnaryNot(..) => operator is UnaryNot,
        PlanExpression::Str(..) => operator is Str,
        PlanExpression::Lang(..) => operator is Lang,
        PlanExpression::LangMatches(..) => operator is LangMatches,
        PlanExpression::Datatype(..) => operator is Datatype,
        PlanExpression::IRI(..) => operator is IRI,
        PlanExpression::BNode(..) => operator is BNode,
        PlanExpression::Rand => operator is Rand,
        PlanExpression::Abs(..) => operator is Abs,
        PlanExpression::Ceil(..) => operator is Ceil,
        PlanExpression::Floor(..) => operator is Floor,
        PlanExpression::Round(..) => operator is Round,
        PlanExpression::Concat(..) => operator is Concat,
        PlanExpression::SubStr(..) => operator is SubStr,
        PlanExpression::StrLen(..) => operator is StrLen,
        PlanExpression::Replace(..) => operator is Replace,
        PlanExpression::UCase(..) => operator is UCase,
        PlanExpression::LCase(..) => operator is LCase,
        PlanExpression::EncodeForURI(..) => operator is EncodeForURI,
        PlanExpression::Contains(..) => operator is Contains,
        PlanExpression::StrStarts(..) => operator is StrStarts,
        PlanExpression::StrEnds(..) => operator is StrEnds,
        PlanExpression::StrBefore(..) => operator is StrBefore,
        PlanExpression::StrAfter(..) => operator is StrAfter,
        PlanExpression::Year(..) => operator is Year,
        PlanExpression::Month(..) => operator is Month,
        PlanExpression::Day(..) => operator is Day,
        PlanExpression::Hours(..) => operator is Hours,
        PlanExpression::Minutes(..) => operator is Minutes,
        PlanExpression::Seconds(..) => operator is Seconds,
        PlanExpression::Timezone(..) => operator is Timezone,
        PlanExpression::Tz(..) => operator is Tz,
        PlanExpression::Now => operator is Now,
        PlanExpression::UUID => operator is UUID,
        PlanExpression::StrUUID => operator is StrUUID,
        PlanExpression::MD5(..) => operator is MD5,
        PlanExpression::SHA1(..) => operator is SHA1,
        PlanExpression::SHA256(..) => operator is SHA256,
        PlanExpression::SHA384(..) => operator is SHA384,
        PlanExpression::SHA512(..) => operator is SHA512,
        PlanExpression::Coalesce(..) => operator is Coalesce,
        PlanExpression::If(..) => operator is If,
        PlanExpression::StrLang(..) => operator is StrLang,
        PlanExpression::StrDT(..) => operator is StrDT,
        PlanExpression::SameTerm(..) => operator is SameTerm,
        PlanExpression::IsIRI(..) => operator is IsIRI,
        PlanExpression::IsBlank(..) => operator is IsBlank,
        PlanExpression::IsLiteral(..) => operator is IsLiteral,
        PlanExpression::IsNumeric(..) => operator is IsNumeric,
        PlanExpression::Regex(..) => operator is Regex,
        PlanExpression::BooleanCast(..) => operator is BooleanCast,
        PlanExpression::DoubleCast(..) => operator is DoubleCast,
        PlanExpression::FloatCast(..) => operator is FloatCast,
        PlanExpression::DecimalCast(..) => operator is DecimalCast,
        PlanExpression::IntegerCast(..) => operator is IntegerCast,
        PlanExpression::DateCast(..) => operator is DateCast,
        PlanExpression::TimeCast(..) => operator is TimeCast,
        PlanExpression::DateTimeCast(..) => operator is DateTimeCast,
        PlanExpression::StringCast(..) => operator is StringCast,
        _ => false,
    }
}

/// The operands of an expression are those that it has, in the order in which it has them.
pub proof fn lemma_operand_models(expression: PlanExpression)
    ensures
        match expression {
            PlanExpression::UnaryPlus(a)
            | PlanExpression::UnaryMinus(a)
            | PlanExpression::UnaryNot(a)
            | PlanExpression::Str(a)
            | PlanExpression::Lang(a)
            | PlanExpression::Datatype(a)
            | PlanExpression::IRI(a)
            | PlanExpression::Abs(a)
            | PlanExpression::Ceil(a)
            | PlanExpression::Floor(a)
            | PlanExpression::Round(a)
            | PlanExpression::StrLen(a)
            | PlanExpression::UCase(a)
            | PlanExpression::LCase(a)
            | PlanExpression::EncodeForURI(a)
            | PlanExpression::Year(a)
            | PlanExpression::Month(a)
            | PlanExpression::Day(a)
            | PlanExpression::Hours(a)
            | PlanExpression::Minutes(a)
            | PlanExpression::Seconds(a)
            | PlanExpression::Timezone(a)
            | PlanExpression::Tz(a)
            | PlanExpression::MD5(a)
            | PlanExpression::SHA1(a)
            | PlanExpression::SHA256(a)
            | PlanExpression::SHA384(a)
            | PlanExpression::SHA512(a)
            | PlanExpression::IsIRI(a)
            | PlanExpression::IsBlank(a)
            | PlanExpression::IsLiteral(a)
            | PlanExpression::IsNumeric(a)
            | PlanExpression::BooleanCast(a)
            | PlanExpression::DoubleCast(a)
            | PlanExpression::FloatCast(a)
            | PlanExpression::DecimalCast(a)
            | PlanExpression::IntegerCast(a)
            | PlanExpression::DateCast(a)
            | PlanExpression::TimeCast(a)
            | PlanExpression::DateTimeCast(a)
            | PlanExpression::StringCast(a) => expression.operands() == seq![a.model()],
            PlanExpression::Or(a, b)
            | PlanExpression::And(a, b)
            | PlanExpression::Equal(a, b)
            | PlanExpression::NotEqual(a, b)
            | PlanExpression::Greater(a, b)
            | PlanExpression::GreaterOrEq(a, b)
            | PlanExpression::Lower(a, b)
            | PlanExpression::LowerOrEq(a, b)
            | PlanExpression::Add(a, b)
            | PlanExpression::Sub(a, b)
            | PlanExpression::Mul(a, b)
            | PlanExpression::Div(a, b)
            | PlanExpression::LangMatches(a, b)
            | PlanExpression::Contains(a, b)
            | PlanExpression::StrStarts(a, b)
            | PlanExpression::StrEnds(a, b)
            | PlanExpression::StrBefore(a, b)
            | PlanExpression::StrAfter(a, b)
            | PlanExpression::StrLang(a, b)
            | PlanExpression::StrDT(a, b)
            | PlanExpression::SameTerm(a, b) => expression.operands() == seq![a.model(), b.model()],
            PlanExpression::If(a, b, c) => expression.operands() == seq![
                a.model(),
                b.model(),
                c.model(),
            ],
            PlanExpression::BNode(a) => expression.operands() == at_most_one(a),
            PlanExpression::SubStr(a, b, c)
            | PlanExpression::Regex(a, b, c) => expression.operands() == seq![a.model(), b.model()]
                + at_most_one(c),
            PlanExpression::Replace(a, b, c, d) => expression.operands() == seq![
                a.model(),
                b.model(),
                c.model(),
            ] + at_most_one(d),
            PlanExpression::Concat(a)
            | PlanExpression::Coalesce(a) => expression.operands() == each_model(a@),
            PlanExpression::In(a, b) => expression.operands() == seq![a.model()] + each_model(b@),
            PlanExpression::Rand
            | PlanExpression::Now
            | PlanExpression::UUID
            | PlanExpression::StrUUID => expression.operands().len() == 0,
            _ => true,
        },
{
    match expression {
        PlanExpression::In(_, list)
        | PlanExpression::Concat(list)
        | PlanExpression::Coalesce(list) => {
            assert(expression_models(list@) =~= each_model(list@));
        },
        _ => {},
    }
}

/// The formula of an expression has the code or the position that the expression has, or the
/// operator of its own kind over the formulas of its operands.
pub proof fn lemma_expression_model(expression: PlanExpression)
    ensures
        ({
            let model = expression.model();
            match expression {
                PlanExpression::Constant(code) => model == Formula::Constant(code),
                PlanExpression::Variable(position) => {
                    model matches Formula::Variable(k) && k == position
                },
                PlanExpression::Bound(position) => {
                    model matches Formula::Bound(k) && k == position
                },
                PlanExpression::Exists(node) => {
                    model matches Formula::Exists(plan) && *plan == node.model()
                },
                _ => {
                    &&& model matches Formula::Apply(operator, parts)
                    &&& has_operator(expression, operator)
                    &&& parts == expression.operands()
                },
            }
        }),
{
}

/// The sort key of a comparator has its direction and the formula of its expression.
pub proof fn lemma_comparator_model(comparator: Comparator)
    ensures
        match comparator {
            Comparator::Asc(e) => comparator.model() == SortKey::Asc(e.model()),
            Comparator::Desc(e) => comparator.model() == SortKey::Desc(e.model()),
        },
{
}

/// A place of a quad or of a triple has the code or the position that it has.
pub proof fn lemma_place_models(value: PatternValue, made: TripleTemplateValue)
    ensures
        match value {
            PatternValue::Constant(code) => value.model() == Slot::Constant(code),
            PatternValue::Variable(position) => {
                value.model() matches Slot::Variable(k) && k == position
            },
        },
        match made {
            TripleTemplateValue::Constant(code) => made.model() == TemplateSlot::Constant(code),
            TripleTemplateValue::BlankNode(key) => {
                made.model() matches TemplateSlot::BlankNode(k) && k == key
            },
            TripleTemplateValue::Variable(position) => {
                made.model() matches TemplateSlot::Variable(k) && k == position
            },
        },
{
}

/// A planned triple has the subject, the predicate and the object that it has.
pub proof fn lemma_triple_model(triple: TripleTemplate)
    ensures
        triple.model().subject == triple.subject.model(),
        triple.model().predicate == triple.predicate.model(),
        triple.model().object == triple.object.model(),
{
}

/// The models of the members of a list are those of its members, in order.
pub proof fn lemma_list_models(
    triples: Seq<TripleTemplate>,
    tuples: Seq<EncodedTuple>,
    list: Seq<usize>,
    comparators: Seq<Comparator>,
    nodes: Seq<PlanNode>,
    i: int,
)
    ensures
        template_models(triples).len() == triples.len(),
        0 <= i < triples.len() ==> template_models(triples)[i] == triples[i].model(),
        tuple_models(tuples).len() == tuples.len(),
        0 <= i < tuples.len() ==> tuple_models(tuples)[i] == tuples[i]@,
        positions(list).len() == list.len(),
        0 <= i < list.len() ==> positions(list)[i] == list[i],
        comparator_models(comparators).len() == comparators.len(),
        0 <= i < comparators.len() ==> comparator_models(comparators)[i] == comparators[i].model(),
        node_models(nodes).len() == nodes.len(),
        0 <= i < nodes.len() ==> node_models(nodes)[i] == nodes[i].model(),
{
}

/// The model of a node is of the kind of the node, over the models of its parts.
pub proof fn lemma_node_model(node: PlanNode)
    ensures
        ({
            let model = node.model();
            match node {
                PlanNode::Init => model is Init,
                PlanNode::StaticBindings { tuples } => {
                    &&& model matches Plan::StaticBindings { tuples: rows }
                    &&& rows == tuple_models(tuples@)
                },
                PlanNode::QuadPatternJoin { child, subject, predicate, object, graph_name } => {
                    &&& model matches Plan::QuadPatternJoin {
                        child: c,
                        subject: s,
                        predicate: p,
                        object: o,
                        graph_name: g,
                    }
                    &&& *c == child.model()
                    &&& s == subject.model()
                    &&& p == predicate.model()
                    &&& o == object.model()
                    &&& g == graph_name.model()
                },
                PlanNode::Filter { child, expression } => {
                    &&& model matches Plan::Filter { child: c, expression: e }
                    &&& *c == child.model()
                    &&& e == expression.model()
                },
                PlanNode::Union { entry, children } => {
                    &&& model matches Plan::Union { entry: n, children: c }
                    &&& *n == entry.model()
                    &&& c == node_models(children@)
                },
                PlanNode::Join { left, right } => {
                    &&& model matches Plan::Join { left: l, right: r }
                    &&& *l == left.model()
                    &&& *r == right.model()
                },
                PlanNode::AntiJoin { left, right } => {
                    &&& model matches Plan::AntiJoin { left: l, right: r }
                    &&& *l == left.model()
                    &&& *r == right.model()
                },
                PlanNode::LeftJoin { left, right, possible_problem_vars } => {
                    &&& model matches Plan::LeftJoin {
                        left: l,
                        right: r,
                        possible_problem_vars: vars,
                    }
                    &&& *l == left.model()
                    &&& *r == right.model()
                    &&& vars == positions(possible_problem_vars@)
                },
                PlanNode::Extend { child, position, expression } => {
                    &&& model matches Plan::Extend { child: c, position: k, expression: e }
                    &&& *c == child.model()
                    &&& k == position
                    &&& e == expression.model()
                },
                PlanNode::Sort { child, by } => {
                    &&& model matches Plan::Sort { child: c, by: keys }
                    &&& *c == child.model()
                    &&& keys == comparator_models(by@)
                },
                PlanNode::HashDeduplicate { child } => {
                    &&& model matches Plan::HashDeduplicate { child: c }
                    &&& *c == child.model()
                },
                PlanNode::Skip { child, count } => {
                    &&& model matches Plan::Skip { child: c, count: n }
                    &&& *c == child.model()
                    &&& n == count
                },
                PlanNode::Limit { child, count } => {
                    &&& model matches Plan::Limit { child: c, count: n }
                    &&& *c == child.model()
                    &&& n == count
                },
                PlanNode::Project { child, mapping } => {
                    &&& model matches Plan::Project { child: c, mapping: list }
                    &&& *c == child.model()
                    &&& list == positions(mapping@)
                },
            }
        }),
{
}

/// The model of an error tells which error it is.
pub proof fn lemma_error_model<'p, E>(error: Error<'p, E>)
    ensures
        match error {
            Error::Store(e) => error.model() == Failure::Store(e),
            Error::CastArity(target) => error.model() == Failure::<E>::CastArity(target),
            Error::UnsupportedFunction(call) => {
                error.model() == Failure::<E>::UnsupportedFunction(*call)
            },
        },
{
}

/// Variables are told apart by their names, or by their identifiers if they have no names. One that
/// has a name is never one that has none.
pub proof fn lemma_variables_differ(a: Variable, b: Variable)
    ensures
        a@ == b@ <==> match (a, b) {
            (Variable::Named { name: x }, Variable::Named { name: y }) => x@ == y@,
            (Variable::Unnamed { id: x }, Variable::Unnamed { id: y }) => x == y,
            _ => false,
        },
        a@ is Named <==> a is Named,
{
}

/// IRIs are told apart by how they are written, and lists of variables by their variables.
pub proof fn lemma_views(node: NamedNode, variables: Seq<Variable>, i: int)
    ensures
        node@ == node.iri@,
        names(variables).len() == variables.len(),
        0 <= i < variables.len() ==> names(variables)[i] == variables[i]@,
{
}

/// The position at a place of a quad, if it is one.
pub open spec fn slot_positions(slot: Slot) -> Set<nat> {
    match slot {
        Slot::Constant(_) => set![],
        Slot::Variable(k) => set![k],
    }
}

/// The positions at which a tuple has a value.
pub open spec fn filled_positions(tuple: Seq<Option<EncodedTerm>>) -> Set<nat> {
    Set::new(|k: nat| k < tuple.len() && tuple[k as int] is Some)
}

/// The positions that a list of tuples fills.
pub open spec fn tuples_positions(tuples: Seq<Seq<Option<EncodedTerm>>>) -> Set<nat>
    decreases tuples.len(),
{
    if tuples.len() == 0 {
        set![]
    } else {
        tuples_positions(tuples.drop_last()) + filled_positions(tuples.last())
    }
}

proof fn lemma_tuples_positions(tuples: Seq<Seq<Option<EncodedTerm>>>, k: nat)
    ensures
        (Plan::StaticBindings { tuples }).mentions(k) <==> tuples_positions(tuples).contains(k),
    decreases tuples.len(),
{
    let whole = Plan::StaticBindings { tuples };
    if tuples.len() > 0 {
        let front = tuples.drop_last();
        let rest = Plan::StaticBindings { tuples: front };
        lemma_tuples_positions(front, k);
        let last = tuples.len() - 1;
        if rest.mentions(k) {
            let i = choose|i: int|
                0 <= i < front.len() && k < (#[trigger] front[i]).len()
                    && front[i][k as int] is Some;
            assert(tuples[i] == front[i]);
        }
        if filled_positions(tuples.last()).contains(k) {
            assert(tuples[last].len() > k);
        }
        if whole.mentions(k) {
            let i = choose|i: int|
                0 <= i < tuples.len() && k < (#[trigger] tuples[i]).len()
                    && tuples[i][k as int] is Some;
            if i < last {
                assert(front[i] == tuples[i]);
            }
        }
    }
}

/// What mentions a position. A plan mentions the positions that it takes values from or puts values
/// at, in itself or in what it is made of. Sort keys do not count, nor what is inside a projection:
/// of that only the positions that it is mapped to do.
pub proof fn lemma_mentions(plan: Plan, k: nat)
    ensures
        match plan {
            Plan::Init => !plan.mentions(k),
            Plan::StaticBindings { tuples } => {
                plan.mentions(k) <==> tuples_positions(tuples).contains(k)
            },
            Plan::QuadPatternJoin { child, subject, predicate, object, graph_name } => {
                plan.mentions(k) <==> child.mentions(k) || (slot_positions(subject)
                    + slot_positions(predicate) + slot_positions(object) + slot_positions(
                    graph_name,
                )).contains(k)
            },
            Plan::Filter { child, expression } => {
                plan.mentions(k) <==> child.mentions(k) || expression.mentions(k)
            },
            Plan::Union { entry, children } => {
                plan.mentions(k) <==> entry.mentions(k) || exists|i: int|
                    0 <= i < children.len() && (#[trigger] children[i]).mentions(k)
            },
            Plan::Join { left, right }
            | Plan::AntiJoin { left, right }
            | Plan::LeftJoin { left, right, .. } => {
                plan.mentions(k) <==> left.mentions(k) || right.mentions(k)
            },
            Plan::Extend { child, position, expression } => {
                plan.mentions(k) <==> child.mentions(k) || position == k || expression.mentions(k)
            },
            Plan::Sort { child, .. }
            | Plan::HashDeduplicate { child }
            | Plan::Skip { child, .. }
            | Plan::Limit { child, .. } => plan.mentions(k) <==> child.mentions(k),
            Plan::Project { mapping, .. } => plan.mentions(k) <==> exists|i: int|
                0 <= i < mapping.len() && #[trigger] mapping[i] == k,
        },
{
    match plan {
        Plan::StaticBindings { tuples } => {
            lemma_tuples_positions(tuples, k);
        },
        Plan::Union { children, .. } => {
            assert(plans_mention(children, k) <==> exists|i: int|
                0 <= i < children.len() && (#[trigger] children[i]).mentions(k));
        },
        _ => {},
    }
}

/// A formula mentions the positions that it reads, in itself or in what it is made of.
pub proof fn lemma_formula_mentions(formula: Formula, k: nat)
    ensures
        match formula {
            Formula::Constant(_) => !formula.mentions(k),
            Formula::Variable(position) | Formula::Bound(position) => {
                formula.mentions(k) <==> position == k
            },
            Formula::Exists(plan) => formula.mentions(k) <==> plan.mentions(k),
            Formula::Apply(_, parts) => formula.mentions(k) <==> exists|i: int|
                0 <= i < parts.len() && (#[trigger] parts[i]).mentions(k),
        },
{
    if let Formula::Apply(_, parts) = formula {
        assert(formulas_mention(parts, k) <==> exists|i: int|
            0 <= i < parts.len() && (#[trigger] parts[i]).mentions(k));
    }
}

} // verus!
