//! The graph in which a plan looks for quads: that of the nearest graph clause around a pattern,
//! or the default graph.
use crate::algebra::{Expression, GraphPattern, OrderComparator, TripleOrPathPattern};
use crate::error::Outcome;
use crate::expression::{applied, lemma_operand_is_part, operands};
use crate::model::names;
use crate::ordering::join_order;
use crate::plan::{Formula, Plan, Slot, SortKey};
use crate::semantics::{
    branches, branches_run, comparator_run, comparators_run, expression_run, joins_run,
    lemma_branch_is_part, operands_run, outset, pattern_run, query_run, sliced, triple_run,
    Progress,
};
use crate::store::{Answers, EncodedTerm};
use vstd::prelude::*;

verus! {

impl Formula {
    /// Whether an expression looks for quads in this graph alone.
    pub open spec fn searches_only(self, graph: Slot) -> bool
        decreases self,
    {
        match self {
            Formula::Constant(_) => true,
            Formula::Variable(_) => true,
            Formula::Bound(_) => true,
            Formula::Exists(plan) => plan.searches_only(graph),
            Formula::Apply(_, operands) => formulas_search_only(operands, graph),
        }
    }
}

/// Whether expressions look for quads in this graph alone.
pub open spec fn formulas_search_only(formulas: Seq<Formula>, graph: Slot) -> bool
    decreases formulas,
{
    forall|i: int| 0 <= i < formulas.len() ==> (#[trigger] formulas[i]).searches_only(graph)
}

impl SortKey {
    /// Whether a sort key looks for quads in this graph alone.
    pub open spec fn searches_only(self, graph: Slot) -> bool
        decreases self,
    {
        match self {
            SortKey::Asc(formula) => formula.searches_only(graph),
            SortKey::Desc(formula) => formula.searches_only(graph),
        }
    }
}

/// Whether sort keys look for quads in this graph alone.
pub open spec fn sort_keys_search_only(keys: Seq<SortKey>, graph: Slot) -> bool
    decreases keys,
{
    forall|i: int| 0 <= i < keys.len() ==> (#[trigger] keys[i]).searches_only(graph)
}

impl Plan {
    /// Whether a plan looks for quads in this graph alone.
    pub open spec fn searches_only(self, graph: Slot) -> bool
        decreases self,
    {
        match self {
            Plan::Init => true,
            Plan::StaticBindings { .. } => true,
            Plan::QuadPatternJoin { child, graph_name, .. } => {
                &&& child.searches_only(graph)
                &&& graph_name == graph
            },
            Plan::Filter { child, expression } => {
                &&& child.searches_only(graph)
                &&& expression.searches_only(graph)
            },
            Plan::Union { entry, children } => {
                &&& entry.searches_only(graph)
                &&& plans_search_only(children, graph)
            },
            Plan::Join { left, right } => left.searches_only(graph) && right.searches_only(graph),
            Plan::AntiJoin { left, right } => {
                &&& left.searches_only(graph)
                &&& right.searches_only(graph)
            },
            Plan::LeftJoin { left, right, .. } => {
                &&& left.searches_only(graph)
                &&& right.searches_only(graph)
            },
            Plan::Extend { child, expression, .. } => {
                &&& child.searches_only(graph)
                &&& expression.searches_only(graph)
            },
            Plan::Sort { child, by } => {
                &&& child.searches_only(graph)
                &&& sort_keys_search_only(by, graph)
            },
            Plan::HashDeduplicate { child } => child.searches_only(graph),
            Plan::Skip { child, .. } => child.searches_only(graph),
            Plan::Limit { child, .. } => child.searches_only(graph),
            Plan::Project { child, .. } => child.searches_only(graph),
        }
    }
}

/// Whether plans look for quads in this graph alone.
pub open spec fn plans_search_only(plans: Seq<Plan>, graph: Slot) -> bool
    decreases plans,
{
    forall|i: int| 0 <= i < plans.len() ==> (#[trigger] plans[i]).searches_only(graph)
}

/// Whether an expression has no graph clause in it.
pub open spec fn expression_stays(expression: Expression) -> bool
    decreases expression, operands(expression).len() + 1,
{
    match expression {
        Expression::Constant(_) => true,
        Expression::Bound(_) => true,
        Expression::Exists(pattern) => pattern_stays(*pattern),
        _ => operands_stay(expression, 0),
    }
}

/// Whether the operands of an expression from the `i`-th on have no graph clause in them.
pub open spec fn operands_stay(expression: Expression, i: int) -> bool
    decreases expression, operands(expression).len() - i,
{
    if 0 <= i < operands(expression).len() {
        proof {
            lemma_operand_is_part(expression, i);
        }
        expression_stays(operands(expression)[i]) && operands_stay(expression, i + 1)
    } else {
        true
    }
}

/// Whether a sort key has no graph clause in it.
pub open spec fn comparator_stays(comparator: OrderComparator) -> bool
    decreases comparator, 0int,
{
    match comparator {
        OrderComparator::Asc(expression) => expression_stays(expression),
        OrderComparator::Desc(expression) => expression_stays(expression),
    }
}

/// Whether the sort keys from the `i`-th on have no graph clause in them.
pub open spec fn comparators_stay(comparators: Seq<OrderComparator>, i: int) -> bool
    decreases comparators, comparators.len() - i,
{
    if 0 <= i < comparators.len() {
        comparator_stays(comparators[i]) && comparators_stay(comparators, i + 1)
    } else {
        true
    }
}

/// Whether a pattern has no graph clause in it.
pub open spec fn pattern_stays(pattern: GraphPattern) -> bool
    decreases pattern, 1int,
{
    match pattern {
        GraphPattern::BGP(_) => true,
        GraphPattern::Join(a, b) => pattern_stays(*a) && pattern_stays(*b),
        GraphPattern::LeftJoin(a, b, e) => {
            &&& pattern_stays(*a)
            &&& pattern_stays(*b)
            &&& expression_stays(e)
        },
        GraphPattern::Filter(e, p) => pattern_stays(*p) && expression_stays(e),
        GraphPattern::Union(a, b) => pattern_stays(*a) && pattern_stays(*b),
        GraphPattern::Graph(_, _) => false,
        GraphPattern::Extend(p, _, e) => pattern_stays(*p) && expression_stays(e),
        GraphPattern::Minus(a, b) => pattern_stays(*a) && pattern_stays(*b),
        GraphPattern::Service(_, _, _) => true,
        GraphPattern::AggregateJoin(_, _) => true,
        GraphPattern::Data(_) => true,
        GraphPattern::OrderBy(p, order) => pattern_stays(*p) && comparators_stay(order@, 0),
        GraphPattern::Project(p, _) => pattern_stays(*p),
        GraphPattern::Distinct(p) => pattern_stays(*p),
        GraphPattern::Reduced(p) => pattern_stays(*p),
        GraphPattern::Slice(p, _, _) => pattern_stays(*p),
    }
}

proof fn lemma_joins_stay<E>(
    patterns: Seq<TripleOrPathPattern>,
    i: int,
    input: Plan,
    graph: Slot,
    answers: Answers<E>,
    at: Progress,
)
    requires
        input.searches_only(graph),
    ensures
        match joins_run(patterns, i, input, graph, answers, at).0 {
            Outcome::Done(plan) => plan.searches_only(graph),
            _ => true,
        },
    decreases patterns.len() - i,
{
    if 0 <= i < patterns.len() {
        if let TripleOrPathPattern::Triple(triple) = patterns[i] {
            let (outcome, next) = triple_run(triple, input, graph, answers, at);
            if let Outcome::Done(plan) = outcome {
                assert(plan.searches_only(graph));
                lemma_joins_stay(patterns, i + 1, plan, graph, answers, next);
            }
        }
    }
}

/// An expression without a graph clause looks for quads in the graph around it.
pub proof fn lemma_expression_searches<E>(
    expression: Expression,
    graph: Slot,
    answers: Answers<E>,
    at: Progress,
)
    requires
        expression_stays(expression),
    ensures
        match expression_run(expression, graph, answers, at).0 {
            Outcome::Done(formula) => formula.searches_only(graph),
            _ => true,
        },
    decreases expression, operands(expression).len() + 1,
{
    match expression {
        Expression::Constant(_) => {},
        Expression::Bound(_) => {},
        Expression::Exists(pattern) => {
            lemma_pattern_searches(*pattern, Plan::Init, graph, answers, at);
        },
        _ => {
            lemma_operands_search(expression, 0, seq![], graph, answers, at);
            let outcome = operands_run(expression, 0, seq![], graph, answers, at).0;
            if let Outcome::Done(parts) = outcome {
                assert(formulas_search_only(parts, graph));
                if expression is NotIn {
                    let whole = applied(expression, parts);
                    let inner = whole->Apply_1;
                    assert(inner[0].searches_only(graph));
                    assert(formulas_search_only(inner, graph));
                    assert(whole.searches_only(graph));
                }
            }
        },
    }
}

proof fn lemma_operands_search<E>(
    expression: Expression,
    i: int,
    parts: Seq<Formula>,
    graph: Slot,
    answers: Answers<E>,
    at: Progress,
)
    requires
        operands_stay(expression, i),
        formulas_search_only(parts, graph),
    ensures
        match operands_run(expression, i, parts, graph, answers, at).0 {
            Outcome::Done(made) => formulas_search_only(made, graph),
            _ => true,
        },
    decreases expression, operands(expression).len() - i,
{
    if 0 <= i < operands(expression).len() {
        lemma_operand_is_part(expression, i);
        lemma_expression_searches(operands(expression)[i], graph, answers, at);
        let (outcome, next) = expression_run(operands(expression)[i], graph, answers, at);
        if let Outcome::Done(part) = outcome {
            assert(formulas_search_only(parts.push(part), graph));
            lemma_operands_search(expression, i + 1, parts.push(part), graph, answers, next);
        }
    }
}

proof fn lemma_comparator_searches<E>(
    comparator: OrderComparator,
    graph: Slot,
    answers: Answers<E>,
    at: Progress,
)
    requires
        comparator_stays(comparator),
    ensures
        match comparator_run(comparator, graph, answers, at).0 {
            Outcome::Done(key) => key.searches_only(graph),
            _ => true,
        },
    decreases comparator, 0int,
{
    match comparator {
        OrderComparator::Asc(e) | OrderComparator::Desc(e) => {
            lemma_expression_searches(e, graph, answers, at);
        },
    }
}

proof fn lemma_comparators_search<E>(
    comparators: Seq<OrderComparator>,
    i: int,
    keys: Seq<SortKey>,
    graph: Slot,
    answers: Answers<E>,
    at: Progress,
)
    requires
        comparators_stay(comparators, i),
        sort_keys_search_only(keys, graph),
    ensures
        match comparators_run(comparators, i, keys, graph, answers, at).0 {
            Outcome::Done(made) => sort_keys_search_only(made, graph),
            _ => true,
        },
    decreases comparators, comparators.len() - i,
{
    if 0 <= i < comparators.len() {
        lemma_comparator_searches(comparators[i], graph, answers, at);
        let (outcome, next) = comparator_run(comparators[i], graph, answers, at);
        if let Outcome::Done(key) = outcome {
            assert(sort_keys_search_only(keys.push(key), graph));
            lemma_comparators_search(comparators, i + 1, keys.push(key), graph, answers, next);
        }
    }
}

proof fn lemma_branch_stays(pattern: GraphPattern, i: int)
    requires
        pattern_stays(pattern),
        0 <= i < branches(pattern).len(),
    ensures
        pattern_stays(branches(pattern)[i]),
    decreases pattern,
{
    if let GraphPattern::Union(a, b) = pattern {
        let second = branches(*b).len();
        if i < second {
            assert(branches(pattern)[i] == branches(*b)[i]);
            lemma_branch_stays(*b, i);
        } else {
            assert(branches(pattern)[i] == branches(*a)[i - second]);
            lemma_branch_stays(*a, i - second);
        }
    }
}

proof fn lemma_branches_search<E>(
    pattern: GraphPattern,
    i: int,
    children: Seq<Plan>,
    graph: Slot,
    answers: Answers<E>,
    at: Progress,
)
    requires
        pattern_stays(pattern),
        plans_search_only(children, graph),
    ensures
        match branches_run(pattern, i, children, graph, answers, at).0 {
            Outcome::Done(made) => plans_search_only(made, graph),
            _ => true,
        },
    decreases pattern, branches(pattern).len() - i,
{
    if pattern is Union && 0 <= i < branches(pattern).len() {
        lemma_branch_is_part(pattern, i);
        lemma_branch_stays(pattern, i);
        let branch = branches(pattern)[i];
        lemma_pattern_searches(branch, Plan::Init, graph, answers, at);
        let (outcome, next) = pattern_run(branch, Plan::Init, graph, answers, at);
        if let Outcome::Done(plan) = outcome {
            assert(plans_search_only(children.push(plan), graph));
            lemma_branches_search(pattern, i + 1, children.push(plan), graph, answers, next);
        }
    }
}

/// A pattern without a graph clause looks for quads in the graph around it.
pub proof fn lemma_pattern_searches<E>(
    pattern: GraphPattern,
    input: Plan,
    graph: Slot,
    answers: Answers<E>,
    at: Progress,
)
    requires
        pattern_stays(pattern),
        input.searches_only(graph),
    ensures
        match pattern_run(pattern, input, graph, answers, at).0 {
            Outcome::Done(plan) => plan.searches_only(graph),
            _ => true,
        },
    decreases pattern, branches(pattern).len() + 1,
{
    match pattern {
        GraphPattern::BGP(patterns) => {
            lemma_joins_stay(join_order(patterns@, set![]), 0, input, graph, answers, at);
        },
        GraphPattern::Join(a, b) | GraphPattern::Minus(a, b) => {
            lemma_pattern_searches(*a, input, graph, answers, at);
            let at1 = pattern_run(*a, input, graph, answers, at).1;
            lemma_pattern_searches(*b, input, graph, answers, at1);
        },
        GraphPattern::LeftJoin(a, b, e) => {
            lemma_pattern_searches(*a, input, graph, answers, at);
            let at1 = pattern_run(*a, input, graph, answers, at).1;
            lemma_pattern_searches(*b, Plan::Init, graph, answers, at1);
            let (outcome, at2) = pattern_run(*b, Plan::Init, graph, answers, at1);
            lemma_expression_searches(e, graph, answers, at2);
            if let Outcome::Done(right) = outcome {
                if let Outcome::Done(expression) = expression_run(e, graph, answers, at2).0 {
                    let filtered = Plan::Filter { child: Box::new(right), expression };
                    assert(filtered.searches_only(graph));
                }
            }
        },
        GraphPattern::Filter(e, p) => {
            lemma_pattern_searches(*p, input, graph, answers, at);
            let at1 = pattern_run(*p, input, graph, answers, at).1;
            lemma_expression_searches(e, graph, answers, at1);
        },
        GraphPattern::Union(_, _) => {
            lemma_branches_search(pattern, 0, seq![], graph, answers, at);
        },
        GraphPattern::Graph(_, _) => {},
        GraphPattern::Extend(p, v, e) => {
            lemma_pattern_searches(*p, input, graph, answers, at);
            let at1 = pattern_run(*p, input, graph, answers, at).1;
            lemma_expression_searches(e, graph, answers, at1.met(v));
        },
        GraphPattern::Service(_, _, _) => {},
        GraphPattern::AggregateJoin(_, _) => {},
        GraphPattern::Data(_) => {},
        GraphPattern::OrderBy(p, order) => {
            lemma_comparators_search(order@, 0, seq![], graph, answers, at);
            let at1 = comparators_run(order@, 0, seq![], graph, answers, at).1;
            lemma_pattern_searches(*p, input, graph, answers, at1);
        },
        GraphPattern::Project(p, variables) => {
            let inside = at.with_variables(names(variables@));
            lemma_pattern_searches(*p, input, graph, answers, inside);
        },
        GraphPattern::Distinct(p) | GraphPattern::Reduced(p) => {
            lemma_pattern_searches(*p, input, graph, answers, at);
        },
        GraphPattern::Slice(p, start, _) => {
            lemma_pattern_searches(*p, input, graph, answers, at);
            if let Outcome::Done(plan) = pattern_run(*p, input, graph, answers, at).0 {
                assert(sliced(plan, start as nat, None).searches_only(graph));
            }
        },
    }
}

/// A query without a graph clause looks for quads in the default graph alone.
pub proof fn lemma_query_searches_default_graph<E>(pattern: GraphPattern, answers: Answers<E>)
    requires
        pattern_stays(pattern),
    ensures
        match query_run(pattern, answers).0 {
            Outcome::Done(plan) => plan.searches_only(Slot::Constant(EncodedTerm::DefaultGraph)),
            _ => true,
        },
{
    let graph = Slot::Constant(EncodedTerm::DefaultGraph);
    lemma_pattern_searches(pattern, Plan::Init, graph, answers, outset(seq![]));
}

} // verus!
