//! The positions in a plan are those of numbered variables.
use crate::algebra::{
    Expression, GraphPattern, NamedNodeOrVariable, OrderComparator, StaticBindings, TermOrVariable,
    TripleOrPathPattern, TriplePattern,
};
use crate::error::Outcome;
use crate::expression::{applied, lemma_operand_is_part, operands, rejection};
use crate::laws::growth::{
    begins_with, group_runs_grow, grows, lemma_branches_grow, lemma_comparators_grow,
    lemma_expression_grows, lemma_joins_grow, lemma_keys_grow, lemma_operands_grow,
    lemma_pattern_grows, lemma_rows_grow,
};
use crate::laws::scope::{
    all_in, covers, first_positions, formulas_within, lemma_only_right, lemma_plan_mentions_within,
    plans_within, sort_keys_within, tuples_within,
};
use crate::model::{names, Term, Variable};
use crate::numbering::lemma_key_is_first_place;
use crate::ordering::join_order;
use crate::plan::{Formula, Plan, Slot, SortKey};
use crate::semantics::{
    ask, blank_tuple, branches, branches_run, comparator_run, comparators_run, end_run,
    expression_run, joins_run, keys_run, lemma_branch_is_part, middle_run, only_right, operands_run,
    pattern_run, row_run, rows_run, sliced, triple_run, Progress,
};
use crate::store::{Answers, EncodedTerm, Question};
use vstd::prelude::*;

verus! {

broadcast use group_runs_grow;

/// The key of a variable is below the length of the numbering once the variable was met.
proof fn lemma_key_in_scope(at: Progress, v: Variable)
    ensures
        at.key(v) < at.met(v).variables.len(),
{
    lemma_key_is_first_place(at.variables, v@);
}

proof fn lemma_end_in_scope<E>(
    end: TermOrVariable,
    answers: Answers<E>,
    at: Progress,
    scope: Set<nat>,
)
    requires
        covers(scope, end_run(end, answers, at).1.variables.len()),
    ensures
        match end_run(end, answers, at).0 {
            Outcome::Done(slot) => slot.within(scope),
            _ => true,
        },
{
    if let TermOrVariable::Variable(v) = end {
        lemma_key_in_scope(at, v);
    }
}

proof fn lemma_middle_in_scope<E>(
    middle: NamedNodeOrVariable,
    answers: Answers<E>,
    at: Progress,
    scope: Set<nat>,
)
    requires
        covers(scope, middle_run(middle, answers, at).1.variables.len()),
    ensures
        match middle_run(middle, answers, at).0 {
            Outcome::Done(slot) => slot.within(scope),
            _ => true,
        },
{
    if let NamedNodeOrVariable::Variable(v) = middle {
        lemma_key_in_scope(at, v);
    }
}

proof fn lemma_triple_in_scope<E>(
    triple: TriplePattern,
    input: Plan,
    graph: Slot,
    answers: Answers<E>,
    at: Progress,
    scope: Set<nat>,
)
    requires
        input.within(scope),
        graph.within(scope),
        covers(scope, triple_run(triple, input, graph, answers, at).1.variables.len()),
    ensures
        match triple_run(triple, input, graph, answers, at).0 {
            Outcome::Done(plan) => plan.within(scope),
            _ => true,
        },
{
    let (subject, at1) = end_run(triple.subject, answers, at);
    let (predicate, at2) = middle_run(triple.predicate, answers, at1);
    let (object, at3) = end_run(triple.object, answers, at2);
    if subject is Done && predicate is Done && object is Done {
        lemma_end_in_scope(triple.subject, answers, at, scope);
        lemma_middle_in_scope(triple.predicate, answers, at1, scope);
        lemma_end_in_scope(triple.object, answers, at2, scope);
    }
}

proof fn lemma_joins_in_scope<E>(
    patterns: Seq<TripleOrPathPattern>,
    i: int,
    input: Plan,
    graph: Slot,
    answers: Answers<E>,
    at: Progress,
    scope: Set<nat>,
)
    requires
        input.within(scope),
        graph.within(scope),
        covers(scope, joins_run(patterns, i, input, graph, answers, at).1.variables.len()),
    ensures
        match joins_run(patterns, i, input, graph, answers, at).0 {
            Outcome::Done(plan) => plan.within(scope),
            _ => true,
        },
    decreases patterns.len() - i,
{
    if 0 <= i < patterns.len() {
        if let TripleOrPathPattern::Triple(triple) = patterns[i] {
            let (outcome, next) = triple_run(triple, input, graph, answers, at);
            if let Outcome::Done(plan) = outcome {
                lemma_joins_grow(patterns, i + 1, plan, graph, answers, next);
                lemma_triple_in_scope(triple, input, graph, answers, at, scope);
                lemma_joins_in_scope(patterns, i + 1, plan, graph, answers, next, scope);
            }
        }
    }
}

/// A row fills a tuple without changing its width.
proof fn lemma_row_width<E>(
    variables: Seq<Variable>,
    row: Seq<Option<Term>>,
    i: int,
    tuple: Seq<Option<EncodedTerm>>,
    answers: Answers<E>,
    at: Progress,
)
    ensures
        match row_run(variables, row, i, tuple, answers, at).0 {
            Outcome::Done(made) => made.len() == tuple.len(),
            _ => true,
        },
    decreases row.len() - i,
{
    if 0 <= i < row.len() {
        match row[i] {
            Some(term) => {
                let (outcome, next) = ask(Question::Term(term), answers, at);
                if outcome is Done && i < variables.len() {
                    let met = next.met(variables[i]);
                    let key = next.key(variables[i]);
                    if key < tuple.len() {
                        let filled = tuple.update(key as int, Some(outcome->Done_0));
                        lemma_row_width(variables, row, i + 1, filled, answers, met);
                    }
                }
            },
            None => {
                lemma_row_width(variables, row, i + 1, tuple, answers, at);
            },
        }
    }
}

proof fn lemma_rows_in_scope<E>(
    bindings: StaticBindings,
    i: int,
    tuples: Seq<Seq<Option<EncodedTerm>>>,
    answers: Answers<E>,
    at: Progress,
    scope: Set<nat>,
)
    requires
        tuples_within(tuples, scope),
        covers(scope, rows_run(bindings, i, tuples, answers, at).1.variables.len()),
    ensures
        match rows_run(bindings, i, tuples, answers, at).0 {
            Outcome::Done(made) => tuples_within(made, scope),
            _ => true,
        },
    decreases bindings.values@.len() - i,
{
    if 0 <= i < bindings.values@.len() {
        let blank = blank_tuple(at.variables.len());
        let row = bindings.values@[i]@;
        lemma_row_width(bindings.variables@, row, 0, blank, answers, at);
        let (outcome, next) = row_run(bindings.variables@, row, 0, blank, answers, at);
        if let Outcome::Done(tuple) = outcome {
            lemma_rows_grow(bindings, i + 1, tuples.push(tuple), answers, next);
            lemma_rows_in_scope(bindings, i + 1, tuples.push(tuple), answers, next, scope);
        }
    }
}

proof fn lemma_keys_in_scope(
    variables: Seq<Variable>,
    i: int,
    keys: Seq<nat>,
    at: Progress,
    scope: Set<nat>,
)
    requires
        all_in(keys, scope),
        covers(scope, keys_run(variables, i, keys, at).1.variables.len()),
    ensures
        all_in(keys_run(variables, i, keys, at).0, scope),
    decreases variables.len() - i,
{
    if 0 <= i < variables.len() {
        lemma_key_in_scope(at, variables[i]);
        let met = at.met(variables[i]);
        let more = keys.push(at.key(variables[i]));
        lemma_keys_grow(variables, i + 1, more, met);
        lemma_keys_in_scope(variables, i + 1, more, met, scope);
    }
}

proof fn lemma_applied_in_scope(expression: Expression, parts: Seq<Formula>, scope: Set<nat>)
    requires
        operands(expression).len() > 0 || expression is FunctionCall,
        formulas_within(parts, scope),
    ensures
        applied(expression, parts).within(scope),
{
    if expression is NotIn {
        let inner = applied(expression, parts)->Apply_1;
        assert(inner[0].within(scope));
        assert(formulas_within(inner, scope));
    }
}

/// The positions in a planned expression are those of variables that are numbered once it is
/// planned, and of the graph around it.
pub proof fn lemma_expression_in_scope<E>(
    expression: Expression,
    graph: Slot,
    answers: Answers<E>,
    at: Progress,
    scope: Set<nat>,
)
    requires
        graph.within(scope),
        covers(scope, expression_run(expression, graph, answers, at).1.variables.len()),
    ensures
        match expression_run(expression, graph, answers, at).0 {
            Outcome::Done(formula) => formula.within(scope),
            _ => true,
        },
    decreases expression, operands(expression).len() + 1,
{
    match expression {
        Expression::Constant(TermOrVariable::Term(_)) => {},
        Expression::Constant(TermOrVariable::Variable(v)) => {
            lemma_key_in_scope(at, v);
        },
        Expression::Bound(v) => {
            lemma_key_in_scope(at, v);
        },
        Expression::Exists(pattern) => {
            lemma_pattern_in_scope(*pattern, Plan::Init, graph, answers, at, scope);
        },
        _ => {
            if rejection::<E>(expression) is None {
                lemma_operands_in_scope(expression, 0, seq![], graph, answers, at, scope);
                let outcome = operands_run(expression, 0, seq![], graph, answers, at).0;
                if let Outcome::Done(parts) = outcome {
                    lemma_applied_in_scope(expression, parts, scope);
                }
            }
        },
    }
}

proof fn lemma_operands_in_scope<E>(
    expression: Expression,
    i: int,
    parts: Seq<Formula>,
    graph: Slot,
    answers: Answers<E>,
    at: Progress,
    scope: Set<nat>,
)
    requires
        formulas_within(parts, scope),
        graph.within(scope),
        covers(scope, operands_run(expression, i, parts, graph, answers, at).1.variables.len()),
    ensures
        match operands_run(expression, i, parts, graph, answers, at).0 {
            Outcome::Done(made) => formulas_within(made, scope),
            _ => true,
        },
    decreases expression, operands(expression).len() - i,
{
    if 0 <= i < operands(expression).len() {
        lemma_operand_is_part(expression, i);
        let operand = operands(expression)[i];
        let (outcome, next) = expression_run(operand, graph, answers, at);
        if let Outcome::Done(part) = outcome {
            let more = parts.push(part);
            lemma_operands_grow(expression, i + 1, more, graph, answers, next);
            lemma_expression_in_scope(operand, graph, answers, at, scope);
            assert(formulas_within(more, scope));
            lemma_operands_in_scope(expression, i + 1, more, graph, answers, next, scope);
        }
    }
}

proof fn lemma_comparator_in_scope<E>(
    comparator: OrderComparator,
    graph: Slot,
    answers: Answers<E>,
    at: Progress,
    scope: Set<nat>,
)
    requires
        graph.within(scope),
        covers(scope, comparator_run(comparator, graph, answers, at).1.variables.len()),
    ensures
        match comparator_run(comparator, graph, answers, at).0 {
            Outcome::Done(key) => key.within(scope),
            _ => true,
        },
    decreases comparator, 0int,
{
    match comparator {
        OrderComparator::Asc(e) | OrderComparator::Desc(e) => {
            lemma_expression_in_scope(e, graph, answers, at, scope);
        },
    }
}

proof fn lemma_comparators_in_scope<E>(
    comparators: Seq<OrderComparator>,
    i: int,
    keys: Seq<SortKey>,
    graph: Slot,
    answers: Answers<E>,
    at: Progress,
    scope: Set<nat>,
)
    requires
        sort_keys_within(keys, scope),
        graph.within(scope),
        covers(scope, comparators_run(comparators, i, keys, graph, answers, at).1.variables.len()),
    ensures
        match comparators_run(comparators, i, keys, graph, answers, at).0 {
            Outcome::Done(made) => sort_keys_within(made, scope),
            _ => true,
        },
    decreases comparators, comparators.len() - i,
{
    if 0 <= i < comparators.len() {
        let (outcome, next) = comparator_run(comparators[i], graph, answers, at);
        if let Outcome::Done(key) = outcome {
            let more = keys.push(key);
            lemma_comparators_grow(comparators, i + 1, more, graph, answers, next);
            lemma_comparator_in_scope(comparators[i], graph, answers, at, scope);
            assert(sort_keys_within(more, scope));
            lemma_comparators_in_scope(comparators, i + 1, more, graph, answers, next, scope);
        }
    }
}

proof fn lemma_branches_in_scope<E>(
    pattern: GraphPattern,
    i: int,
    children: Seq<Plan>,
    graph: Slot,
    answers: Answers<E>,
    at: Progress,
    scope: Set<nat>,
)
    requires
        plans_within(children, scope),
        graph.within(scope),
        covers(scope, branches_run(pattern, i, children, graph, answers, at).1.variables.len()),
    ensures
        match branches_run(pattern, i, children, graph, answers, at).0 {
            Outcome::Done(made) => plans_within(made, scope),
            _ => true,
        },
    decreases pattern, branches(pattern).len() - i,
{
    if pattern is Union && 0 <= i < branches(pattern).len() {
        lemma_branch_is_part(pattern, i);
        let branch = branches(pattern)[i];
        let (outcome, next) = pattern_run(branch, Plan::Init, graph, answers, at);
        if let Outcome::Done(plan) = outcome {
            let more = children.push(plan);
            lemma_branches_grow(pattern, i + 1, more, graph, answers, next);
            lemma_pattern_in_scope(branch, Plan::Init, graph, answers, at, scope);
            assert(plans_within(more, scope));
            lemma_branches_in_scope(pattern, i + 1, more, graph, answers, next, scope);
        }
    }
}

/// The positions in a plan are those of variables that are numbered once it is made, of what it
/// starts from and of the graph around it.
pub proof fn lemma_pattern_in_scope<E>(
    pattern: GraphPattern,
    input: Plan,
    graph: Slot,
    answers: Answers<E>,
    at: Progress,
    scope: Set<nat>,
)
    requires
        input.within(scope),
        graph.within(scope),
        covers(scope, pattern_run(pattern, input, graph, answers, at).1.variables.len()),
    ensures
        match pattern_run(pattern, input, graph, answers, at).0 {
            Outcome::Done(plan) => plan.within(scope),
            _ => true,
        },
    decreases pattern, branches(pattern).len() + 1,
{
    match pattern {
        GraphPattern::BGP(patterns) => {
            let order = join_order(patterns@, set![]);
            lemma_joins_in_scope(order, 0, input, graph, answers, at, scope);
        },
        GraphPattern::Join(a, b) | GraphPattern::Minus(a, b) => {
            let (left, at1) = pattern_run(*a, input, graph, answers, at);
            if left is Done {
                lemma_pattern_grows(*b, input, graph, answers, at1);
                lemma_pattern_in_scope(*a, input, graph, answers, at, scope);
                lemma_pattern_in_scope(*b, input, graph, answers, at1, scope);
            }
        },
        GraphPattern::LeftJoin(a, b, e) => {
            lemma_left_join_in_scope(pattern, input, graph, answers, at, scope);
        },
        GraphPattern::Filter(e, p) => {
            let (child, at1) = pattern_run(*p, input, graph, answers, at);
            if child is Done {
                lemma_expression_grows(e, graph, answers, at1);
                lemma_pattern_in_scope(*p, input, graph, answers, at, scope);
                lemma_expression_in_scope(e, graph, answers, at1, scope);
            }
        },
        GraphPattern::Union(_, _) => {
            lemma_branches_in_scope(pattern, 0, seq![], graph, answers, at, scope);
        },
        GraphPattern::Graph(name, p) => {
            let (outcome, at1) = middle_run(name, answers, at);
            if let Outcome::Done(named) = outcome {
                lemma_pattern_grows(*p, input, named, answers, at1);
                lemma_middle_in_scope(name, answers, at, scope);
                lemma_pattern_in_scope(*p, input, named, answers, at1, scope);
            }
        },
        GraphPattern::Extend(p, v, e) => {
            let (child, at1) = pattern_run(*p, input, graph, answers, at);
            if child is Done {
                lemma_key_in_scope(at1, v);
                assert(grows(at1, at1.met(v)));
                lemma_expression_grows(e, graph, answers, at1.met(v));
                lemma_pattern_in_scope(*p, input, graph, answers, at, scope);
                lemma_expression_in_scope(e, graph, answers, at1.met(v), scope);
            }
        },
        GraphPattern::Service(_, _, _) => {},
        GraphPattern::AggregateJoin(_, _) => {},
        GraphPattern::Data(bindings) => {
            lemma_rows_in_scope(bindings, 0, seq![], answers, at, scope);
        },
        GraphPattern::OrderBy(p, order) => {
            let (sorting, at1) = comparators_run(order@, 0, seq![], graph, answers, at);
            if sorting is Done {
                lemma_pattern_grows(*p, input, graph, answers, at1);
                lemma_comparators_in_scope(order@, 0, seq![], graph, answers, at, scope);
                lemma_pattern_in_scope(*p, input, graph, answers, at1, scope);
            }
        },
        GraphPattern::Project(p, variables) => {
            let inside = at.with_variables(names(variables@));
            let (child, inner) = pattern_run(*p, input, graph, answers, inside);
            if child is Done {
                let back = inner.with_variables(at.variables);
                lemma_keys_in_scope(variables@, 0, seq![], back, scope);
            }
        },
        GraphPattern::Distinct(p) | GraphPattern::Reduced(p) => {
            lemma_pattern_in_scope(*p, input, graph, answers, at, scope);
        },
        GraphPattern::Slice(p, start, _) => {
            lemma_pattern_in_scope(*p, input, graph, answers, at, scope);
            if let Outcome::Done(plan) = pattern_run(*p, input, graph, answers, at).0 {
                assert(sliced(plan, start as nat, None).within(scope));
            }
        },
    }
}

proof fn lemma_left_join_in_scope<E>(
    pattern: GraphPattern,
    input: Plan,
    graph: Slot,
    answers: Answers<E>,
    at: Progress,
    scope: Set<nat>,
)
    requires
        pattern is LeftJoin,
        input.within(scope),
        graph.within(scope),
        covers(scope, pattern_run(pattern, input, graph, answers, at).1.variables.len()),
    ensures
        match pattern_run(pattern, input, graph, answers, at).0 {
            Outcome::Done(plan) => plan.within(scope),
            _ => true,
        },
    decreases pattern, branches(pattern).len(),
{
    if let GraphPattern::LeftJoin(a, b, e) = pattern {
        let (left, at1) = pattern_run(*a, input, graph, answers, at);
        let (right, at2) = pattern_run(*b, Plan::Init, graph, answers, at1);
        let (outcome, next) = pattern_run(pattern, input, graph, answers, at);
        if left is Done && right is Done {
            lemma_expression_grows(e, graph, answers, at2);
            assert(grows(at2, at2));
            lemma_pattern_in_scope(*a, input, graph, answers, at, scope);
            lemma_pattern_in_scope(*b, Plan::Init, graph, answers, at1, scope);
            if !e.is_literal_true() {
                lemma_expression_in_scope(e, graph, answers, at2, scope);
            }
            if let Outcome::Done(plan) = outcome {
                if let Plan::LeftJoin { left: l, right: r, .. } = plan {
                    assert(r.within(scope));
                    let below = only_right(*l, *r, next.variables.len());
                    lemma_only_right(*l, *r, next.variables.len());
                    assert forall|i: int| 0 <= i < below.len() implies scope.contains(
                        #[trigger] below[i],
                    ) by {
                        assert(below.contains(below[i]));
                        lemma_plan_mentions_within(*r, scope, below[i]);
                    }
                }
            }
        }
    }
}

/// What a projection is made of has a numbering of its own, which begins with the variables that
/// are projected. Its positions are those of that numbering, if the graph around the projection
/// is not at a position of the outer one.
pub proof fn lemma_projected_in_scope<E>(
    p: Box<GraphPattern>,
    variables: Vec<Variable>,
    graph: Slot,
    answers: Answers<E>,
    at: Progress,
)
    requires
        graph is Constant,
    ensures
        ({
            let pattern = GraphPattern::Project(p, variables);
            let inside = at.with_variables(names(variables@));
            let inner = pattern_run(*p, Plan::Init, graph, answers, inside).1.variables;
            match pattern_run(pattern, Plan::Init, graph, answers, at).0 {
                Outcome::Done(plan) => {
                    &&& plan matches Plan::Project { child, .. }
                    &&& child.within(first_positions(inner.len()))
                    &&& begins_with(inner, names(variables@))
                },
                _ => true,
            }
        }),
{
    let inside = at.with_variables(names(variables@));
    let inner = pattern_run(*p, Plan::Init, graph, answers, inside).1;
    let scope = first_positions(inner.variables.len());
    lemma_pattern_in_scope(*p, Plan::Init, graph, answers, inside, scope);
    reveal(grows);
    assert(grows(inside, inner));
}

/// The position at which a graph is named, if it is at one.
spec fn graph_positions(graph: Slot) -> Set<nat> {
    match graph {
        Slot::Constant(_) => set![],
        Slot::Variable(k) => set![k],
    }
}

/// The problem variables of a left join are the positions that its right side mentions and its
/// left side does not, in rising order and each once.
pub proof fn lemma_problem_variables<E>(
    pattern: GraphPattern,
    input: Plan,
    graph: Slot,
    answers: Answers<E>,
    at: Progress,
)
    requires
        pattern is LeftJoin,
    ensures
        match pattern_run(pattern, input, graph, answers, at).0 {
            Outcome::Done(plan) => {
                &&& plan matches Plan::LeftJoin { left, right, possible_problem_vars }
                &&& forall|k: nat| #[trigger]
                    possible_problem_vars.contains(k) <==> right.mentions(k) && !left.mentions(k)
                &&& forall|i: int, j: int|
                    0 <= i < j < possible_problem_vars.len() ==> possible_problem_vars[i]
                        < possible_problem_vars[j]
            },
            _ => true,
        },
{
    let (outcome, next) = pattern_run(pattern, input, graph, answers, at);
    if let GraphPattern::LeftJoin(a, b, e) = pattern {
        let (left, at1) = pattern_run(*a, input, graph, answers, at);
        let (right, at2) = pattern_run(*b, Plan::Init, graph, answers, at1);
        if let Outcome::Done(plan) = outcome {
            let width = next.variables.len();
            let scope = first_positions(width) + graph_positions(graph);
            lemma_expression_grows(e, graph, answers, at2);
            assert(grows(at2, at2));
            lemma_pattern_in_scope(*b, Plan::Init, graph, answers, at1, scope);
            if !e.is_literal_true() {
                lemma_expression_in_scope(e, graph, answers, at2, scope);
            }
            if let Plan::LeftJoin { left: l, right: r, possible_problem_vars } = plan {
                assert(r.within(scope));
                let below = only_right(*l, *r, width);
                lemma_only_right(*l, *r, width);
                assert forall|k: nat| #[trigger]
                    possible_problem_vars.contains(k) <==> r.mentions(k) && !l.mentions(k) by {
                    assert(below.contains(k) <==> k < width && r.mentions(k) && !l.mentions(k));
                    if r.mentions(k) {
                        lemma_plan_mentions_within(*r, scope, k);
                    }
                    if below.contains(k) {
                        let i = choose|i: int| 0 <= i < below.len() && below[i] == k;
                        assert(possible_problem_vars[i] == k);
                    }
                    if possible_problem_vars.len() > below.len() {
                        assert(possible_problem_vars[below.len() as int] == graph->Variable_0);
                    }
                    if possible_problem_vars.contains(k) && !below.contains(k) {
                        let i = choose|i: int|
                            0 <= i < possible_problem_vars.len() && possible_problem_vars[i] == k;
                        if i < below.len() {
                            assert(below[i] == k);
                        }
                    }
                }
                assert forall|i: int, j: int|
                    0 <= i < j < possible_problem_vars.len() implies possible_problem_vars[i]
                    < possible_problem_vars[j] by {
                    assert(below.contains(below[i]));
                }
            }
        }
    }
}

} // verus!
