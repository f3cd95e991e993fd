//! The store's errors are passed on, and no others are made up.
use crate::algebra::{
    Expression, GraphPattern, NamedNodeOrVariable, OrderComparator, StaticBindings, TermOrVariable,
    TripleOrPathPattern, TriplePattern,
};
use crate::error::{Failure, Outcome};
use crate::expression::{lemma_operand_is_part, operands, rejection};
use crate::laws::growth::{group_runs_grow, lemma_keys_grow};
use crate::model::{names, Term, Variable};
use crate::ordering::join_order;
use crate::plan::{Formula, Plan, Slot, SortKey};
use crate::semantics::{
    ask, blank_tuple, branches, branches_run, comparator_run, comparators_run, end_run,
    expression_run, joins_run, lemma_branch_is_part, middle_run, operands_run, pattern_run, row_run,
    rows_run, triple_run, Progress,
};
use crate::store::{all_codes, group_answers, has_error, Answers, EncodedTerm, Question};
use vstd::prelude::*;

verus! {

broadcast use {group_answers, group_runs_grow};

/// Whether a run that ends thus passes on what the store answered it: it has a result only if
/// every answer was a code, and a store's error only if that was an answer.
pub open spec fn passes_on<T, E>(
    outcome: Outcome<T, E>,
    answers: Answers<E>,
    at: Progress,
    next: Progress,
) -> bool {
    match outcome {
        Outcome::Done(_) => all_codes(answers, at.asked.len(), next.asked.len()),
        Outcome::Failed(Failure::Store(error)) => has_error(
            answers,
            at.asked.len(),
            next.asked.len(),
            error,
        ),
        _ => true,
    }
}

proof fn lemma_ask_passes_on<E>(
    question: Question,
    answers: Answers<E>,
    at: Progress,
)
    ensures
        passes_on(
            ask(question, answers, at).0,
            answers,
            at,
            ask(question, answers, at).1,
        ),
{
    reveal(all_codes);
    reveal(has_error);
}

proof fn lemma_end_passes_on<E>(
    end: TermOrVariable,
    answers: Answers<E>,
    at: Progress,
)
    ensures
        passes_on(
            end_run(end, answers, at).0,
            answers,
            at,
            end_run(end, answers, at).1,
        ),
{
    if let TermOrVariable::Term(term) = end {
        lemma_ask_passes_on(Question::Term(term), answers, at);
    }
}

proof fn lemma_middle_passes_on<E>(
    middle: NamedNodeOrVariable,
    answers: Answers<E>,
    at: Progress,
)
    ensures
        passes_on(
            middle_run(middle, answers, at).0,
            answers,
            at,
            middle_run(middle, answers, at).1,
        ),
{
    if let NamedNodeOrVariable::NamedNode(node) = middle {
        lemma_ask_passes_on(Question::NamedNode(node), answers, at);
    }
}

proof fn lemma_triple_passes_on<E>(
    triple: TriplePattern,
    input: Plan,
    graph: Slot,
    answers: Answers<E>,
    at: Progress,
)
    ensures
        passes_on(
            triple_run(triple, input, graph, answers, at).0,
            answers,
            at,
            triple_run(triple, input, graph, answers, at).1,
        ),
{
    lemma_end_passes_on(triple.subject, answers, at);
    let at1 = end_run(triple.subject, answers, at).1;
    lemma_middle_passes_on(triple.predicate, answers, at1);
    let at2 = middle_run(triple.predicate, answers, at1).1;
    lemma_end_passes_on(triple.object, answers, at2);
}

proof fn lemma_joins_pass_on<E>(
    patterns: Seq<TripleOrPathPattern>,
    i: int,
    input: Plan,
    graph: Slot,
    answers: Answers<E>,
    at: Progress,
)
    ensures
        passes_on(
            joins_run(patterns, i, input, graph, answers, at).0,
            answers,
            at,
            joins_run(patterns, i, input, graph, answers, at).1,
        ),
    decreases patterns.len() - i,
{
    if 0 <= i < patterns.len() {
        if let TripleOrPathPattern::Triple(triple) = patterns[i] {
            lemma_triple_passes_on(triple, input, graph, answers, at);
            let (outcome, next) = triple_run(triple, input, graph, answers, at);
            if let Outcome::Done(plan) = outcome {
                lemma_joins_pass_on(patterns, i + 1, plan, graph, answers, next);
            }
        }
    }
}

proof fn lemma_row_passes_on<E>(
    variables: Seq<Variable>,
    row: Seq<Option<Term>>,
    i: int,
    tuple: Seq<Option<EncodedTerm>>,
    answers: Answers<E>,
    at: Progress,
)
    ensures
        passes_on(
            row_run(variables, row, i, tuple, answers, at).0,
            answers,
            at,
            row_run(variables, row, i, tuple, answers, at).1,
        ),
    decreases row.len() - i,
{
    if 0 <= i < row.len() {
        match row[i] {
            Some(term) => {
                lemma_ask_passes_on(Question::Term(term), answers, at);
                let (outcome, next) = ask(Question::Term(term), answers, at);
                if outcome is Done && i < variables.len() {
                    let key = next.key(variables[i]);
                    if key < tuple.len() {
                        let filled = tuple.update(key as int, Some(outcome->Done_0));
                        lemma_row_passes_on(
                            variables,
                            row,
                            i + 1,
                            filled,
                            answers,
                            next.met(variables[i]),
                        );
                    }
                }
            },
            None => {
                lemma_row_passes_on(variables, row, i + 1, tuple, answers, at);
            },
        }
    }
}

proof fn lemma_rows_pass_on<E>(
    bindings: StaticBindings,
    i: int,
    tuples: Seq<Seq<Option<EncodedTerm>>>,
    answers: Answers<E>,
    at: Progress,
)
    ensures
        passes_on(
            rows_run(bindings, i, tuples, answers, at).0,
            answers,
            at,
            rows_run(bindings, i, tuples, answers, at).1,
        ),
    decreases bindings.values@.len() - i,
{
    if 0 <= i < bindings.values@.len() {
        let blank = blank_tuple(at.variables.len());
        let row = bindings.values@[i]@;
        lemma_row_passes_on(bindings.variables@, row, 0, blank, answers, at);
        let (outcome, next) = row_run(bindings.variables@, row, 0, blank, answers, at);
        if let Outcome::Done(tuple) = outcome {
            lemma_rows_pass_on(bindings, i + 1, tuples.push(tuple), answers, next);
        }
    }
}

/// Planning an expression passes on what the store answers.
pub proof fn lemma_expression_passes_on<E>(
    expression: Expression,
    graph: Slot,
    answers: Answers<E>,
    at: Progress,
)
    ensures
        passes_on(
            expression_run(expression, graph, answers, at).0,
            answers,
            at,
            expression_run(expression, graph, answers, at).1,
        ),
    decreases expression, operands(expression).len() + 1,
{
    match expression {
        Expression::Constant(TermOrVariable::Term(term)) => {
            lemma_ask_passes_on(Question::Term(term), answers, at);
        },
        Expression::Constant(TermOrVariable::Variable(_)) => {},
        Expression::Bound(_) => {},
        Expression::Exists(pattern) => {
            lemma_pattern_passes_on(*pattern, Plan::Init, graph, answers, at);
        },
        _ => {
            if rejection::<E>(expression) is None {
                lemma_operands_pass_on(expression, 0, seq![], graph, answers, at);
            }
        },
    }
}

proof fn lemma_operands_pass_on<E>(
    expression: Expression,
    i: int,
    parts: Seq<Formula>,
    graph: Slot,
    answers: Answers<E>,
    at: Progress,
)
    ensures
        passes_on(
            operands_run(expression, i, parts, graph, answers, at).0,
            answers,
            at,
            operands_run(expression, i, parts, graph, answers, at).1,
        ),
    decreases expression, operands(expression).len() - i,
{
    if 0 <= i < operands(expression).len() {
        lemma_operand_is_part(expression, i);
        lemma_expression_passes_on(operands(expression)[i], graph, answers, at);
        let (outcome, next) = expression_run(operands(expression)[i], graph, answers, at);
        if let Outcome::Done(part) = outcome {
            lemma_operands_pass_on(expression, i + 1, parts.push(part), graph, answers, next);
        }
    }
}

proof fn lemma_comparator_passes_on<E>(
    comparator: OrderComparator,
    graph: Slot,
    answers: Answers<E>,
    at: Progress,
)
    ensures
        passes_on(
            comparator_run(comparator, graph, answers, at).0,
            answers,
            at,
            comparator_run(comparator, graph, answers, at).1,
        ),
    decreases comparator, 0int,
{
    match comparator {
        OrderComparator::Asc(e) | OrderComparator::Desc(e) => {
            lemma_expression_passes_on(e, graph, answers, at);
        },
    }
}

proof fn lemma_comparators_pass_on<E>(
    comparators: Seq<OrderComparator>,
    i: int,
    keys: Seq<SortKey>,
    graph: Slot,
    answers: Answers<E>,
    at: Progress,
)
    ensures
        passes_on(
            comparators_run(comparators, i, keys, graph, answers, at).0,
            answers,
            at,
            comparators_run(comparators, i, keys, graph, answers, at).1,
        ),
    decreases comparators, comparators.len() - i,
{
    if 0 <= i < comparators.len() {
        lemma_comparator_passes_on(comparators[i], graph, answers, at);
        let (outcome, next) = comparator_run(comparators[i], graph, answers, at);
        if let Outcome::Done(key) = outcome {
            lemma_comparators_pass_on(comparators, i + 1, keys.push(key), graph, answers, next);
        }
    }
}

proof fn lemma_branches_pass_on<E>(
    pattern: GraphPattern,
    i: int,
    children: Seq<Plan>,
    graph: Slot,
    answers: Answers<E>,
    at: Progress,
)
    ensures
        passes_on(
            branches_run(pattern, i, children, graph, answers, at).0,
            answers,
            at,
            branches_run(pattern, i, children, graph, answers, at).1,
        ),
    decreases pattern, branches(pattern).len() - i,
{
    if pattern is Union && 0 <= i < branches(pattern).len() {
        lemma_branch_is_part(pattern, i);
        let branch = branches(pattern)[i];
        lemma_pattern_passes_on(branch, Plan::Init, graph, answers, at);
        let (outcome, next) = pattern_run(branch, Plan::Init, graph, answers, at);
        if let Outcome::Done(plan) = outcome {
            lemma_branches_pass_on(pattern, i + 1, children.push(plan), graph, answers, next);
        }
    }
}

/// Planning a pattern passes on what the store answers.
pub proof fn lemma_pattern_passes_on<E>(
    pattern: GraphPattern,
    input: Plan,
    graph: Slot,
    answers: Answers<E>,
    at: Progress,
)
    ensures
        passes_on(
            pattern_run(pattern, input, graph, answers, at).0,
            answers,
            at,
            pattern_run(pattern, input, graph, answers, at).1,
        ),
    decreases pattern, branches(pattern).len() + 1,
{
    match pattern {
        GraphPattern::BGP(patterns) => {
            lemma_joins_pass_on(join_order(patterns@, set![]), 0, input, graph, answers, at);
        },
        GraphPattern::Join(a, b) | GraphPattern::Minus(a, b) => {
            lemma_pattern_passes_on(*a, input, graph, answers, at);
            let at1 = pattern_run(*a, input, graph, answers, at).1;
            lemma_pattern_passes_on(*b, input, graph, answers, at1);
        },
        GraphPattern::LeftJoin(a, b, e) => {
            lemma_pattern_passes_on(*a, input, graph, answers, at);
            let at1 = pattern_run(*a, input, graph, answers, at).1;
            lemma_pattern_passes_on(*b, Plan::Init, graph, answers, at1);
            let at2 = pattern_run(*b, Plan::Init, graph, answers, at1).1;
            lemma_expression_passes_on(e, graph, answers, at2);
        },
        GraphPattern::Filter(e, p) => {
            lemma_pattern_passes_on(*p, input, graph, answers, at);
            let at1 = pattern_run(*p, input, graph, answers, at).1;
            lemma_expression_passes_on(e, graph, answers, at1);
        },
        GraphPattern::Union(_, _) => {
            lemma_branches_pass_on(pattern, 0, seq![], graph, answers, at);
        },
        GraphPattern::Graph(name, p) => {
            lemma_middle_passes_on(name, answers, at);
            let (outcome, at1) = middle_run(name, answers, at);
            if let Outcome::Done(named) = outcome {
                lemma_pattern_passes_on(*p, input, named, answers, at1);
            }
        },
        GraphPattern::Extend(p, v, e) => {
            lemma_pattern_passes_on(*p, input, graph, answers, at);
            let at1 = pattern_run(*p, input, graph, answers, at).1;
            lemma_expression_passes_on(e, graph, answers, at1.met(v));
        },
        GraphPattern::Service(_, _, _) => {},
        GraphPattern::AggregateJoin(_, _) => {},
        GraphPattern::Data(bindings) => {
            lemma_rows_pass_on(bindings, 0, seq![], answers, at);
        },
        GraphPattern::OrderBy(p, order) => {
            lemma_comparators_pass_on(order@, 0, seq![], graph, answers, at);
            let at1 = comparators_run(order@, 0, seq![], graph, answers, at).1;
            lemma_pattern_passes_on(*p, input, graph, answers, at1);
        },
        GraphPattern::Project(p, variables) => {
            let inside = at.with_variables(names(variables@));
            lemma_pattern_passes_on(*p, input, graph, answers, inside);
            let inner = pattern_run(*p, input, graph, answers, inside).1;
            lemma_keys_grow(variables@, 0, seq![], inner.with_variables(at.variables));
        },
        GraphPattern::Distinct(p) | GraphPattern::Reduced(p) | GraphPattern::Slice(p, _, _) => {
            lemma_pattern_passes_on(*p, input, graph, answers, at);
        },
    }
}

} // verus!
