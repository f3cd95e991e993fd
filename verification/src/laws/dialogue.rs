//! What planning makes of the store's answers: two runs part only where the store answers one
//! question in two ways.
use crate::algebra::{
    Expression, GraphPattern, NamedNodeOrVariable, OrderComparator, StaticBindings, TermOrVariable,
    TripleOrPathPattern, TriplePattern,
};
use crate::error::Outcome;
use crate::expression::{lemma_operand_is_part, operands, rejection};
use crate::laws::growth::{
    group_runs_grow, grows, lemma_branches_grow, lemma_comparators_grow, lemma_expression_grows,
    lemma_joins_grow, lemma_keys_grow, lemma_operands_grow, lemma_pattern_grows, lemma_row_grows,
    lemma_rows_grow,
};
use crate::model::{names, Term, Variable};
use crate::ordering::join_order;
use crate::plan::{Formula, Plan, Slot, SortKey};
use crate::semantics::{
    ask, blank_tuple, branches, branches_run, comparator_run, comparators_run, end_run,
    expression_run, joins_run, lemma_branch_is_part, middle_run, operands_run, pattern_run, row_run,
    rows_run, triple_run, Progress,
};
use crate::store::{Answers, EncodedTerm, Question};
use vstd::prelude::*;

verus! {

broadcast use group_runs_grow;

/// Whether two runs, with answers of their own, asked the same question at the same time and got
/// different answers.
#[verifier::opaque]
pub open spec fn parted<E>(
    first: Answers<E>,
    second: Answers<E>,
    first_end: Progress,
    second_end: Progress,
) -> bool {
    exists|i: int|
        {
            &&& 0 <= i < first_end.asked.len()
            &&& i < second_end.asked.len()
            &&& first_end.asked[i] == second_end.asked[i]
            &&& #[trigger] first(i) != second(i)
        }
}

/// Runs that have parted stay parted.
pub proof fn lemma_parted_later<E>(
    a: Answers<E>,
    b: Answers<E>,
    a_earlier: Progress,
    b_earlier: Progress,
    a_later: Progress,
    b_later: Progress,
)
    requires
        grows(a_earlier, a_later),
        grows(b_earlier, b_later),
    ensures
        parted(a, b, a_earlier, b_earlier) ==> parted(a, b, a_later, b_later),
{
    reveal(parted);
    reveal(grows);
    if parted(a, b, a_earlier, b_earlier) {
        let i = choose|i: int|
            {
                &&& 0 <= i < a_earlier.asked.len()
                &&& i < b_earlier.asked.len()
                &&& a_earlier.asked[i] == b_earlier.asked[i]
                &&& #[trigger] a(i) != b(i)
            };
        assert(a_later.asked[i] == a_earlier.asked[i]);
        assert(b_later.asked[i] == b_earlier.asked[i]);
        assert(a(i) != b(i));
    }
}

/// Asking the store twice comes to the same, or the store answered differently.
pub proof fn lemma_ask_parts<E>(
    question: Question,
    a: Answers<E>,
    b: Answers<E>,
    at: Progress,
)
    ensures
        ({
            let (a_outcome, a_end) = ask(question, a, at);
            let (b_outcome, b_end) = ask(question, b, at);
            (a_outcome == b_outcome && a_end == b_end) || parted(a, b, a_end, b_end)
        }),
{
    reveal(parted);
    let i = at.asked.len() as int;
    if a(i) != b(i) {
        assert(at.asking(question).asked[i] == question);
    }
}

proof fn lemma_end_parts<E>(
    end: TermOrVariable,
    a: Answers<E>,
    b: Answers<E>,
    at: Progress,
)
    ensures
        ({
            let (a_outcome, a_end) = end_run(end, a, at);
            let (b_outcome, b_end) = end_run(end, b, at);
            (a_outcome == b_outcome && a_end == b_end) || parted(a, b, a_end, b_end)
        }),
{
    if let TermOrVariable::Term(term) = end {
        lemma_ask_parts(Question::Term(term), a, b, at);
    }
}

proof fn lemma_middle_parts<E>(
    middle: NamedNodeOrVariable,
    a: Answers<E>,
    b: Answers<E>,
    at: Progress,
)
    ensures
        ({
            let (a_outcome, a_end) = middle_run(middle, a, at);
            let (b_outcome, b_end) = middle_run(middle, b, at);
            (a_outcome == b_outcome && a_end == b_end) || parted(a, b, a_end, b_end)
        }),
{
    if let NamedNodeOrVariable::NamedNode(node) = middle {
        lemma_ask_parts(Question::NamedNode(node), a, b, at);
    }
}

proof fn lemma_triple_parts<E>(
    triple: TriplePattern,
    input: Plan,
    graph: Slot,
    a: Answers<E>,
    b: Answers<E>,
    at: Progress,
)
    ensures
        ({
            let (a_outcome, a_end) = triple_run(triple, input, graph, a, at);
            let (b_outcome, b_end) = triple_run(triple, input, graph, b, at);
            (a_outcome == b_outcome && a_end == b_end) || parted(a, b, a_end, b_end)
        }),
{
    let a_end = triple_run(triple, input, graph, a, at).1;
    let b_end = triple_run(triple, input, graph, b, at).1;
    lemma_end_parts(triple.subject, a, b, at);
    let a1 = end_run(triple.subject, a, at).1;
    let b1 = end_run(triple.subject, b, at).1;
    lemma_parted_later(a, b, a1, b1, a_end, b_end);
    if !parted(a, b, a1, b1) && end_run(triple.subject, a, at).0 is Done {
        lemma_middle_parts(triple.predicate, a, b, a1);
        let a2 = middle_run(triple.predicate, a, a1).1;
        let b2 = middle_run(triple.predicate, b, a1).1;
        lemma_parted_later(a, b, a2, b2, a_end, b_end);
        if !parted(a, b, a2, b2) {
            lemma_end_parts(triple.object, a, b, a2);
        }
    }
}

proof fn lemma_after_join<E>(
    patterns: Seq<TripleOrPathPattern>,
    i: int,
    input: Plan,
    graph: Slot,
    answers: Answers<E>,
    at: Progress,
)
    requires
        0 <= i < patterns.len(),
        patterns[i] is Triple,
    ensures
        grows(
            triple_run(patterns[i]->Triple_0, input, graph, answers, at).1,
            joins_run(patterns, i, input, graph, answers, at).1,
        ),
{
    let (outcome, next) = triple_run(patterns[i]->Triple_0, input, graph, answers, at);
    if let Outcome::Done(plan) = outcome {
        lemma_joins_grow(patterns, i + 1, plan, graph, answers, next);
    }
}

proof fn lemma_after_value<E>(
    variables: Seq<Variable>,
    row: Seq<Option<Term>>,
    i: int,
    tuple: Seq<Option<EncodedTerm>>,
    answers: Answers<E>,
    at: Progress,
)
    requires
        0 <= i < row.len(),
        row[i] is Some,
    ensures
        grows(
            at.asking(Question::Term(row[i]->Some_0)),
            row_run(variables, row, i, tuple, answers, at).1,
        ),
{
    let (outcome, next) = ask(Question::Term(row[i]->Some_0), answers, at);
    if outcome is Done && i < variables.len() {
        let met = next.met(variables[i]);
        let key = next.key(variables[i]);
        assert(grows(next, met));
        if key < tuple.len() {
            let filled = tuple.update(key as int, Some(outcome->Done_0));
            lemma_row_grows(variables, row, i + 1, filled, answers, met);
        }
    }
}

proof fn lemma_after_row<E>(
    bindings: StaticBindings,
    i: int,
    tuples: Seq<Seq<Option<EncodedTerm>>>,
    answers: Answers<E>,
    at: Progress,
)
    requires
        0 <= i < bindings.values@.len(),
    ensures
        grows(
            row_run(
                bindings.variables@,
                bindings.values@[i]@,
                0,
                blank_tuple(at.variables.len()),
                answers,
                at,
            ).1,
            rows_run(bindings, i, tuples, answers, at).1,
        ),
{
    let blank = blank_tuple(at.variables.len());
    let row = bindings.values@[i]@;
    let (outcome, next) = row_run(bindings.variables@, row, 0, blank, answers, at);
    if let Outcome::Done(tuple) = outcome {
        lemma_rows_grow(bindings, i + 1, tuples.push(tuple), answers, next);
    }
}

proof fn lemma_after_operand<E>(
    expression: Expression,
    i: int,
    parts: Seq<Formula>,
    graph: Slot,
    answers: Answers<E>,
    at: Progress,
)
    requires
        0 <= i < operands(expression).len(),
    ensures
        grows(
            expression_run(operands(expression)[i], graph, answers, at).1,
            operands_run(expression, i, parts, graph, answers, at).1,
        ),
{
    let (outcome, next) = expression_run(operands(expression)[i], graph, answers, at);
    if let Outcome::Done(part) = outcome {
        lemma_operands_grow(expression, i + 1, parts.push(part), graph, answers, next);
    }
}

proof fn lemma_after_comparator<E>(
    comparators: Seq<OrderComparator>,
    i: int,
    keys: Seq<SortKey>,
    graph: Slot,
    answers: Answers<E>,
    at: Progress,
)
    requires
        0 <= i < comparators.len(),
    ensures
        grows(
            comparator_run(comparators[i], graph, answers, at).1,
            comparators_run(comparators, i, keys, graph, answers, at).1,
        ),
{
    let (outcome, next) = comparator_run(comparators[i], graph, answers, at);
    if let Outcome::Done(key) = outcome {
        lemma_comparators_grow(comparators, i + 1, keys.push(key), graph, answers, next);
    }
}

proof fn lemma_after_branch<E>(
    pattern: GraphPattern,
    i: int,
    children: Seq<Plan>,
    graph: Slot,
    answers: Answers<E>,
    at: Progress,
)
    requires
        pattern is Union,
        0 <= i < branches(pattern).len(),
    ensures
        grows(
            pattern_run(branches(pattern)[i], Plan::Init, graph, answers, at).1,
            branches_run(pattern, i, children, graph, answers, at).1,
        ),
{
    let (outcome, next) = pattern_run(branches(pattern)[i], Plan::Init, graph, answers, at);
    if let Outcome::Done(plan) = outcome {
        lemma_branches_grow(pattern, i + 1, children.push(plan), graph, answers, next);
    }
}

/// What is planned first in a pattern, where more is planned after it.
spec fn first_end<E>(
    pattern: GraphPattern,
    input: Plan,
    graph: Slot,
    answers: Answers<E>,
    at: Progress,
) -> Progress {
    match pattern {
        GraphPattern::Join(p, _) => pattern_run(*p, input, graph, answers, at).1,
        GraphPattern::Minus(p, _) => pattern_run(*p, input, graph, answers, at).1,
        GraphPattern::LeftJoin(p, _, _) => pattern_run(*p, input, graph, answers, at).1,
        GraphPattern::Filter(_, p) => pattern_run(*p, input, graph, answers, at).1,
        GraphPattern::Graph(name, _) => middle_run(name, answers, at).1,
        GraphPattern::Extend(p, _, _) => pattern_run(*p, input, graph, answers, at).1,
        GraphPattern::OrderBy(_, order) => comparators_run(
            order@,
            0,
            seq![],
            graph,
            answers,
            at,
        ).1,
        _ => at,
    }
}

proof fn lemma_after_first<E>(
    pattern: GraphPattern,
    input: Plan,
    graph: Slot,
    answers: Answers<E>,
    at: Progress,
)
    ensures
        grows(
            first_end(pattern, input, graph, answers, at),
            pattern_run(pattern, input, graph, answers, at).1,
        ),
{
    let next = first_end(pattern, input, graph, answers, at);
    match pattern {
        GraphPattern::Join(_, q) | GraphPattern::Minus(_, q) => {
            lemma_pattern_grows(*q, input, graph, answers, next);
        },
        GraphPattern::LeftJoin(_, q, e) => {
            lemma_pattern_grows(*q, Plan::Init, graph, answers, next);
            let later = pattern_run(*q, Plan::Init, graph, answers, next).1;
            lemma_expression_grows(e, graph, answers, later);
        },
        GraphPattern::Filter(e, _) => {
            lemma_expression_grows(e, graph, answers, next);
        },
        GraphPattern::Graph(name, p) => {
            if let Outcome::Done(named) = middle_run(name, answers, at).0 {
                lemma_pattern_grows(*p, input, named, answers, next);
            }
        },
        GraphPattern::Extend(_, v, e) => {
            assert(grows(next, next.met(v)));
            lemma_expression_grows(e, graph, answers, next.met(v));
        },
        GraphPattern::OrderBy(p, _) => {
            lemma_pattern_grows(*p, input, graph, answers, next);
        },
        _ => {
            lemma_pattern_grows(pattern, input, graph, answers, at);
        },
    }
}

proof fn lemma_joins_part<E>(
    patterns: Seq<TripleOrPathPattern>,
    i: int,
    input: Plan,
    graph: Slot,
    a: Answers<E>,
    b: Answers<E>,
    at: Progress,
)
    ensures
        ({
            let (a_outcome, a_end) = joins_run(patterns, i, input, graph, a, at);
            let (b_outcome, b_end) = joins_run(patterns, i, input, graph, b, at);
            (a_outcome == b_outcome && a_end == b_end) || parted(a, b, a_end, b_end)
        }),
    decreases patterns.len() - i,
{
    if 0 <= i < patterns.len() {
        if let TripleOrPathPattern::Triple(triple) = patterns[i] {
            lemma_triple_parts(triple, input, graph, a, b, at);
            let (outcome, next) = triple_run(triple, input, graph, a, at);
            lemma_after_join(patterns, i, input, graph, a, at);
            lemma_after_join(patterns, i, input, graph, b, at);
            lemma_parted_later(
                a,
                b,
                next,
                triple_run(triple, input, graph, b, at).1,
                joins_run(patterns, i, input, graph, a, at).1,
                joins_run(patterns, i, input, graph, b, at).1,
            );
            if let Outcome::Done(plan) = outcome {
                lemma_joins_part(patterns, i + 1, plan, graph, a, b, next);
            }
        }
    }
}

proof fn lemma_row_parts<E>(
    variables: Seq<Variable>,
    row: Seq<Option<Term>>,
    i: int,
    tuple: Seq<Option<EncodedTerm>>,
    a: Answers<E>,
    b: Answers<E>,
    at: Progress,
)
    ensures
        ({
            let (a_outcome, a_end) = row_run(variables, row, i, tuple, a, at);
            let (b_outcome, b_end) = row_run(variables, row, i, tuple, b, at);
            (a_outcome == b_outcome && a_end == b_end) || parted(a, b, a_end, b_end)
        }),
    decreases row.len() - i,
{
    if 0 <= i < row.len() {
        match row[i] {
            Some(term) => {
                lemma_ask_parts(Question::Term(term), a, b, at);
                let (outcome, next) = ask(Question::Term(term), a, at);
                lemma_after_value(variables, row, i, tuple, a, at);
                lemma_after_value(variables, row, i, tuple, b, at);
                lemma_parted_later(
                    a,
                    b,
                    next,
                    next,
                    row_run(variables, row, i, tuple, a, at).1,
                    row_run(variables, row, i, tuple, b, at).1,
                );
                if outcome is Done && i < variables.len() {
                    let key = next.key(variables[i]);
                    if key < tuple.len() {
                        let filled = tuple.update(key as int, Some(outcome->Done_0));
                        lemma_row_parts(
                            variables,
                            row,
                            i + 1,
                            filled,
                            a,
                            b,
                            next.met(variables[i]),
                        );
                    }
                }
            },
            None => {
                lemma_row_parts(variables, row, i + 1, tuple, a, b, at);
            },
        }
    }
}

proof fn lemma_rows_part<E>(
    bindings: StaticBindings,
    i: int,
    tuples: Seq<Seq<Option<EncodedTerm>>>,
    a: Answers<E>,
    b: Answers<E>,
    at: Progress,
)
    ensures
        ({
            let (a_outcome, a_end) = rows_run(bindings, i, tuples, a, at);
            let (b_outcome, b_end) = rows_run(bindings, i, tuples, b, at);
            (a_outcome == b_outcome && a_end == b_end) || parted(a, b, a_end, b_end)
        }),
    decreases bindings.values@.len() - i,
{
    if 0 <= i < bindings.values@.len() {
        let blank = blank_tuple(at.variables.len());
        let row = bindings.values@[i]@;
        lemma_row_parts(bindings.variables@, row, 0, blank, a, b, at);
        let (outcome, next) = row_run(bindings.variables@, row, 0, blank, a, at);
        lemma_after_row(bindings, i, tuples, a, at);
        lemma_after_row(bindings, i, tuples, b, at);
        lemma_parted_later(
            a,
            b,
            next,
            row_run(bindings.variables@, row, 0, blank, b, at).1,
            rows_run(bindings, i, tuples, a, at).1,
            rows_run(bindings, i, tuples, b, at).1,
        );
        if let Outcome::Done(tuple) = outcome {
            lemma_rows_part(bindings, i + 1, tuples.push(tuple), a, b, next);
        }
    }
}

/// Planning an expression twice comes to the same, or the store answered differently.
pub proof fn lemma_expression_parts<E>(
    expression: Expression,
    graph: Slot,
    a: Answers<E>,
    b: Answers<E>,
    at: Progress,
)
    ensures
        ({
            let (a_outcome, a_end) = expression_run(expression, graph, a, at);
            let (b_outcome, b_end) = expression_run(expression, graph, b, at);
            (a_outcome == b_outcome && a_end == b_end) || parted(a, b, a_end, b_end)
        }),
    decreases expression, operands(expression).len() + 1,
{
    match expression {
        Expression::Constant(TermOrVariable::Term(term)) => {
            lemma_ask_parts(Question::Term(term), a, b, at);
        },
        Expression::Constant(TermOrVariable::Variable(_)) => {},
        Expression::Bound(_) => {},
        Expression::Exists(pattern) => {
            lemma_pattern_parts(*pattern, Plan::Init, graph, a, b, at);
        },
        _ => {
            if rejection::<E>(expression) is None {
                lemma_operands_part(expression, 0, seq![], graph, a, b, at);
            }
        },
    }
}

proof fn lemma_operands_part<E>(
    expression: Expression,
    i: int,
    parts: Seq<Formula>,
    graph: Slot,
    a: Answers<E>,
    b: Answers<E>,
    at: Progress,
)
    ensures
        ({
            let (a_outcome, a_end) = operands_run(expression, i, parts, graph, a, at);
            let (b_outcome, b_end) = operands_run(expression, i, parts, graph, b, at);
            (a_outcome == b_outcome && a_end == b_end) || parted(a, b, a_end, b_end)
        }),
    decreases expression, operands(expression).len() - i,
{
    if 0 <= i < operands(expression).len() {
        lemma_operand_is_part(expression, i);
        let operand = operands(expression)[i];
        lemma_expression_parts(operand, graph, a, b, at);
        let (outcome, next) = expression_run(operand, graph, a, at);
        lemma_after_operand(expression, i, parts, graph, a, at);
        lemma_after_operand(expression, i, parts, graph, b, at);
        lemma_parted_later(
            a,
            b,
            next,
            expression_run(operand, graph, b, at).1,
            operands_run(expression, i, parts, graph, a, at).1,
            operands_run(expression, i, parts, graph, b, at).1,
        );
        if let Outcome::Done(part) = outcome {
            lemma_operands_part(expression, i + 1, parts.push(part), graph, a, b, next);
        }
    }
}

proof fn lemma_comparator_parts<E>(
    comparator: OrderComparator,
    graph: Slot,
    a: Answers<E>,
    b: Answers<E>,
    at: Progress,
)
    ensures
        ({
            let (a_outcome, a_end) = comparator_run(comparator, graph, a, at);
            let (b_outcome, b_end) = comparator_run(comparator, graph, b, at);
            (a_outcome == b_outcome && a_end == b_end) || parted(a, b, a_end, b_end)
        }),
    decreases comparator, 0int,
{
    match comparator {
        OrderComparator::Asc(e) | OrderComparator::Desc(e) => {
            lemma_expression_parts(e, graph, a, b, at);
        },
    }
}

proof fn lemma_comparators_part<E>(
    comparators: Seq<OrderComparator>,
    i: int,
    keys: Seq<SortKey>,
    graph: Slot,
    a: Answers<E>,
    b: Answers<E>,
    at: Progress,
)
    ensures
        ({
            let (a_outcome, a_end) = comparators_run(comparators, i, keys, graph, a, at);
            let (b_outcome, b_end) = comparators_run(comparators, i, keys, graph, b, at);
            (a_outcome == b_outcome && a_end == b_end) || parted(a, b, a_end, b_end)
        }),
    decreases comparators, comparators.len() - i,
{
    if 0 <= i < comparators.len() {
        lemma_comparator_parts(comparators[i], graph, a, b, at);
        let (outcome, next) = comparator_run(comparators[i], graph, a, at);
        lemma_after_comparator(comparators, i, keys, graph, a, at);
        lemma_after_comparator(comparators, i, keys, graph, b, at);
        lemma_parted_later(
            a,
            b,
            next,
            comparator_run(comparators[i], graph, b, at).1,
            comparators_run(comparators, i, keys, graph, a, at).1,
            comparators_run(comparators, i, keys, graph, b, at).1,
        );
        if let Outcome::Done(key) = outcome {
            lemma_comparators_part(comparators, i + 1, keys.push(key), graph, a, b, next);
        }
    }
}

proof fn lemma_branches_part<E>(
    pattern: GraphPattern,
    i: int,
    children: Seq<Plan>,
    graph: Slot,
    a: Answers<E>,
    b: Answers<E>,
    at: Progress,
)
    ensures
        ({
            let (a_outcome, a_end) = branches_run(pattern, i, children, graph, a, at);
            let (b_outcome, b_end) = branches_run(pattern, i, children, graph, b, at);
            (a_outcome == b_outcome && a_end == b_end) || parted(a, b, a_end, b_end)
        }),
    decreases pattern, branches(pattern).len() - i,
{
    if pattern is Union && 0 <= i < branches(pattern).len() {
        lemma_branch_is_part(pattern, i);
        let branch = branches(pattern)[i];
        lemma_pattern_parts(branch, Plan::Init, graph, a, b, at);
        let (outcome, next) = pattern_run(branch, Plan::Init, graph, a, at);
        lemma_after_branch(pattern, i, children, graph, a, at);
        lemma_after_branch(pattern, i, children, graph, b, at);
        lemma_parted_later(
            a,
            b,
            next,
            pattern_run(branch, Plan::Init, graph, b, at).1,
            branches_run(pattern, i, children, graph, a, at).1,
            branches_run(pattern, i, children, graph, b, at).1,
        );
        if let Outcome::Done(plan) = outcome {
            lemma_branches_part(pattern, i + 1, children.push(plan), graph, a, b, next);
        }
    }
}

/// Planning a pattern twice comes to the same, or the store answered differently.
pub proof fn lemma_pattern_parts<E>(
    pattern: GraphPattern,
    input: Plan,
    graph: Slot,
    a: Answers<E>,
    b: Answers<E>,
    at: Progress,
)
    ensures
        ({
            let (a_outcome, a_end) = pattern_run(pattern, input, graph, a, at);
            let (b_outcome, b_end) = pattern_run(pattern, input, graph, b, at);
            (a_outcome == b_outcome && a_end == b_end) || parted(a, b, a_end, b_end)
        }),
    decreases pattern, branches(pattern).len() + 1,
{
    let a_end = pattern_run(pattern, input, graph, a, at).1;
    let b_end = pattern_run(pattern, input, graph, b, at).1;
    lemma_after_first(pattern, input, graph, a, at);
    lemma_after_first(pattern, input, graph, b, at);
    match pattern {
        GraphPattern::BGP(patterns) => {
            lemma_joins_part(join_order(patterns@, set![]), 0, input, graph, a, b, at);
        },
        GraphPattern::Join(p, q) | GraphPattern::Minus(p, q) => {
            lemma_pattern_parts(*p, input, graph, a, b, at);
            let a1 = pattern_run(*p, input, graph, a, at).1;
            let b1 = pattern_run(*p, input, graph, b, at).1;
            lemma_parted_later(a, b, a1, b1, a_end, b_end);
            lemma_pattern_parts(*q, input, graph, a, b, a1);
        },
        GraphPattern::LeftJoin(p, q, e) => {
            lemma_pattern_parts(*p, input, graph, a, b, at);
            let a1 = pattern_run(*p, input, graph, a, at).1;
            let b1 = pattern_run(*p, input, graph, b, at).1;
            lemma_parted_later(a, b, a1, b1, a_end, b_end);
            if !parted(a, b, a1, b1) && pattern_run(*p, input, graph, a, at).0 is Done {
                lemma_pattern_parts(*q, Plan::Init, graph, a, b, a1);
                let a2 = pattern_run(*q, Plan::Init, graph, a, a1).1;
                let b2 = pattern_run(*q, Plan::Init, graph, b, a1).1;
                lemma_expression_grows(e, graph, a, a2);
                lemma_expression_grows(e, graph, b, b2);
                lemma_parted_later(a, b, a2, b2, a_end, b_end);
                lemma_expression_parts(e, graph, a, b, a2);
            }
        },
        GraphPattern::Filter(e, p) => {
            lemma_pattern_parts(*p, input, graph, a, b, at);
            let a1 = pattern_run(*p, input, graph, a, at).1;
            let b1 = pattern_run(*p, input, graph, b, at).1;
            lemma_parted_later(a, b, a1, b1, a_end, b_end);
            lemma_expression_parts(e, graph, a, b, a1);
        },
        GraphPattern::Union(_, _) => {
            lemma_branches_part(pattern, 0, seq![], graph, a, b, at);
        },
        GraphPattern::Graph(name, p) => {
            lemma_middle_parts(name, a, b, at);
            let (outcome, a1) = middle_run(name, a, at);
            let b1 = middle_run(name, b, at).1;
            lemma_parted_later(a, b, a1, b1, a_end, b_end);
            if let Outcome::Done(named) = outcome {
                lemma_pattern_parts(*p, input, named, a, b, a1);
            }
        },
        GraphPattern::Extend(p, v, e) => {
            lemma_pattern_parts(*p, input, graph, a, b, at);
            let a1 = pattern_run(*p, input, graph, a, at).1;
            let b1 = pattern_run(*p, input, graph, b, at).1;
            assert(grows(a1, a1.met(v)));
            assert(grows(b1, b1.met(v)));
            lemma_parted_later(a, b, a1, b1, a_end, b_end);
            lemma_expression_parts(e, graph, a, b, a1.met(v));
        },
        GraphPattern::Service(_, _, _) => {},
        GraphPattern::AggregateJoin(_, _) => {},
        GraphPattern::Data(bindings) => {
            lemma_rows_part(bindings, 0, seq![], a, b, at);
        },
        GraphPattern::OrderBy(p, order) => {
            lemma_comparators_part(order@, 0, seq![], graph, a, b, at);
            let a1 = comparators_run(order@, 0, seq![], graph, a, at).1;
            let b1 = comparators_run(order@, 0, seq![], graph, b, at).1;
            lemma_parted_later(a, b, a1, b1, a_end, b_end);
            lemma_pattern_parts(*p, input, graph, a, b, a1);
        },
        GraphPattern::Project(p, variables) => {
            let inside = at.with_variables(names(variables@));
            lemma_pattern_parts(*p, input, graph, a, b, inside);
            let a1 = pattern_run(*p, input, graph, a, inside).1;
            let b1 = pattern_run(*p, input, graph, b, inside).1;
            lemma_keys_grow(variables@, 0, seq![], a1.with_variables(at.variables));
            lemma_keys_grow(variables@, 0, seq![], b1.with_variables(at.variables));
            assert(parted(a, b, a1, b1) ==> parted(a, b, a_end, b_end)) by {
                reveal(parted);
            }
        },
        GraphPattern::Distinct(p) | GraphPattern::Reduced(p) | GraphPattern::Slice(p, _, _) => {
            lemma_pattern_parts(*p, input, graph, a, b, at);
        },
    }
}

} // verus!
