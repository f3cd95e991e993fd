//! Planning only adds to what it has numbered and asked.
use crate::algebra::{
    Expression, GraphPattern, NamedNodeOrVariable, OrderComparator, StaticBindings, TermOrVariable,
    TripleOrPathPattern, TriplePattern,
};
use crate::error::Outcome;
use crate::expression::{lemma_operand_is_part, operands};
use crate::model::{names, Term, Variable};
use crate::ordering::join_order;
use crate::plan::{Formula, Plan, Slot, SortKey};
use crate::semantics::{
    ask, blank_tuple, branches, branches_run, comparator_run, comparators_run, end_run,
    expression_run, joins_run, keys_run, lemma_branch_is_part, middle_run, operands_run,
    pattern_run, row_run, rows_run, triple_run, Progress,
};
use crate::store::{Answers, EncodedTerm, Question};
use vstd::prelude::*;

verus! {

/// Whether one list begins with another.
pub open spec fn begins_with<T>(list: Seq<T>, start: Seq<T>) -> bool {
    &&& start.len() <= list.len()
    &&& forall|i: int| 0 <= i < start.len() ==> start[i] == #[trigger] list[i]
}

/// Whether `after` is what `before` may come to: its variables keep their keys, new ones come
/// after them and each but once, and the questions asked stay asked.
#[verifier::opaque]
pub open spec fn grows(before: Progress, after: Progress) -> bool {
    &&& begins_with(after.variables, before.variables)
    &&& begins_with(after.asked, before.asked)
    &&& before.variables.no_duplicates() ==> after.variables.no_duplicates()
}

/// Nothing added is growth too.
pub broadcast proof fn lemma_grows_itself(before: Progress, after: Progress)
    requires
        before == after,
    ensures
        #[trigger] grows(before, after),
{
    reveal(grows);
}

/// Growth on growth is growth.
pub broadcast proof fn lemma_grows_further(first: Progress, second: Progress, third: Progress)
    requires
        #[trigger] grows(first, second),
        #[trigger] grows(second, third),
    ensures
        grows(first, third),
{
    reveal(grows);
    assert forall|i: int| 0 <= i < first.variables.len() implies first.variables[i]
        == #[trigger] third.variables[i] by {
        assert(second.variables[i] == third.variables[i]);
    }
    assert forall|i: int| 0 <= i < first.asked.len() implies first.asked[i]
        == #[trigger] third.asked[i] by {
        assert(second.asked[i] == third.asked[i]);
    }
}

/// Nothing gets shorter.
pub broadcast proof fn lemma_grows_longer(before: Progress, after: Progress)
    requires
        #[trigger] grows(before, after),
    ensures
        before.asked.len() <= after.asked.len(),
        before.variables.len() <= after.variables.len(),
{
    reveal(grows);
}

/// Meeting a variable is growth.
pub broadcast proof fn lemma_meeting_grows(at: Progress, variable: Variable)
    ensures
        #[trigger] grows(at, at.met(variable)),
{
    reveal(grows);
    let table = at.variables;
    if !table.contains(variable@) && table.no_duplicates() {
        let longer = table.push(variable@);
        assert forall|i: int, j: int| 0 <= i < j < longer.len() implies longer[i] != longer[j] by {
            if j == table.len() {
                assert(table.contains(table[i]));
            }
        }
    }
}

/// Asking a question is growth.
pub broadcast proof fn lemma_asking_grows(at: Progress, question: Question)
    ensures
        #[trigger] grows(at, at.asking(question)),
{
    reveal(grows);
}

/// Growth, one step at a time.
pub broadcast group group_growth {
    lemma_grows_itself,
    lemma_grows_further,
    lemma_grows_longer,
    lemma_meeting_grows,
    lemma_asking_grows,
}

/// Planning a subject or an object keeps what was numbered and asked before.
pub broadcast proof fn lemma_end_grows<E>(end: TermOrVariable, answers: Answers<E>, at: Progress)
    ensures
        grows(at, (#[trigger] end_run(end, answers, at)).1),
{
    broadcast use group_growth;

    match end {
        TermOrVariable::Term(term) => {
            assert(grows(at, at.asking(Question::Term(term))));
        },
        TermOrVariable::Variable(v) => {
            assert(grows(at, at.met(v)));
        },
    }
}

/// Planning a predicate keeps what was numbered and asked before.
pub broadcast proof fn lemma_middle_grows<E>(
    middle: NamedNodeOrVariable,
    answers: Answers<E>,
    at: Progress,
)
    ensures
        grows(at, (#[trigger] middle_run(middle, answers, at)).1),
{
    broadcast use group_growth;

    match middle {
        NamedNodeOrVariable::NamedNode(node) => {
            assert(grows(at, at.asking(Question::NamedNode(node))));
        },
        NamedNodeOrVariable::Variable(v) => {
            assert(grows(at, at.met(v)));
        },
    }
}

/// Planning a triple pattern keeps what was numbered and asked before.
pub broadcast proof fn lemma_triple_grows<E>(
    triple: TriplePattern,
    input: Plan,
    graph: Slot,
    answers: Answers<E>,
    at: Progress,
)
    ensures
        grows(at, (#[trigger] triple_run(triple, input, graph, answers, at)).1),
{
    broadcast use group_growth;

    lemma_end_grows(triple.subject, answers, at);
    let at1 = end_run(triple.subject, answers, at).1;
    lemma_middle_grows(triple.predicate, answers, at1);
    let at2 = middle_run(triple.predicate, answers, at1).1;
    lemma_end_grows(triple.object, answers, at2);
}

/// Planning a list of patterns keeps what was numbered and asked before.
pub broadcast proof fn lemma_joins_grow<E>(
    patterns: Seq<TripleOrPathPattern>,
    i: int,
    input: Plan,
    graph: Slot,
    answers: Answers<E>,
    at: Progress,
)
    ensures
        grows(at, (#[trigger] joins_run(patterns, i, input, graph, answers, at)).1),
    decreases patterns.len() - i,
{
    broadcast use group_growth;

    if 0 <= i < patterns.len() {
        if let TripleOrPathPattern::Triple(triple) = patterns[i] {
            lemma_triple_grows(triple, input, graph, answers, at);
            let (outcome, next) = triple_run(triple, input, graph, answers, at);
            if let Outcome::Done(plan) = outcome {
                lemma_joins_grow(patterns, i + 1, plan, graph, answers, next);
            }
        }
    }
}

/// Planning a row of bindings keeps what was numbered and asked before.
pub broadcast proof fn lemma_row_grows<E>(
    variables: Seq<Variable>,
    row: Seq<Option<Term>>,
    i: int,
    tuple: Seq<Option<EncodedTerm>>,
    answers: Answers<E>,
    at: Progress,
)
    ensures
        grows(at, (#[trigger] row_run(variables, row, i, tuple, answers, at)).1),
    decreases row.len() - i,
{
    broadcast use group_growth;

    if 0 <= i < row.len() {
        match row[i] {
            Some(term) => {
                let (outcome, next) = ask(Question::Term(term), answers, at);
                assert(grows(at, next));
                if outcome is Done && i < variables.len() {
                    let met = next.met(variables[i]);
                    assert(grows(next, met));
                    if next.key(variables[i]) < tuple.len() {
                        lemma_row_grows(
                            variables,
                            row,
                            i + 1,
                            tuple.update(
                                next.key(variables[i]) as int,
                                Some(outcome->Done_0),
                            ),
                            answers,
                            met,
                        );
                    }
                }
            },
            None => {
                lemma_row_grows(variables, row, i + 1, tuple, answers, at);
            },
        }
    }
}

/// Planning rows of bindings keeps what was numbered and asked before.
pub broadcast proof fn lemma_rows_grow<E>(
    bindings: StaticBindings,
    i: int,
    tuples: Seq<Seq<Option<EncodedTerm>>>,
    answers: Answers<E>,
    at: Progress,
)
    ensures
        grows(at, (#[trigger] rows_run(bindings, i, tuples, answers, at)).1),
    decreases bindings.values@.len() - i,
{
    broadcast use group_growth;

    if 0 <= i < bindings.values@.len() {
        let blank = blank_tuple(at.variables.len());
        let row = bindings.values@[i]@;
        lemma_row_grows(bindings.variables@, row, 0, blank, answers, at);
        let (outcome, next) = row_run(bindings.variables@, row, 0, blank, answers, at);
        if let Outcome::Done(tuple) = outcome {
            lemma_rows_grow(bindings, i + 1, tuples.push(tuple), answers, next);
        }
    }
}

/// Numbering a list of variables keeps what was numbered before, and asks nothing.
pub broadcast proof fn lemma_keys_grow(
    variables: Seq<Variable>,
    i: int,
    keys: Seq<nat>,
    at: Progress,
)
    ensures
        grows(at, (#[trigger] keys_run(variables, i, keys, at)).1),
        keys_run(variables, i, keys, at).1.asked == at.asked,
    decreases variables.len() - i,
{
    broadcast use group_growth;

    if 0 <= i < variables.len() {
        assert(grows(at, at.met(variables[i])));
        lemma_keys_grow(
            variables,
            i + 1,
            keys.push(at.key(variables[i])),
            at.met(variables[i]),
        );
    }
}

/// Planning an expression keeps what was numbered and asked before.
pub broadcast proof fn lemma_expression_grows<E>(
    expression: Expression,
    graph: Slot,
    answers: Answers<E>,
    at: Progress,
)
    ensures
        grows(at, (#[trigger] expression_run(expression, graph, answers, at)).1),
    decreases expression, operands(expression).len() + 1,
{
    broadcast use group_growth;

    match expression {
        Expression::Constant(TermOrVariable::Term(term)) => {
            assert(grows(at, at.asking(Question::Term(term))));
        },
        Expression::Constant(TermOrVariable::Variable(v)) => {
            assert(grows(at, at.met(v)));
        },
        Expression::Bound(v) => {
            assert(grows(at, at.met(v)));
        },
        Expression::Exists(pattern) => {
            lemma_pattern_grows(*pattern, Plan::Init, graph, answers, at);
        },
        _ => {
            lemma_operands_grow(expression, 0, seq![], graph, answers, at);
        },
    }
}

/// Planning operands keeps what was numbered and asked before.
pub broadcast proof fn lemma_operands_grow<E>(
    expression: Expression,
    i: int,
    parts: Seq<Formula>,
    graph: Slot,
    answers: Answers<E>,
    at: Progress,
)
    ensures
        grows(at, (#[trigger] operands_run(expression, i, parts, graph, answers, at)).1),
    decreases expression, operands(expression).len() - i,
{
    broadcast use group_growth;

    if 0 <= i < operands(expression).len() {
        lemma_operand_is_part(expression, i);
        lemma_expression_grows(operands(expression)[i], graph, answers, at);
        let (outcome, next) = expression_run(operands(expression)[i], graph, answers, at);
        if let Outcome::Done(part) = outcome {
            lemma_operands_grow(expression, i + 1, parts.push(part), graph, answers, next);
        }
    }
}

/// Planning a sort key keeps what was numbered and asked before.
pub broadcast proof fn lemma_comparator_grows<E>(
    comparator: OrderComparator,
    graph: Slot,
    answers: Answers<E>,
    at: Progress,
)
    ensures
        grows(at, (#[trigger] comparator_run(comparator, graph, answers, at)).1),
    decreases comparator, 0int,
{
    match comparator {
        OrderComparator::Asc(e) | OrderComparator::Desc(e) => {
            lemma_expression_grows(e, graph, answers, at);
        },
    }
}

/// Planning sort keys keeps what was numbered and asked before.
pub broadcast proof fn lemma_comparators_grow<E>(
    comparators: Seq<OrderComparator>,
    i: int,
    keys: Seq<SortKey>,
    graph: Slot,
    answers: Answers<E>,
    at: Progress,
)
    ensures
        grows(at, (#[trigger] comparators_run(comparators, i, keys, graph, answers, at)).1),
    decreases comparators, comparators.len() - i,
{
    broadcast use group_growth;

    if 0 <= i < comparators.len() {
        lemma_comparator_grows(comparators[i], graph, answers, at);
        let (outcome, next) = comparator_run(comparators[i], graph, answers, at);
        if let Outcome::Done(key) = outcome {
            lemma_comparators_grow(comparators, i + 1, keys.push(key), graph, answers, next);
        }
    }
}

/// Planning the alternatives of a union keeps what was numbered and asked before.
pub broadcast proof fn lemma_branches_grow<E>(
    pattern: GraphPattern,
    i: int,
    children: Seq<Plan>,
    graph: Slot,
    answers: Answers<E>,
    at: Progress,
)
    ensures
        grows(at, (#[trigger] branches_run(pattern, i, children, graph, answers, at)).1),
    decreases pattern, branches(pattern).len() - i,
{
    broadcast use group_growth;

    if pattern is Union && 0 <= i < branches(pattern).len() {
        lemma_branch_is_part(pattern, i);
        let branch = branches(pattern)[i];
        lemma_pattern_grows(branch, Plan::Init, graph, answers, at);
        let (outcome, next) = pattern_run(branch, Plan::Init, graph, answers, at);
        if let Outcome::Done(plan) = outcome {
            lemma_branches_grow(pattern, i + 1, children.push(plan), graph, answers, next);
        }
    }
}

/// Planning a pattern keeps what was numbered and asked before.
pub broadcast proof fn lemma_pattern_grows<E>(
    pattern: GraphPattern,
    input: Plan,
    graph: Slot,
    answers: Answers<E>,
    at: Progress,
)
    ensures
        grows(at, (#[trigger] pattern_run(pattern, input, graph, answers, at)).1),
    decreases pattern, branches(pattern).len() + 1,
{
    broadcast use group_growth;

    match pattern {
        GraphPattern::BGP(patterns) => {
            lemma_joins_grow(join_order(patterns@, set![]), 0, input, graph, answers, at);
        },
        GraphPattern::Join(a, b) | GraphPattern::Minus(a, b) => {
            lemma_pattern_grows(*a, input, graph, answers, at);
            let at1 = pattern_run(*a, input, graph, answers, at).1;
            lemma_pattern_grows(*b, input, graph, answers, at1);
        },
        GraphPattern::LeftJoin(a, b, e) => {
            lemma_pattern_grows(*a, input, graph, answers, at);
            let at1 = pattern_run(*a, input, graph, answers, at).1;
            lemma_pattern_grows(*b, Plan::Init, graph, answers, at1);
            let at2 = pattern_run(*b, Plan::Init, graph, answers, at1).1;
            lemma_expression_grows(e, graph, answers, at2);
        },
        GraphPattern::Filter(e, p) => {
            lemma_pattern_grows(*p, input, graph, answers, at);
            let at1 = pattern_run(*p, input, graph, answers, at).1;
            lemma_expression_grows(e, graph, answers, at1);
        },
        GraphPattern::Union(_, _) => {
            lemma_branches_grow(pattern, 0, seq![], graph, answers, at);
        },
        GraphPattern::Graph(name, p) => {
            lemma_middle_grows(name, answers, at);
            let (outcome, at1) = middle_run(name, answers, at);
            if let Outcome::Done(named) = outcome {
                lemma_pattern_grows(*p, input, named, answers, at1);
            }
        },
        GraphPattern::Extend(p, v, e) => {
            lemma_pattern_grows(*p, input, graph, answers, at);
            let at1 = pattern_run(*p, input, graph, answers, at).1;
            assert(grows(at1, at1.met(v)));
            lemma_expression_grows(e, graph, answers, at1.met(v));
        },
        GraphPattern::Service(_, _, _) => {},
        GraphPattern::AggregateJoin(_, _) => {},
        GraphPattern::Data(bindings) => {
            lemma_rows_grow(bindings, 0, seq![], answers, at);
        },
        GraphPattern::OrderBy(p, order) => {
            lemma_comparators_grow(order@, 0, seq![], graph, answers, at);
            let at1 = comparators_run(order@, 0, seq![], graph, answers, at).1;
            lemma_pattern_grows(*p, input, graph, answers, at1);
        },
        GraphPattern::Project(p, variables) => {
            let inside = at.with_variables(names(variables@));
            lemma_pattern_grows(*p, input, graph, answers, inside);
            let inner = pattern_run(*p, input, graph, answers, inside).1;
            let back = inner.with_variables(at.variables);
            assert(grows(at, back)) by {
                reveal(grows);
            }
            lemma_keys_grow(variables@, 0, seq![], back);
        },
        GraphPattern::Distinct(p) | GraphPattern::Reduced(p) | GraphPattern::Slice(p, _, _) => {
            lemma_pattern_grows(*p, input, graph, answers, at);
        },
    }
}

/// Every run grows, from where it starts.
pub broadcast group group_runs_grow {
    group_growth,
    lemma_end_grows,
    lemma_middle_grows,
    lemma_triple_grows,
    lemma_joins_grow,
    lemma_row_grows,
    lemma_rows_grow,
    lemma_keys_grow,
    lemma_expression_grows,
    lemma_operands_grow,
    lemma_comparator_grows,
    lemma_comparators_grow,
    lemma_branches_grow,
    lemma_pattern_grows,
}

} // verus!
