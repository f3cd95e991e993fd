//! When planning fails: if the store has no code for a constant, or if a call is rejected.
use crate::algebra::{
    Expression, GraphPattern, OrderComparator, StaticBindings, TripleOrPathPattern, TriplePattern,
};
use crate::builder::{built, template_built};
use crate::error::{Error, Failure, Outcome};
use crate::expression::{lemma_operand_is_part, operands, rejection};
use crate::laws::answers::lemma_pattern_passes_on;
use crate::laws::asking::{
    asks, lemma_pattern_asks, lemma_template_asks, pattern_questions, template_questions,
};
use crate::laws::templates::lemma_template_is_sound;
use crate::model::{names, Name, Term, Variable};
use crate::ordering::join_order;
use crate::plan::{Formula, Plan, PlanNode, Slot, SortKey, TripleTemplate};
use crate::semantics::{
    ask, blank_tuple, branches, branches_run, comparator_run, comparators_run, expression_run,
    joins_run, lemma_branch_is_part, middle_run, operands_run, outset, pattern_run, query_run,
    row_run, rows_run, template_run, triple_run, Progress,
};
use crate::store::{
    all_codes, has_error, may_answer, Answers, EncodedTerm, Question, StoreConnection,
};
use vstd::prelude::*;

verus! {

/// Whether a call in an expression is rejected with this failure. What a rejected call is given
/// is not planned.
pub open spec fn expression_rejects<E>(expression: Expression, failure: Failure<E>) -> bool
    decreases expression, operands(expression).len() + 1,
{
    match expression {
        Expression::Constant(_) => false,
        Expression::Bound(_) => false,
        Expression::Exists(pattern) => pattern_rejects(*pattern, failure),
        _ => match rejection::<E>(expression) {
            Some(rejected) => rejected == failure,
            None => operands_reject(expression, 0, failure),
        },
    }
}

/// Whether a call in the operands of an expression from the `i`-th on is rejected with this
/// failure.
pub open spec fn operands_reject<E>(expression: Expression, i: int, failure: Failure<E>) -> bool
    decreases expression, operands(expression).len() - i,
{
    if 0 <= i < operands(expression).len() {
        proof {
            lemma_operand_is_part(expression, i);
        }
        ||| expression_rejects(operands(expression)[i], failure)
        ||| operands_reject(expression, i + 1, failure)
    } else {
        false
    }
}

/// Whether a call in a sort key is rejected with this failure.
pub open spec fn comparator_rejects<E>(comparator: OrderComparator, failure: Failure<E>) -> bool
    decreases comparator, 0int,
{
    match comparator {
        OrderComparator::Asc(expression) => expression_rejects(expression, failure),
        OrderComparator::Desc(expression) => expression_rejects(expression, failure),
    }
}

/// Whether a call in the sort keys from the `i`-th on is rejected with this failure.
pub open spec fn comparators_reject<E>(
    comparators: Seq<OrderComparator>,
    i: int,
    failure: Failure<E>,
) -> bool
    decreases comparators, comparators.len() - i,
{
    if 0 <= i < comparators.len() {
        ||| comparator_rejects(comparators[i], failure)
        ||| comparators_reject(comparators, i + 1, failure)
    } else {
        false
    }
}

/// Whether a call in a pattern is rejected with this failure: one of a function that is not known,
/// or of a cast with more or fewer parameters than one.
pub open spec fn pattern_rejects<E>(pattern: GraphPattern, failure: Failure<E>) -> bool
    decreases pattern, 1int,
{
    match pattern {
        GraphPattern::BGP(_) => false,
        GraphPattern::Join(a, b) => pattern_rejects(*a, failure) || pattern_rejects(*b, failure),
        GraphPattern::LeftJoin(a, b, e) => {
            ||| pattern_rejects(*a, failure)
            ||| pattern_rejects(*b, failure)
            ||| expression_rejects(e, failure)
        },
        GraphPattern::Filter(e, p) => {
            ||| pattern_rejects(*p, failure)
            ||| expression_rejects(e, failure)
        },
        GraphPattern::Union(a, b) => pattern_rejects(*a, failure) || pattern_rejects(*b, failure),
        GraphPattern::Graph(_, p) => pattern_rejects(*p, failure),
        GraphPattern::Extend(p, _, e) => {
            ||| pattern_rejects(*p, failure)
            ||| expression_rejects(e, failure)
        },
        GraphPattern::Minus(a, b) => pattern_rejects(*a, failure) || pattern_rejects(*b, failure),
        GraphPattern::Service(_, _, _) => false,
        GraphPattern::AggregateJoin(_, _) => false,
        GraphPattern::Data(_) => false,
        GraphPattern::OrderBy(p, order) => {
            ||| comparators_reject(order@, 0, failure)
            ||| pattern_rejects(*p, failure)
        },
        GraphPattern::Project(p, _) => pattern_rejects(*p, failure),
        GraphPattern::Distinct(p) => pattern_rejects(*p, failure),
        GraphPattern::Reduced(p) => pattern_rejects(*p, failure),
        GraphPattern::Slice(p, _, _) => pattern_rejects(*p, failure),
    }
}

/// Whether no call in a pattern is rejected.
pub open spec fn rejects_nothing<E>(pattern: GraphPattern) -> bool {
    forall|failure: Failure<E>| !#[trigger] pattern_rejects(pattern, failure)
}

/// Whether a run takes notice of what is rejected: it has no result if something is, and a failure
/// that is not the store's is one that something is rejected with.
pub open spec fn notices<T, E>(
    outcome: Outcome<T, E>,
    rejected: bool,
    failure: Failure<E>,
) -> bool {
    &&& outcome is Done ==> !rejected
    &&& outcome == Outcome::<T, E>::Failed(failure) && failure !is Store ==> rejected
}

proof fn lemma_joins_notice<E>(
    patterns: Seq<TripleOrPathPattern>,
    i: int,
    input: Plan,
    graph: Slot,
    answers: Answers<E>,
    at: Progress,
    failure: Failure<E>,
)
    ensures
        notices(joins_run(patterns, i, input, graph, answers, at).0, false, failure),
    decreases patterns.len() - i,
{
    if 0 <= i < patterns.len() {
        if let TripleOrPathPattern::Triple(triple) = patterns[i] {
            let (outcome, next) = triple_run(triple, input, graph, answers, at);
            if let Outcome::Done(plan) = outcome {
                lemma_joins_notice(patterns, i + 1, plan, graph, answers, next, failure);
            }
        }
    }
}

proof fn lemma_row_notices<E>(
    variables: Seq<Variable>,
    row: Seq<Option<Term>>,
    i: int,
    tuple: Seq<Option<EncodedTerm>>,
    answers: Answers<E>,
    at: Progress,
    failure: Failure<E>,
)
    ensures
        notices(row_run(variables, row, i, tuple, answers, at).0, false, failure),
    decreases row.len() - i,
{
    if 0 <= i < row.len() {
        match row[i] {
            Some(term) => {
                let (outcome, next) = ask(Question::Term(term), answers, at);
                if outcome is Done && i < variables.len() {
                    let key = next.key(variables[i]);
                    let met = next.met(variables[i]);
                    if key < tuple.len() {
                        let filled = tuple.update(key as int, Some(outcome->Done_0));
                        lemma_row_notices(variables, row, i + 1, filled, answers, met, failure);
                    }
                }
            },
            None => {
                lemma_row_notices(variables, row, i + 1, tuple, answers, at, failure);
            },
        }
    }
}

proof fn lemma_rows_notice<E>(
    bindings: StaticBindings,
    i: int,
    tuples: Seq<Seq<Option<EncodedTerm>>>,
    answers: Answers<E>,
    at: Progress,
    failure: Failure<E>,
)
    ensures
        notices(rows_run(bindings, i, tuples, answers, at).0, false, failure),
    decreases bindings.values@.len() - i,
{
    if 0 <= i < bindings.values@.len() {
        let blank = blank_tuple(at.variables.len());
        let row = bindings.values@[i]@;
        lemma_row_notices(bindings.variables@, row, 0, blank, answers, at, failure);
        let (outcome, next) = row_run(bindings.variables@, row, 0, blank, answers, at);
        if let Outcome::Done(tuple) = outcome {
            lemma_rows_notice(bindings, i + 1, tuples.push(tuple), answers, next, failure);
        }
    }
}

/// Planning an expression takes notice of the calls in it that are rejected.
pub proof fn lemma_expression_notices<E>(
    expression: Expression,
    graph: Slot,
    answers: Answers<E>,
    at: Progress,
    failure: Failure<E>,
)
    ensures
        notices(
            expression_run(expression, graph, answers, at).0,
            expression_rejects(expression, failure),
            failure,
        ),
    decreases expression, operands(expression).len() + 1,
{
    match expression {
        Expression::Constant(_) => {},
        Expression::Bound(_) => {},
        Expression::Exists(pattern) => {
            lemma_pattern_notices(*pattern, Plan::Init, graph, answers, at, failure);
        },
        _ => {
            if rejection::<E>(expression) is None {
                lemma_operands_notice(expression, 0, seq![], graph, answers, at, failure);
            }
        },
    }
}

proof fn lemma_operands_notice<E>(
    expression: Expression,
    i: int,
    parts: Seq<Formula>,
    graph: Slot,
    answers: Answers<E>,
    at: Progress,
    failure: Failure<E>,
)
    ensures
        notices(
            operands_run(expression, i, parts, graph, answers, at).0,
            operands_reject(expression, i, failure),
            failure,
        ),
    decreases expression, operands(expression).len() - i,
{
    if 0 <= i < operands(expression).len() {
        lemma_operand_is_part(expression, i);
        let operand = operands(expression)[i];
        lemma_expression_notices(operand, graph, answers, at, failure);
        let (outcome, next) = expression_run(operand, graph, answers, at);
        if let Outcome::Done(part) = outcome {
            let more = parts.push(part);
            lemma_operands_notice(expression, i + 1, more, graph, answers, next, failure);
        }
    }
}

proof fn lemma_comparator_notices<E>(
    comparator: OrderComparator,
    graph: Slot,
    answers: Answers<E>,
    at: Progress,
    failure: Failure<E>,
)
    ensures
        notices(
            comparator_run(comparator, graph, answers, at).0,
            comparator_rejects(comparator, failure),
            failure,
        ),
    decreases comparator, 0int,
{
    match comparator {
        OrderComparator::Asc(e) | OrderComparator::Desc(e) => {
            lemma_expression_notices(e, graph, answers, at, failure);
        },
    }
}

proof fn lemma_comparators_notice<E>(
    comparators: Seq<OrderComparator>,
    i: int,
    keys: Seq<SortKey>,
    graph: Slot,
    answers: Answers<E>,
    at: Progress,
    failure: Failure<E>,
)
    ensures
        notices(
            comparators_run(comparators, i, keys, graph, answers, at).0,
            comparators_reject(comparators, i, failure),
            failure,
        ),
    decreases comparators, comparators.len() - i,
{
    if 0 <= i < comparators.len() {
        lemma_comparator_notices(comparators[i], graph, answers, at, failure);
        let (outcome, next) = comparator_run(comparators[i], graph, answers, at);
        if let Outcome::Done(key) = outcome {
            let more = keys.push(key);
            lemma_comparators_notice(comparators, i + 1, more, graph, answers, next, failure);
        }
    }
}

/// Whether a call in one of the patterns of a list from the `i`-th on is rejected with this
/// failure.
spec fn list_rejects<E>(list: Seq<GraphPattern>, i: int, failure: Failure<E>) -> bool {
    exists|j: int| i <= j < list.len() && pattern_rejects(#[trigger] list[j], failure)
}

/// What is rejected in a union is what is rejected in its alternatives.
proof fn lemma_union_rejects<E>(pattern: GraphPattern, failure: Failure<E>)
    ensures
        pattern_rejects(pattern, failure) <==> list_rejects(branches(pattern), 0, failure),
    decreases pattern,
{
    let all = branches(pattern);
    if let GraphPattern::Union(a, b) = pattern {
        let (first, second) = (branches(*b), branches(*a));
        lemma_union_rejects(*a, failure);
        lemma_union_rejects(*b, failure);
        if list_rejects(first, 0, failure) {
            let j = choose|j: int|
                0 <= j < first.len() && pattern_rejects(#[trigger] first[j], failure);
            assert(all[j] == first[j]);
        }
        if list_rejects(second, 0, failure) {
            let j = choose|j: int|
                0 <= j < second.len() && pattern_rejects(#[trigger] second[j], failure);
            assert(all[first.len() + j] == second[j]);
        }
        if list_rejects(all, 0, failure) {
            let j = choose|j: int|
                0 <= j < all.len() && pattern_rejects(#[trigger] all[j], failure);
            if j < first.len() {
                assert(first[j] == all[j]);
            } else {
                assert(second[j - first.len()] == all[j]);
            }
        }
    } else {
        assert(all[0] == pattern);
    }
}

proof fn lemma_branches_notice<E>(
    pattern: GraphPattern,
    i: int,
    children: Seq<Plan>,
    graph: Slot,
    answers: Answers<E>,
    at: Progress,
    failure: Failure<E>,
)
    requires
        pattern is Union,
        0 <= i,
    ensures
        notices(
            branches_run(pattern, i, children, graph, answers, at).0,
            list_rejects(branches(pattern), i, failure),
            failure,
        ),
    decreases pattern, branches(pattern).len() - i,
{
    if i < branches(pattern).len() {
        lemma_branch_is_part(pattern, i);
        let branch = branches(pattern)[i];
        lemma_pattern_notices(branch, Plan::Init, graph, answers, at, failure);
        let (outcome, next) = pattern_run(branch, Plan::Init, graph, answers, at);
        if let Outcome::Done(plan) = outcome {
            let more = children.push(plan);
            lemma_branches_notice(pattern, i + 1, more, graph, answers, next, failure);
        }
        let list = branches(pattern);
        assert(list_rejects(list, i, failure) <==> pattern_rejects(branch, failure)
            || list_rejects(list, i + 1, failure));
    }
}

/// Planning a pattern takes notice of the calls in it that are rejected.
pub proof fn lemma_pattern_notices<E>(
    pattern: GraphPattern,
    input: Plan,
    graph: Slot,
    answers: Answers<E>,
    at: Progress,
    failure: Failure<E>,
)
    ensures
        notices(
            pattern_run(pattern, input, graph, answers, at).0,
            pattern_rejects(pattern, failure),
            failure,
        ),
    decreases pattern, branches(pattern).len() + 1,
{
    match pattern {
        GraphPattern::BGP(patterns) => {
            let order = join_order(patterns@, set![]);
            lemma_joins_notice(order, 0, input, graph, answers, at, failure);
        },
        GraphPattern::Join(a, b) | GraphPattern::Minus(a, b) => {
            lemma_pattern_notices(*a, input, graph, answers, at, failure);
            let at1 = pattern_run(*a, input, graph, answers, at).1;
            lemma_pattern_notices(*b, input, graph, answers, at1, failure);
        },
        GraphPattern::LeftJoin(a, b, e) => {
            lemma_pattern_notices(*a, input, graph, answers, at, failure);
            let at1 = pattern_run(*a, input, graph, answers, at).1;
            lemma_pattern_notices(*b, Plan::Init, graph, answers, at1, failure);
            let at2 = pattern_run(*b, Plan::Init, graph, answers, at1).1;
            lemma_expression_notices(e, graph, answers, at2, failure);
        },
        GraphPattern::Filter(e, p) => {
            lemma_pattern_notices(*p, input, graph, answers, at, failure);
            let at1 = pattern_run(*p, input, graph, answers, at).1;
            lemma_expression_notices(e, graph, answers, at1, failure);
        },
        GraphPattern::Union(_, _) => {
            lemma_union_rejects(pattern, failure);
            lemma_branches_notice(pattern, 0, seq![], graph, answers, at, failure);
        },
        GraphPattern::Graph(name, p) => {
            let (outcome, at1) = middle_run(name, answers, at);
            if let Outcome::Done(named) = outcome {
                lemma_pattern_notices(*p, input, named, answers, at1, failure);
            }
        },
        GraphPattern::Extend(p, v, e) => {
            lemma_pattern_notices(*p, input, graph, answers, at, failure);
            let at1 = pattern_run(*p, input, graph, answers, at).1;
            lemma_expression_notices(e, graph, answers, at1.met(v), failure);
        },
        GraphPattern::Service(_, _, _) => {},
        GraphPattern::AggregateJoin(_, _) => {},
        GraphPattern::Data(bindings) => {
            lemma_rows_notice(bindings, 0, seq![], answers, at, failure);
        },
        GraphPattern::OrderBy(p, order) => {
            lemma_comparators_notice(order@, 0, seq![], graph, answers, at, failure);
            let at1 = comparators_run(order@, 0, seq![], graph, answers, at).1;
            lemma_pattern_notices(*p, input, graph, answers, at1, failure);
        },
        GraphPattern::Project(p, variables) => {
            let inside = at.with_variables(names(variables@));
            lemma_pattern_notices(*p, input, graph, answers, inside, failure);
        },
        GraphPattern::Distinct(p) | GraphPattern::Reduced(p) | GraphPattern::Slice(p, _, _) => {
            lemma_pattern_notices(*p, input, graph, answers, at, failure);
        },
    }
}

/// How planning a query ends. It has a plan if and only if no call in it is rejected and the store
/// has a code for each of its constants, where it does not come to a construct that has no plan.
/// With a plan, the store was asked for these constants, in order. With an error of the store, that
/// was the answer to one of them. Any other error is that of a call in the query.
pub proof fn lemma_query_ends<E>(pattern: GraphPattern, answers: Answers<E>)
    ensures
        ({
            let (outcome, end) = query_run(pattern, answers);
            let constants = pattern_questions(pattern);
            &&& outcome !is Stuck ==> (outcome is Done <==> rejects_nothing::<E>(pattern)
                && all_codes(answers, 0, constants.len()))
            &&& match outcome {
                Outcome::Done(_) => end.asked == constants,
                Outcome::Failed(Failure::Store(error)) => exists|i: int|
                    {
                        &&& 0 <= i < end.asked.len()
                        &&& #[trigger] answers(i) == Err::<EncodedTerm, E>(error)
                        &&& constants.contains(end.asked[i])
                    },
                Outcome::Failed(failure) => pattern_rejects(pattern, failure),
                Outcome::Stuck => true,
            }
        }),
{
    let at = outset(seq![]);
    let graph = Slot::Constant(EncodedTerm::DefaultGraph);
    let (outcome, end) = query_run(pattern, answers);
    let constants = pattern_questions(pattern);
    lemma_pattern_asks(pattern, Plan::Init, graph, answers, at);
    lemma_pattern_passes_on(pattern, Plan::Init, graph, answers, at);
    reveal(asks);
    reveal(all_codes);
    reveal(has_error);
    assert forall|failure: Failure<E>| outcome is Done implies !#[trigger] pattern_rejects(
        pattern,
        failure,
    ) by {
        lemma_pattern_notices(pattern, Plan::Init, graph, answers, at, failure);
    }
    match outcome {
        Outcome::Done(_) => {
            assert(end.asked =~= constants);
        },
        Outcome::Failed(Failure::Store(error)) => {
            let i = choose|i: int|
                0 <= i < end.asked.len() && #[trigger] answers(i) == Err::<EncodedTerm, E>(error);
            assert(constants.contains(end.asked[i]));
        },
        Outcome::Failed(failure) => {
            lemma_pattern_notices(pattern, Plan::Init, graph, answers, at, failure);
        },
        Outcome::Stuck => {},
    }
}

/// A query is built to a plan if and only if no call in it is rejected and the store has a code for
/// each of its constants. With a plan, the store was asked for these constants, in order. With an
/// error of the store, that was its answer to one of them. Any other error is that of a call in the
/// query.
pub proof fn lemma_build_ends<'p, S: StoreConnection>(
    store: S,
    pattern: GraphPattern,
    answers: Answers<S::Error>,
    result: Result<(PlanNode, Vec<Variable>), Error<'p, S::Error>>,
)
    requires
        built(store, pattern, answers, result),
    ensures
        ({
            let asked = query_run(pattern, answers).1.asked;
            let constants = pattern_questions(pattern);
            &&& result is Ok <==> rejects_nothing::<S::Error>(pattern) && all_codes(
                answers,
                0,
                constants.len(),
            )
            &&& match result {
                Ok(_) => asked == constants,
                Err(Error::Store(error)) => exists|i: int|
                    {
                        &&& 0 <= i < asked.len()
                        &&& #[trigger] answers(i) == Err::<EncodedTerm, S::Error>(error)
                        &&& may_answer(store, asked[i], answers(i))
                        &&& constants.contains(asked[i])
                    },
                Err(error) => pattern_rejects(pattern, error.model()),
            }
        }),
{
    lemma_query_ends(pattern, answers);
    if let Err(Error::Store(error)) = result {
        let asked = query_run(pattern, answers).1.asked;
        let i = choose|i: int|
            {
                &&& 0 <= i < asked.len()
                &&& #[trigger] answers(i) == Err::<EncodedTerm, S::Error>(error)
                &&& pattern_questions(pattern).contains(asked[i])
            };
        assert(may_answer(store, asked[i], answers(i)));
    }
}

/// A template is planned if and only if the store has a code for each of its constants. Then the
/// store was asked for these, in order. If not, the error is the store's answer to one of them.
pub proof fn lemma_template_ends<'p, S: StoreConnection>(
    store: S,
    template: Seq<TriplePattern>,
    variables: Seq<Name>,
    answers: Answers<S::Error>,
    result: Result<Vec<TripleTemplate>, Error<'p, S::Error>>,
)
    requires
        template_built(store, template, variables, answers, result),
    ensures
        ({
            let at = outset(variables);
            let asked = template_run(template, 0, seq![], answers, at, seq![]).1.asked;
            let constants = template_questions(template, 0);
            &&& result is Ok <==> all_codes(answers, 0, constants.len())
            &&& match result {
                Ok(_) => asked == constants,
                Err(error) => error is Store && exists|i: int|
                    {
                        &&& 0 <= i < asked.len()
                        &&& #[trigger] answers(i) == Err::<EncodedTerm, S::Error>(error->Store_0)
                        &&& may_answer(store, asked[i], answers(i))
                        &&& constants.contains(asked[i])
                    },
            }
        }),
{
    let at = outset(variables);
    let (outcome, end, _) = template_run(template, 0, seq![], answers, at, seq![]);
    let asked = end.asked;
    let constants = template_questions(template, 0);
    lemma_template_is_sound(template, 0, seq![], answers, at, seq![]);
    lemma_template_asks(template, 0, seq![], answers, at, seq![]);
    reveal(asks);
    reveal(all_codes);
    reveal(has_error);
    match result {
        Ok(_) => {
            assert(asked =~= constants);
        },
        Err(error) => {
            assert(error.model() is Store);
            let i = choose|i: int|
                0 <= i < asked.len() && #[trigger] answers(i) == Err::<EncodedTerm, S::Error>(
                    error->Store_0,
                );
            assert(may_answer(store, asked[i], answers(i)));
            assert(constants.contains(asked[i]));
        },
    }
}

} // verus!
