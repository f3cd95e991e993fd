//! What planning asks the store: the constants of a query, in the order in which it plans them.
use crate::algebra::{
    Expression, GraphPattern, NamedNodeOrVariable, OrderComparator, StaticBindings, TermOrVariable,
    TripleOrPathPattern, TriplePattern,
};
use crate::error::Outcome;
use crate::expression::{lemma_operand_is_part, operands, rejection};
use crate::laws::growth::{begins_with, lemma_keys_grow};
use crate::model::{names, Name, Term, Variable};
use crate::ordering::join_order;
use crate::plan::{Formula, Plan, Slot, SortKey, TemplateTriple};
use crate::semantics::{
    ask, blank_tuple, branches, branches_run, comparator_run, comparators_run, end_run,
    expression_run, joins_run, lemma_branch_is_part, middle_run, operands_run, pattern_run, row_run,
    rows_run, template_end_run, template_middle_run, template_run, template_triple_run, triple_run,
    Progress,
};
use crate::store::{Answers, EncodedTerm, Question};
use vstd::prelude::*;

verus! {

/// The constant that a subject or an object is.
pub open spec fn end_questions(end: TermOrVariable) -> Seq<Question> {
    match end {
        TermOrVariable::Term(term) => seq![Question::Term(term)],
        TermOrVariable::Variable(_) => seq![],
    }
}

/// The constant that a predicate or the name of a graph is.
pub open spec fn middle_questions(middle: NamedNodeOrVariable) -> Seq<Question> {
    match middle {
        NamedNodeOrVariable::NamedNode(node) => seq![Question::NamedNode(node)],
        NamedNodeOrVariable::Variable(_) => seq![],
    }
}

/// The constants of a triple pattern.
pub open spec fn triple_questions(triple: TriplePattern) -> Seq<Question> {
    end_questions(triple.subject) + middle_questions(triple.predicate) + end_questions(
        triple.object,
    )
}

/// The constants of the triple patterns in a list, from the `i`-th on. A path is not planned.
pub open spec fn member_questions(patterns: Seq<TripleOrPathPattern>, i: int) -> Seq<Question>
    decreases patterns.len() - i,
{
    if 0 <= i < patterns.len() {
        let first = match patterns[i] {
            TripleOrPathPattern::Triple(triple) => triple_questions(triple),
            TripleOrPathPattern::Path(_) => seq![],
        };
        first + member_questions(patterns, i + 1)
    } else {
        seq![]
    }
}

/// The values of a row, from the `i`-th place on.
pub open spec fn row_questions(row: Seq<Option<Term>>, i: int) -> Seq<Question>
    decreases row.len() - i,
{
    if 0 <= i < row.len() {
        let first = match row[i] {
            Some(term) => seq![Question::Term(term)],
            None => seq![],
        };
        first + row_questions(row, i + 1)
    } else {
        seq![]
    }
}

/// The values of rows, from the `i`-th row on.
pub open spec fn rows_questions(rows: Seq<Vec<Option<Term>>>, i: int) -> Seq<Question>
    decreases rows.len() - i,
{
    if 0 <= i < rows.len() {
        row_questions(rows[i]@, 0) + rows_questions(rows, i + 1)
    } else {
        seq![]
    }
}

/// The constants of an expression.
pub open spec fn expression_questions(expression: Expression) -> Seq<Question>
    decreases expression, operands(expression).len() + 1,
{
    match expression {
        Expression::Constant(constant) => end_questions(constant),
        Expression::Bound(_) => seq![],
        Expression::Exists(pattern) => pattern_questions(*pattern),
        _ => operand_questions(expression, 0),
    }
}

/// The constants of the operands of an expression, from the `i`-th on.
pub open spec fn operand_questions(expression: Expression, i: int) -> Seq<Question>
    decreases expression, operands(expression).len() - i,
{
    if 0 <= i < operands(expression).len() {
        proof {
            lemma_operand_is_part(expression, i);
        }
        expression_questions(operands(expression)[i]) + operand_questions(expression, i + 1)
    } else {
        seq![]
    }
}

/// The constants of a sort key.
pub open spec fn comparator_questions(comparator: OrderComparator) -> Seq<Question>
    decreases comparator, 0int,
{
    match comparator {
        OrderComparator::Asc(expression) => expression_questions(expression),
        OrderComparator::Desc(expression) => expression_questions(expression),
    }
}

/// The constants of sort keys, from the `i`-th on.
pub open spec fn comparators_questions(comparators: Seq<OrderComparator>, i: int) -> Seq<Question>
    decreases comparators, comparators.len() - i,
{
    if 0 <= i < comparators.len() {
        comparator_questions(comparators[i]) + comparators_questions(comparators, i + 1)
    } else {
        seq![]
    }
}

/// The constants of a pattern, in the order in which they are planned. A condition that is the
/// literal `true` is not planned.
pub open spec fn pattern_questions(pattern: GraphPattern) -> Seq<Question>
    decreases pattern, 1int,
{
    match pattern {
        GraphPattern::BGP(patterns) => member_questions(join_order(patterns@, set![]), 0),
        GraphPattern::Join(a, b) => pattern_questions(*a) + pattern_questions(*b),
        GraphPattern::LeftJoin(a, b, e) => {
            let sides = pattern_questions(*a) + pattern_questions(*b);
            if e.is_literal_true() {
                sides
            } else {
                sides + expression_questions(e)
            }
        },
        GraphPattern::Filter(e, p) => pattern_questions(*p) + expression_questions(e),
        GraphPattern::Union(a, b) => pattern_questions(*b) + pattern_questions(*a),
        GraphPattern::Graph(name, p) => middle_questions(name) + pattern_questions(*p),
        GraphPattern::Extend(p, _, e) => pattern_questions(*p) + expression_questions(e),
        GraphPattern::Minus(a, b) => pattern_questions(*a) + pattern_questions(*b),
        GraphPattern::Service(_, _, _) => seq![],
        GraphPattern::AggregateJoin(_, _) => seq![],
        GraphPattern::Data(bindings) => rows_questions(bindings.values@, 0),
        GraphPattern::OrderBy(p, order) => comparators_questions(order@, 0) + pattern_questions(
            *p,
        ),
        GraphPattern::Project(p, _) => pattern_questions(*p),
        GraphPattern::Distinct(p) => pattern_questions(*p),
        GraphPattern::Reduced(p) => pattern_questions(*p),
        GraphPattern::Slice(p, _, _) => pattern_questions(*p),
    }
}

/// The constants of the triples of a template, from the `i`-th on.
pub open spec fn template_questions(template: Seq<TriplePattern>, i: int) -> Seq<Question>
    decreases template.len() - i,
{
    if 0 <= i < template.len() {
        triple_questions(template[i]) + template_questions(template, i + 1)
    } else {
        seq![]
    }
}

/// Whether a run asks these questions: all of them, in order, if it is done, and else none that is
/// not among them, and no more than there are of them.
#[verifier::opaque]
pub open spec fn asks(done: bool, at: Progress, next: Progress, questions: Seq<Question>) -> bool {
    &&& begins_with(next.asked, at.asked)
    &&& next.asked.len() <= at.asked.len() + questions.len()
    &&& done ==> next.asked == at.asked + questions
    &&& forall|i: int|
        at.asked.len() <= i < next.asked.len() ==> questions.contains(#[trigger] next.asked[i])
}

/// A run that asks nothing.
proof fn lemma_asks_nothing(done: bool, at: Progress, next: Progress)
    requires
        next.asked == at.asked,
    ensures
        asks(done, at, next, seq![]),
{
    reveal(asks);
    assert(at.asked + Seq::<Question>::empty() =~= at.asked);
}

/// A run that goes no further asks none of what would come.
proof fn lemma_asks_no_more(at: Progress, questions: Seq<Question>)
    ensures
        asks(false, at, at, questions),
{
    reveal(asks);
}

/// Two runs, one after the other.
proof fn lemma_asks_both(
    first: bool,
    second: bool,
    at: Progress,
    middle: Progress,
    next: Progress,
    before: Seq<Question>,
    after: Seq<Question>,
)
    requires
        asks(first, at, middle, before),
        asks(second, middle, next, after),
    ensures
        asks(first && second, at, next, before + after),
{
    reveal(asks);
    let all = before + after;
    assert forall|i: int| 0 <= i < at.asked.len() implies at.asked[i]
        == #[trigger] next.asked[i] by {
        assert(middle.asked[i] == next.asked[i]);
    }
    assert forall|i: int| at.asked.len() <= i < next.asked.len() implies all.contains(
        #[trigger] next.asked[i],
    ) by {
        if i < middle.asked.len() {
            assert(middle.asked[i] == next.asked[i]);
            let j = choose|j: int| 0 <= j < before.len() && before[j] == middle.asked[i];
            assert(all[j] == next.asked[i]);
        } else {
            let j = choose|j: int| 0 <= j < after.len() && after[j] == next.asked[i];
            assert(all[before.len() + j] == next.asked[i]);
        }
    }
    if first && second {
        assert(next.asked =~= at.asked + all);
    }
}

/// A run that ends early asks none of what would come.
proof fn lemma_asks_less(
    at: Progress,
    next: Progress,
    before: Seq<Question>,
    after: Seq<Question>,
)
    requires
        asks(false, at, next, before),
    ensures
        asks(false, at, next, before + after),
{
    lemma_asks_no_more(next, after);
    lemma_asks_both(false, false, at, next, next, before, after);
}

proof fn lemma_ask_asks<E>(question: Question, answers: Answers<E>, at: Progress)
    ensures
        ({
            let (outcome, next) = ask(question, answers, at);
            asks(outcome is Done, at, next, seq![question])
        }),
{
    reveal(asks);
    let next = at.asking(question);
    assert(next.asked =~= at.asked + seq![question]);
    assert(seq![question][0] == question);
}

proof fn lemma_end_asks<E>(end: TermOrVariable, answers: Answers<E>, at: Progress)
    ensures
        ({
            let (outcome, next) = end_run(end, answers, at);
            asks(outcome is Done, at, next, end_questions(end))
        }),
{
    match end {
        TermOrVariable::Term(term) => {
            lemma_ask_asks(Question::Term(term), answers, at);
        },
        TermOrVariable::Variable(v) => {
            lemma_asks_nothing(true, at, at.met(v));
        },
    }
}

proof fn lemma_middle_asks<E>(middle: NamedNodeOrVariable, answers: Answers<E>, at: Progress)
    ensures
        ({
            let (outcome, next) = middle_run(middle, answers, at);
            asks(outcome is Done, at, next, middle_questions(middle))
        }),
{
    match middle {
        NamedNodeOrVariable::NamedNode(node) => {
            lemma_ask_asks(Question::NamedNode(node), answers, at);
        },
        NamedNodeOrVariable::Variable(v) => {
            lemma_asks_nothing(true, at, at.met(v));
        },
    }
}

proof fn lemma_triple_asks<E>(
    triple: TriplePattern,
    input: Plan,
    graph: Slot,
    answers: Answers<E>,
    at: Progress,
)
    ensures
        ({
            let (outcome, next) = triple_run(triple, input, graph, answers, at);
            asks(outcome is Done, at, next, triple_questions(triple))
        }),
{
    let s = end_questions(triple.subject);
    let p = middle_questions(triple.predicate);
    let o = end_questions(triple.object);
    lemma_end_asks(triple.subject, answers, at);
    let (subject, at1) = end_run(triple.subject, answers, at);
    if subject is Done {
        lemma_middle_asks(triple.predicate, answers, at1);
        let (predicate, at2) = middle_run(triple.predicate, answers, at1);
        lemma_asks_both(true, predicate is Done, at, at1, at2, s, p);
        if predicate is Done {
            lemma_end_asks(triple.object, answers, at2);
            let (object, at3) = end_run(triple.object, answers, at2);
            lemma_asks_both(true, object is Done, at, at2, at3, s + p, o);
        } else {
            lemma_asks_less(at, at2, s + p, o);
        }
    } else {
        lemma_asks_less(at, at1, s, p);
        lemma_asks_less(at, at1, s + p, o);
    }
}

proof fn lemma_joins_ask<E>(
    patterns: Seq<TripleOrPathPattern>,
    i: int,
    input: Plan,
    graph: Slot,
    answers: Answers<E>,
    at: Progress,
)
    ensures
        ({
            let (outcome, next) = joins_run(patterns, i, input, graph, answers, at);
            asks(outcome is Done, at, next, member_questions(patterns, i))
        }),
    decreases patterns.len() - i,
{
    if 0 <= i < patterns.len() {
        let rest = member_questions(patterns, i + 1);
        match patterns[i] {
            TripleOrPathPattern::Triple(triple) => {
                let first = triple_questions(triple);
                lemma_triple_asks(triple, input, graph, answers, at);
                let (outcome, next) = triple_run(triple, input, graph, answers, at);
                if let Outcome::Done(plan) = outcome {
                    lemma_joins_ask(patterns, i + 1, plan, graph, answers, next);
                    let (whole, end) = joins_run(patterns, i + 1, plan, graph, answers, next);
                    lemma_asks_both(true, whole is Done, at, next, end, first, rest);
                } else {
                    lemma_asks_less(at, next, first, rest);
                }
            },
            TripleOrPathPattern::Path(_) => {
                lemma_asks_no_more(at, member_questions(patterns, i));
            },
        }
    } else {
        lemma_asks_nothing(true, at, at);
    }
}

proof fn lemma_row_asks<E>(
    variables: Seq<Variable>,
    row: Seq<Option<Term>>,
    i: int,
    tuple: Seq<Option<EncodedTerm>>,
    answers: Answers<E>,
    at: Progress,
)
    ensures
        ({
            let (outcome, next) = row_run(variables, row, i, tuple, answers, at);
            asks(outcome is Done, at, next, row_questions(row, i))
        }),
    decreases row.len() - i,
{
    if 0 <= i < row.len() {
        let rest = row_questions(row, i + 1);
        match row[i] {
            Some(term) => {
                let question = Question::Term(term);
                let (outcome, next) = ask(question, answers, at);
                lemma_ask_asks(question, answers, at);
                if outcome is Done && i < variables.len() {
                    let key = next.key(variables[i]);
                    let met = next.met(variables[i]);
                    lemma_asks_nothing(true, next, met);
                    lemma_asks_both(true, true, at, next, met, seq![question], seq![]);
                    assert(seq![question] + Seq::<Question>::empty() =~= seq![question]);
                    if key < tuple.len() {
                        let filled = tuple.update(key as int, Some(outcome->Done_0));
                        lemma_row_asks(variables, row, i + 1, filled, answers, met);
                        let (whole, end) = row_run(variables, row, i + 1, filled, answers, met);
                        lemma_asks_both(true, whole is Done, at, met, end, seq![question], rest);
                    } else {
                        lemma_asks_no_more(met, rest);
                        lemma_asks_both(true, false, at, met, met, seq![question], rest);
                    }
                } else {
                    lemma_asks_no_more(next, rest);
                    lemma_asks_both(outcome is Done, false, at, next, next, seq![question], rest);
                }
            },
            None => {
                lemma_row_asks(variables, row, i + 1, tuple, answers, at);
                assert(Seq::<Question>::empty() + rest =~= rest);
            },
        }
    } else {
        lemma_asks_nothing(true, at, at);
    }
}

proof fn lemma_rows_ask<E>(
    bindings: StaticBindings,
    i: int,
    tuples: Seq<Seq<Option<EncodedTerm>>>,
    answers: Answers<E>,
    at: Progress,
)
    ensures
        ({
            let (outcome, next) = rows_run(bindings, i, tuples, answers, at);
            asks(outcome is Done, at, next, rows_questions(bindings.values@, i))
        }),
    decreases bindings.values@.len() - i,
{
    if 0 <= i < bindings.values@.len() {
        let blank = blank_tuple(at.variables.len());
        let row = bindings.values@[i]@;
        let first = row_questions(row, 0);
        let rest = rows_questions(bindings.values@, i + 1);
        lemma_row_asks(bindings.variables@, row, 0, blank, answers, at);
        let (outcome, next) = row_run(bindings.variables@, row, 0, blank, answers, at);
        if let Outcome::Done(tuple) = outcome {
            lemma_rows_ask(bindings, i + 1, tuples.push(tuple), answers, next);
            let (whole, end) = rows_run(bindings, i + 1, tuples.push(tuple), answers, next);
            lemma_asks_both(true, whole is Done, at, next, end, first, rest);
        } else {
            lemma_asks_less(at, next, first, rest);
        }
    } else {
        lemma_asks_nothing(true, at, at);
    }
}

/// Planning an expression asks for its constants, in order.
pub proof fn lemma_expression_asks<E>(
    expression: Expression,
    graph: Slot,
    answers: Answers<E>,
    at: Progress,
)
    ensures
        ({
            let (outcome, next) = expression_run(expression, graph, answers, at);
            asks(outcome is Done, at, next, expression_questions(expression))
        }),
    decreases expression, operands(expression).len() + 1,
{
    match expression {
        Expression::Constant(TermOrVariable::Term(term)) => {
            lemma_ask_asks(Question::Term(term), answers, at);
        },
        Expression::Constant(TermOrVariable::Variable(v)) => {
            lemma_asks_nothing(true, at, at.met(v));
        },
        Expression::Bound(v) => {
            lemma_asks_nothing(true, at, at.met(v));
        },
        Expression::Exists(pattern) => {
            lemma_pattern_asks(*pattern, Plan::Init, graph, answers, at);
        },
        _ => {
            let all = operand_questions(expression, 0);
            if rejection::<E>(expression) is None {
                lemma_operands_ask(expression, 0, seq![], graph, answers, at);
                let (outcome, next) = operands_run(expression, 0, seq![], graph, answers, at);
                lemma_asks_undone(outcome is Done, at, next, all);
            } else {
                lemma_asks_no_more(at, all);
            }
        },
    }
}

/// What asks all that a run asks does so whether it counts as done or not.
proof fn lemma_asks_undone(done: bool, at: Progress, next: Progress, questions: Seq<Question>)
    requires
        asks(done, at, next, questions),
    ensures
        asks(false, at, next, questions),
{
    reveal(asks);
}

proof fn lemma_operands_ask<E>(
    expression: Expression,
    i: int,
    parts: Seq<Formula>,
    graph: Slot,
    answers: Answers<E>,
    at: Progress,
)
    ensures
        ({
            let (outcome, next) = operands_run(expression, i, parts, graph, answers, at);
            asks(outcome is Done, at, next, operand_questions(expression, i))
        }),
    decreases expression, operands(expression).len() - i,
{
    if 0 <= i < operands(expression).len() {
        lemma_operand_is_part(expression, i);
        let operand = operands(expression)[i];
        let first = expression_questions(operand);
        let rest = operand_questions(expression, i + 1);
        lemma_expression_asks(operand, graph, answers, at);
        let (outcome, next) = expression_run(operand, graph, answers, at);
        if let Outcome::Done(part) = outcome {
            let more = parts.push(part);
            lemma_operands_ask(expression, i + 1, more, graph, answers, next);
            let (whole, end) = operands_run(expression, i + 1, more, graph, answers, next);
            lemma_asks_both(true, whole is Done, at, next, end, first, rest);
        } else {
            lemma_asks_less(at, next, first, rest);
        }
    } else {
        lemma_asks_nothing(true, at, at);
    }
}

proof fn lemma_comparator_asks<E>(
    comparator: OrderComparator,
    graph: Slot,
    answers: Answers<E>,
    at: Progress,
)
    ensures
        ({
            let (outcome, next) = comparator_run(comparator, graph, answers, at);
            asks(outcome is Done, at, next, comparator_questions(comparator))
        }),
    decreases comparator, 0int,
{
    match comparator {
        OrderComparator::Asc(e) | OrderComparator::Desc(e) => {
            lemma_expression_asks(e, graph, answers, at);
        },
    }
}

proof fn lemma_comparators_ask<E>(
    comparators: Seq<OrderComparator>,
    i: int,
    keys: Seq<SortKey>,
    graph: Slot,
    answers: Answers<E>,
    at: Progress,
)
    ensures
        ({
            let (outcome, next) = comparators_run(comparators, i, keys, graph, answers, at);
            asks(outcome is Done, at, next, comparators_questions(comparators, i))
        }),
    decreases comparators, comparators.len() - i,
{
    if 0 <= i < comparators.len() {
        let first = comparator_questions(comparators[i]);
        let rest = comparators_questions(comparators, i + 1);
        lemma_comparator_asks(comparators[i], graph, answers, at);
        let (outcome, next) = comparator_run(comparators[i], graph, answers, at);
        if let Outcome::Done(key) = outcome {
            let more = keys.push(key);
            lemma_comparators_ask(comparators, i + 1, more, graph, answers, next);
            let (whole, end) = comparators_run(comparators, i + 1, more, graph, answers, next);
            lemma_asks_both(true, whole is Done, at, next, end, first, rest);
        } else {
            lemma_asks_less(at, next, first, rest);
        }
    } else {
        lemma_asks_nothing(true, at, at);
    }
}

/// The constants of the patterns in a list, from the `i`-th on.
spec fn list_questions(list: Seq<GraphPattern>, i: int) -> Seq<Question>
    decreases list.len() - i,
{
    if 0 <= i < list.len() {
        pattern_questions(list[i]) + list_questions(list, i + 1)
    } else {
        seq![]
    }
}

proof fn lemma_list_questions(first: Seq<GraphPattern>, second: Seq<GraphPattern>, i: int)
    requires
        0 <= i,
    ensures
        i <= first.len() ==> list_questions(first + second, i) == list_questions(first, i)
            + list_questions(second, 0),
        i > first.len() ==> list_questions(first + second, i) == list_questions(
            second,
            i - first.len(),
        ),
    decreases first.len() + second.len() - i,
{
    let all = first + second;
    if i < all.len() {
        lemma_list_questions(first, second, i + 1);
        if i < first.len() {
            assert(all[i] == first[i]);
            assert(list_questions(all, i) =~= list_questions(first, i) + list_questions(second, 0));
        } else {
            assert(all[i] == second[i - first.len()]);
            if i == first.len() {
                if second.len() == 1 {
                    assert(list_questions(all, i + 1) =~= list_questions(second, 1));
                }
                assert(list_questions(all, i) =~= list_questions(first, i) + list_questions(
                    second,
                    0,
                ));
            }
        }
    } else if i == first.len() {
        assert(list_questions(first, i) + list_questions(second, 0) =~= seq![]);
    }
}

/// The constants of a union are those of its alternatives.
proof fn lemma_union_questions(pattern: GraphPattern)
    ensures
        pattern_questions(pattern) == list_questions(branches(pattern), 0),
    decreases pattern,
{
    if let GraphPattern::Union(a, b) = pattern {
        lemma_union_questions(*a);
        lemma_union_questions(*b);
        lemma_list_questions(branches(*b), branches(*a), 0);
    } else {
        let list = branches(pattern);
        assert(list_questions(list, 1) =~= seq![]);
        assert(list[0] == pattern);
        assert(list_questions(list, 0) =~= pattern_questions(pattern));
    }
}

proof fn lemma_branches_ask<E>(
    pattern: GraphPattern,
    i: int,
    children: Seq<Plan>,
    graph: Slot,
    answers: Answers<E>,
    at: Progress,
)
    requires
        pattern is Union,
    ensures
        ({
            let (outcome, next) = branches_run(pattern, i, children, graph, answers, at);
            asks(outcome is Done, at, next, list_questions(branches(pattern), i))
        }),
    decreases pattern, branches(pattern).len() - i,
{
    if 0 <= i < branches(pattern).len() {
        lemma_branch_is_part(pattern, i);
        let branch = branches(pattern)[i];
        let first = pattern_questions(branch);
        let rest = list_questions(branches(pattern), i + 1);
        lemma_pattern_asks(branch, Plan::Init, graph, answers, at);
        let (outcome, next) = pattern_run(branch, Plan::Init, graph, answers, at);
        if let Outcome::Done(plan) = outcome {
            let more = children.push(plan);
            lemma_branches_ask(pattern, i + 1, more, graph, answers, next);
            let (whole, end) = branches_run(pattern, i + 1, more, graph, answers, next);
            lemma_asks_both(true, whole is Done, at, next, end, first, rest);
        } else {
            lemma_asks_less(at, next, first, rest);
        }
    } else {
        lemma_asks_nothing(true, at, at);
    }
}

/// Planning a pattern asks for its constants, in order. If it does not come to a plan, it has
/// asked for nothing else.
pub proof fn lemma_pattern_asks<E>(
    pattern: GraphPattern,
    input: Plan,
    graph: Slot,
    answers: Answers<E>,
    at: Progress,
)
    ensures
        ({
            let (outcome, next) = pattern_run(pattern, input, graph, answers, at);
            asks(outcome is Done, at, next, pattern_questions(pattern))
        }),
    decreases pattern, branches(pattern).len() + 1,
{
    match pattern {
        GraphPattern::BGP(patterns) => {
            lemma_joins_ask(join_order(patterns@, set![]), 0, input, graph, answers, at);
        },
        GraphPattern::Join(a, b) | GraphPattern::Minus(a, b) => {
            let (first, second) = (pattern_questions(*a), pattern_questions(*b));
            lemma_pattern_asks(*a, input, graph, answers, at);
            let (left, at1) = pattern_run(*a, input, graph, answers, at);
            if left is Done {
                lemma_pattern_asks(*b, input, graph, answers, at1);
                let (right, at2) = pattern_run(*b, input, graph, answers, at1);
                lemma_asks_both(true, right is Done, at, at1, at2, first, second);
            } else {
                lemma_asks_less(at, at1, first, second);
            }
        },
        GraphPattern::LeftJoin(a, b, e) => {
            let (first, second) = (pattern_questions(*a), pattern_questions(*b));
            let third = expression_questions(e);
            lemma_pattern_asks(*a, input, graph, answers, at);
            let (left, at1) = pattern_run(*a, input, graph, answers, at);
            if left is Done {
                lemma_pattern_asks(*b, Plan::Init, graph, answers, at1);
                let (right, at2) = pattern_run(*b, Plan::Init, graph, answers, at1);
                lemma_asks_both(true, right is Done, at, at1, at2, first, second);
                if right is Done {
                    lemma_expression_asks(e, graph, answers, at2);
                    let (condition, at3) = expression_run(e, graph, answers, at2);
                    lemma_asks_both(true, condition is Done, at, at2, at3, first + second, third);
                } else {
                    lemma_asks_less(at, at2, first + second, third);
                }
            } else {
                lemma_asks_less(at, at1, first, second);
                lemma_asks_less(at, at1, first + second, third);
            }
        },
        GraphPattern::Filter(e, p) => {
            let (first, second) = (pattern_questions(*p), expression_questions(e));
            lemma_pattern_asks(*p, input, graph, answers, at);
            let (child, at1) = pattern_run(*p, input, graph, answers, at);
            if child is Done {
                lemma_expression_asks(e, graph, answers, at1);
                let (condition, at2) = expression_run(e, graph, answers, at1);
                lemma_asks_both(true, condition is Done, at, at1, at2, first, second);
            } else {
                lemma_asks_less(at, at1, first, second);
            }
        },
        GraphPattern::Union(_, _) => {
            lemma_union_questions(pattern);
            lemma_branches_ask(pattern, 0, seq![], graph, answers, at);
        },
        GraphPattern::Graph(name, p) => {
            let (first, second) = (middle_questions(name), pattern_questions(*p));
            lemma_middle_asks(name, answers, at);
            let (outcome, at1) = middle_run(name, answers, at);
            if let Outcome::Done(named) = outcome {
                lemma_pattern_asks(*p, input, named, answers, at1);
                let (child, at2) = pattern_run(*p, input, named, answers, at1);
                lemma_asks_both(true, child is Done, at, at1, at2, first, second);
            } else {
                lemma_asks_less(at, at1, first, second);
            }
        },
        GraphPattern::Extend(p, v, e) => {
            let (first, second) = (pattern_questions(*p), expression_questions(e));
            lemma_pattern_asks(*p, input, graph, answers, at);
            let (child, at1) = pattern_run(*p, input, graph, answers, at);
            if child is Done {
                let met = at1.met(v);
                lemma_asks_nothing(true, at1, met);
                lemma_asks_both(true, true, at, at1, met, first, seq![]);
                assert(first + Seq::<Question>::empty() =~= first);
                lemma_expression_asks(e, graph, answers, met);
                let (value, at2) = expression_run(e, graph, answers, met);
                lemma_asks_both(true, value is Done, at, met, at2, first, second);
            } else {
                lemma_asks_less(at, at1, first, second);
            }
        },
        GraphPattern::Service(_, _, _) => {
            lemma_asks_no_more(at, seq![]);
        },
        GraphPattern::AggregateJoin(_, _) => {
            lemma_asks_no_more(at, seq![]);
        },
        GraphPattern::Data(bindings) => {
            lemma_rows_ask(bindings, 0, seq![], answers, at);
        },
        GraphPattern::OrderBy(p, order) => {
            let (first, second) = (comparators_questions(order@, 0), pattern_questions(*p));
            lemma_comparators_ask(order@, 0, seq![], graph, answers, at);
            let (sorting, at1) = comparators_run(order@, 0, seq![], graph, answers, at);
            lemma_pattern_asks(*p, input, graph, answers, at1);
            let (child, at2) = pattern_run(*p, input, graph, answers, at1);
            lemma_asks_both(sorting is Done, child is Done, at, at1, at2, first, second);
            if sorting is Stuck {
                lemma_asks_less(at, at1, first, second);
            }
        },
        GraphPattern::Project(p, variables) => {
            let inside = at.with_variables(names(variables@));
            lemma_pattern_asks(*p, input, graph, answers, inside);
            let (child, inner) = pattern_run(*p, input, graph, answers, inside);
            let back = inner.with_variables(at.variables);
            lemma_keys_grow(variables@, 0, seq![], back);
            reveal(asks);
        },
        GraphPattern::Distinct(p) | GraphPattern::Reduced(p) | GraphPattern::Slice(p, _, _) => {
            lemma_pattern_asks(*p, input, graph, answers, at);
        },
    }
}

proof fn lemma_template_end_asks<E>(
    end: TermOrVariable,
    answers: Answers<E>,
    at: Progress,
    blanks: Seq<Name>,
)
    ensures
        ({
            let (outcome, next, _) = template_end_run(end, answers, at, blanks);
            asks(outcome is Done, at, next, end_questions(end))
        }),
{
    match end {
        TermOrVariable::Term(term) => {
            lemma_ask_asks(Question::Term(term), answers, at);
        },
        TermOrVariable::Variable(v) => {
            lemma_asks_nothing(true, at, template_end_run(end, answers, at, blanks).1);
        },
    }
}

proof fn lemma_template_middle_asks<E>(
    middle: NamedNodeOrVariable,
    answers: Answers<E>,
    at: Progress,
    blanks: Seq<Name>,
)
    ensures
        ({
            let (outcome, next, _) = template_middle_run(middle, answers, at, blanks);
            asks(outcome is Done, at, next, middle_questions(middle))
        }),
{
    match middle {
        NamedNodeOrVariable::NamedNode(node) => {
            lemma_ask_asks(Question::NamedNode(node), answers, at);
        },
        NamedNodeOrVariable::Variable(v) => {
            lemma_asks_nothing(true, at, template_middle_run(middle, answers, at, blanks).1);
        },
    }
}

proof fn lemma_template_triple_asks<E>(
    triple: TriplePattern,
    answers: Answers<E>,
    at: Progress,
    blanks: Seq<Name>,
)
    ensures
        ({
            let (outcome, next, _) = template_triple_run(triple, answers, at, blanks);
            asks(outcome is Done, at, next, triple_questions(triple))
        }),
{
    let s = end_questions(triple.subject);
    let p = middle_questions(triple.predicate);
    let o = end_questions(triple.object);
    lemma_template_end_asks(triple.subject, answers, at, blanks);
    let (subject, at1, blanks1) = template_end_run(triple.subject, answers, at, blanks);
    if subject is Done {
        lemma_template_middle_asks(triple.predicate, answers, at1, blanks1);
        let (predicate, at2, blanks2) = template_middle_run(
            triple.predicate,
            answers,
            at1,
            blanks1,
        );
        lemma_asks_both(true, predicate is Done, at, at1, at2, s, p);
        if predicate is Done {
            lemma_template_end_asks(triple.object, answers, at2, blanks2);
            let (object, at3, _) = template_end_run(triple.object, answers, at2, blanks2);
            lemma_asks_both(true, object is Done, at, at2, at3, s + p, o);
        } else {
            lemma_asks_less(at, at2, s + p, o);
        }
    } else {
        lemma_asks_less(at, at1, s, p);
        lemma_asks_less(at, at1, s + p, o);
    }
}

/// Planning a template asks for its constants, in order. If it fails, it has asked for nothing
/// else.
pub proof fn lemma_template_asks<E>(
    template: Seq<TriplePattern>,
    i: int,
    made: Seq<TemplateTriple>,
    answers: Answers<E>,
    at: Progress,
    blanks: Seq<Name>,
)
    ensures
        ({
            let (outcome, next, _) = template_run(template, i, made, answers, at, blanks);
            asks(outcome is Done, at, next, template_questions(template, i))
        }),
    decreases template.len() - i,
{
    if 0 <= i < template.len() {
        let first = triple_questions(template[i]);
        let rest = template_questions(template, i + 1);
        lemma_template_triple_asks(template[i], answers, at, blanks);
        let (outcome, at1, blanks1) = template_triple_run(template[i], answers, at, blanks);
        if let Outcome::Done(triple) = outcome {
            let more = made.push(triple);
            lemma_template_asks(template, i + 1, more, answers, at1, blanks1);
            let (whole, end, _) = template_run(template, i + 1, more, answers, at1, blanks1);
            lemma_asks_both(true, whole is Done, at, at1, end, first, rest);
        } else {
            lemma_asks_less(at, at1, first, rest);
        }
    } else {
        lemma_asks_nothing(true, at, at);
    }
}

} // verus!
