//! How the plan of a pattern is made of the plans of its parts.
use crate::algebra::{
    Expression, GraphPattern, GroupPattern, NamedNodeOrVariable, OrderComparator, StaticBindings,
    TermOrVariable, TripleOrPathPattern, TriplePattern,
};
use crate::error::{Failure, Outcome};
use crate::laws::faithful::is_position_of;
use crate::laws::growth::begins_with;
use crate::laws::results::lemma_entering_twice;
use crate::model::{names, Name, Term, Variable};
use crate::numbering::{enter, key_of, lemma_key_is_first_place};
use crate::ordering::join_order;
use crate::plan::{Formula, Plan, Slot, SortKey, TemplateSlot, TemplateTriple};
use crate::semantics::{
    branches, branches_run, comparator_run, comparators_run, end_run, expression_run, joins_run,
    keys_run, middle_run, pattern_run, query_run, row_run, rows_run, template_end_run,
    template_middle_run, template_run, template_triple_run, triple_run, Progress,
};
use crate::store::{Answers, EncodedTerm, Question};
use vstd::prelude::*;

verus! {

/// Whether a run ends without a result, as and where a part of it does.
pub open spec fn stops_as<T, U, E>(
    whole: (Outcome<T, E>, Progress),
    part: (Outcome<U, E>, Progress),
) -> bool {
    &&& whole.1 == part.1
    &&& match part.0 {
        Outcome::Done(_) => false,
        Outcome::Failed(failure) => whole.0 == Outcome::<T, E>::Failed(failure),
        Outcome::Stuck => whole.0 is Stuck,
    }
}

/// Meeting a variable numbers it after all others, if it is not numbered yet, and nothing else. Its
/// key is the first place at which it then is.
pub proof fn lemma_meeting(at: Progress, v: Variable)
    ensures
        at.met(v).asked == at.asked,
        at.variables.contains(v@) ==> at.met(v).variables == at.variables,
        !at.variables.contains(v@) ==> at.met(v).variables == at.variables.push(v@),
        is_position_of(at.key(v), v, at.met(v).variables),
{
    lemma_entering_twice(at.variables, v@);
    lemma_key_is_first_place(at.met(v).variables, v@);
}

/// The filter of a pattern stands on the plan of that pattern, which is planned first.
pub proof fn lemma_filter<E>(
    e: Expression,
    p: Box<GraphPattern>,
    input: Plan,
    graph: Slot,
    answers: Answers<E>,
    at: Progress,
)
    ensures
        ({
            let whole = pattern_run(GraphPattern::Filter(e, p), input, graph, answers, at);
            let first = pattern_run(*p, input, graph, answers, at);
            match first {
                (Outcome::Done(plan), at1) => {
                    let second = expression_run(e, graph, answers, at1);
                    match second {
                        (Outcome::Done(expression), at2) => {
                            &&& whole.0 matches Outcome::Done(made)
                            &&& made == Plan::Filter { child: Box::new(plan), expression }
                            &&& whole.1 == at2
                        },
                        _ => stops_as(whole, second),
                    }
                },
                _ => stops_as(whole, first),
            }
        }),
{
}

/// An extension stands on the plan of its pattern. Its variable is numbered after that and before
/// its expression.
pub proof fn lemma_extend<E>(
    p: Box<GraphPattern>,
    v: Variable,
    e: Expression,
    input: Plan,
    graph: Slot,
    answers: Answers<E>,
    at: Progress,
)
    ensures
        ({
            let whole = pattern_run(GraphPattern::Extend(p, v, e), input, graph, answers, at);
            let first = pattern_run(*p, input, graph, answers, at);
            match first {
                (Outcome::Done(plan), at1) => {
                    let second = expression_run(e, graph, answers, at1.met(v));
                    match second {
                        (Outcome::Done(computed), at2) => {
                            &&& whole.0 matches Outcome::Done(made)
                            &&& made matches Plan::Extend { child, position, expression }
                            &&& *child == plan
                            &&& is_position_of(position, v, at1.met(v).variables)
                            &&& expression == computed
                            &&& whole.1 == at2
                        },
                        _ => stops_as(whole, second),
                    }
                },
                _ => stops_as(whole, first),
            }
        }),
{
    if let (Outcome::Done(_), at1) = pattern_run(*p, input, graph, answers, at) {
        lemma_meeting(at1, v);
    }
}

/// A pattern in a graph clause is planned as it is elsewhere, but for the graph, which is planned
/// before it.
pub proof fn lemma_graph_clause<E>(
    name: NamedNodeOrVariable,
    p: Box<GraphPattern>,
    input: Plan,
    graph: Slot,
    answers: Answers<E>,
    at: Progress,
)
    ensures
        ({
            let whole = pattern_run(GraphPattern::Graph(name, p), input, graph, answers, at);
            let first = middle_run(name, answers, at);
            match first {
                (Outcome::Done(named), at1) => whole == pattern_run(*p, input, named, answers, at1),
                _ => stops_as(whole, first),
            }
        }),
{
}

/// The right side of a left join starts afresh, after the left side. Its condition, unless it is
/// the literal `true`, is a filter on the right side.
pub proof fn lemma_left_join<E>(
    a: Box<GraphPattern>,
    b: Box<GraphPattern>,
    e: Expression,
    input: Plan,
    graph: Slot,
    answers: Answers<E>,
    at: Progress,
)
    ensures
        ({
            let whole = pattern_run(GraphPattern::LeftJoin(a, b, e), input, graph, answers, at);
            let first = pattern_run(*a, input, graph, answers, at);
            match first {
                (Outcome::Done(l), at1) => {
                    let second = pattern_run(*b, Plan::Init, graph, answers, at1);
                    match second {
                        (Outcome::Done(r), at2) => {
                            let third = expression_run(e, graph, answers, at2);
                            if e.is_literal_true() {
                                &&& whole.0 matches Outcome::Done(made)
                                &&& made matches Plan::LeftJoin { left, right, .. }
                                &&& *left == l
                                &&& *right == r
                                &&& whole.1 == at2
                            } else {
                                match third {
                                    (Outcome::Done(expression), at3) => {
                                        &&& whole.0 matches Outcome::Done(made)
                                        &&& made matches Plan::LeftJoin { left, right, .. }
                                        &&& *left == l
                                        &&& *right == Plan::Filter {
                                            child: Box::new(r),
                                            expression,
                                        }
                                        &&& whole.1 == at3
                                    },
                                    _ => stops_as(whole, third),
                                }
                            }
                        },
                        _ => stops_as(whole, second),
                    }
                },
                _ => stops_as(whole, first),
            }
        }),
{
}

/// Solutions are sorted by the sort keys of their pattern, which are planned before it. A pattern
/// that fails comes before sort keys that fail.
pub proof fn lemma_order_by<E>(
    p: Box<GraphPattern>,
    order: Vec<OrderComparator>,
    input: Plan,
    graph: Slot,
    answers: Answers<E>,
    at: Progress,
)
    ensures
        ({
            let whole = pattern_run(GraphPattern::OrderBy(p, order), input, graph, answers, at);
            let first = comparators_run(order@, 0, seq![], graph, answers, at);
            let second = pattern_run(*p, input, graph, answers, first.1);
            match first.0 {
                Outcome::Stuck => stops_as(whole, first),
                Outcome::Failed(failure) => match second {
                    (Outcome::Done(_), at2) => whole == (
                        Outcome::<Plan, E>::Failed(failure),
                        at2,
                    ),
                    _ => stops_as(whole, second),
                },
                Outcome::Done(by) => match second {
                    (Outcome::Done(plan), at2) => {
                        &&& whole.0 matches Outcome::Done(made)
                        &&& made == Plan::Sort { child: Box::new(plan), by }
                        &&& whole.1 == at2
                    },
                    _ => stops_as(whole, second),
                },
            }
        }),
{
}

/// Sort keys are planned one after the other, in their own directions. The first that has no plan
/// ends it.
pub proof fn lemma_sort_keys<E>(
    comparators: Seq<OrderComparator>,
    i: int,
    keys: Seq<SortKey>,
    graph: Slot,
    answers: Answers<E>,
    at: Progress,
)
    requires
        0 <= i <= comparators.len(),
    ensures
        ({
            let whole = comparators_run(comparators, i, keys, graph, answers, at);
            if i == comparators.len() {
                whole == (Outcome::<Seq<SortKey>, E>::Done(keys), at)
            } else {
                let e = match comparators[i] {
                    OrderComparator::Asc(e) => e,
                    OrderComparator::Desc(e) => e,
                };
                let first = expression_run(e, graph, answers, at);
                match first {
                    (Outcome::Done(formula), at1) => {
                        let key = match comparators[i] {
                            OrderComparator::Asc(_) => SortKey::Asc(formula),
                            OrderComparator::Desc(_) => SortKey::Desc(formula),
                        };
                        whole == comparators_run(
                            comparators,
                            i + 1,
                            keys.push(key),
                            graph,
                            answers,
                            at1,
                        )
                    },
                    _ => stops_as(whole, first),
                }
            }
        }),
{
    if i < comparators.len() {
        let part = comparator_run(comparators[i], graph, answers, at);
        assert(part.0 is Done || stops_as(
            comparators_run(comparators, i, keys, graph, answers, at),
            part,
        ));
    }
}

/// Duplicates are removed from what the plan of a pattern yields.
pub proof fn lemma_distinct<E>(
    p: Box<GraphPattern>,
    input: Plan,
    graph: Slot,
    answers: Answers<E>,
    at: Progress,
)
    ensures
        ({
            let whole = pattern_run(GraphPattern::Distinct(p), input, graph, answers, at);
            let first = pattern_run(*p, input, graph, answers, at);
            match first {
                (Outcome::Done(plan), next) => {
                    &&& whole.0 matches Outcome::Done(made)
                    &&& made == Plan::HashDeduplicate { child: Box::new(plan) }
                    &&& whole.1 == next
                },
                _ => stops_as(whole, first),
            }
        }),
{
}

/// A slice skips as many solutions as it says, if any, and then keeps no more than it says, if it
/// says so.
pub proof fn lemma_slice<E>(
    p: Box<GraphPattern>,
    start: usize,
    length: Option<usize>,
    input: Plan,
    graph: Slot,
    answers: Answers<E>,
    at: Progress,
)
    ensures
        ({
            let slice = GraphPattern::Slice(p, start, length);
            let whole = pattern_run(slice, input, graph, answers, at);
            let first = pattern_run(*p, input, graph, answers, at);
            match first {
                (Outcome::Done(plan), next) => {
                    &&& whole.0 matches Outcome::Done(made)
                    &&& match (start > 0, length) {
                        (false, None) => made == plan,
                        (true, None) => {
                            &&& made matches Plan::Skip { child, count }
                            &&& *child == plan
                            &&& count == start
                        },
                        (false, Some(length)) => {
                            &&& made matches Plan::Limit { child, count }
                            &&& *child == plan
                            &&& count == length
                        },
                        (true, Some(length)) => {
                            &&& made matches Plan::Limit { child: rest, count }
                            &&& count == length
                            &&& *rest matches Plan::Skip { child, count: skipped }
                            &&& *child == plan
                            &&& skipped == start
                        },
                    }
                    &&& whole.1 == next
                },
                _ => stops_as(whole, first),
            }
        }),
{
}

/// Variables that are numbered in turn have their keys as positions. Those that are new come after
/// all others, and nothing else is numbered.
pub proof fn lemma_keys_are_positions(
    variables: Seq<Variable>,
    i: int,
    keys: Seq<nat>,
    at: Progress,
)
    requires
        0 <= i <= variables.len(),
        keys.len() == i,
        forall|j: int|
            0 <= j < i ==> is_position_of(#[trigger] keys[j], variables[j], at.variables),
    ensures
        ({
            let (made, next) = keys_run(variables, i, keys, at);
            &&& made.len() == variables.len()
            &&& forall|j: int|
                0 <= j < made.len() ==> is_position_of(
                    #[trigger] made[j],
                    variables[j],
                    next.variables,
                )
            &&& next.asked == at.asked
            &&& begins_with(next.variables, at.variables)
            &&& forall|k: int|
                at.variables.len() <= k < next.variables.len() ==> names(variables).contains(
                    #[trigger] next.variables[k],
                )
        }),
    decreases variables.len() - i,
{
    if i < variables.len() {
        let v = variables[i];
        let met = at.met(v);
        let more = keys.push(at.key(v));
        lemma_meeting(at, v);
        assert forall|j: int| 0 <= j < i + 1 implies is_position_of(
            #[trigger] more[j],
            variables[j],
            met.variables,
        ) by {
            if j < i {
                assert(is_position_of(keys[j], variables[j], at.variables));
            }
        }
        lemma_keys_are_positions(variables, i + 1, more, met);
        let next = keys_run(variables, i, keys, at).1;
        assert forall|k: int| 0 <= k < at.variables.len() implies at.variables[k]
            == #[trigger] next.variables[k] by {
            assert(met.variables[k] == next.variables[k]);
        }
        assert forall|k: int| at.variables.len() <= k < next.variables.len() implies names(
            variables,
        ).contains(#[trigger] next.variables[k]) by {
            if k < met.variables.len() {
                assert(met.variables[k] == next.variables[k]);
                assert(names(variables)[i] == v@);
            }
        }
    }
}

/// The child of a projection is the plan of its pattern, planned in a numbering of its own that
/// begins with the projected variables. Outside, each of these is mapped to its position, those
/// that are new are numbered, and nothing else is.
pub proof fn lemma_projected<E>(
    p: Box<GraphPattern>,
    variables: Vec<Variable>,
    input: Plan,
    graph: Slot,
    answers: Answers<E>,
    at: Progress,
)
    ensures
        ({
            let project = GraphPattern::Project(p, variables);
            let whole = pattern_run(project, input, graph, answers, at);
            let inside = Progress {
                variables: Seq::new(variables@.len(), |i: int| variables@[i]@),
                asked: at.asked,
            };
            match pattern_run(*p, input, graph, answers, inside) {
                (Outcome::Done(plan), end) => {
                    let next = whole.1;
                    &&& whole.0 matches Outcome::Done(made)
                    &&& made matches Plan::Project { child, mapping }
                    &&& *child == plan
                    &&& mapping.len() == variables@.len()
                    &&& forall|i: int|
                        0 <= i < mapping.len() ==> is_position_of(
                            #[trigger] mapping[i],
                            variables@[i],
                            next.variables,
                        )
                    &&& begins_with(next.variables, at.variables)
                    &&& forall|k: int|
                        at.variables.len() <= k < next.variables.len() ==> exists|i: int|
                            0 <= i < variables@.len() && (#[trigger] variables@[i])@
                                == #[trigger] next.variables[k]
                    &&& next.asked == end.asked
                },
                (stop, end) => whole == (
                    stop,
                    Progress { variables: at.variables, asked: end.asked },
                ),
            }
        }),
{
    let inside = at.with_variables(names(variables@));
    let (child, end) = pattern_run(*p, input, graph, answers, inside);
    let back = end.with_variables(at.variables);
    lemma_keys_are_positions(variables@, 0, seq![], back);
    let next = keys_run(variables@, 0, seq![], back).1;
    assert forall|k: int| at.variables.len() <= k < next.variables.len() implies exists|i: int|
        0 <= i < variables@.len() && (#[trigger] variables@[i])@
            == #[trigger] next.variables[k] by {
        let i = choose|i: int|
            0 <= i < names(variables@).len() && names(variables@)[i] == next.variables[k];
        assert(variables@[i]@ == next.variables[k]);
    }
}

/// Services and aggregations have no plan.
pub proof fn lemma_no_plan<E>(
    name: NamedNodeOrVariable,
    p: Box<GraphPattern>,
    silent: bool,
    groups: GroupPattern,
    variables: Vec<Variable>,
    input: Plan,
    graph: Slot,
    answers: Answers<E>,
    at: Progress,
)
    ensures
        pattern_run(GraphPattern::Service(name, p, silent), input, graph, answers, at).0 is Stuck,
        pattern_run(
            GraphPattern::AggregateJoin(groups, variables),
            input,
            graph,
            answers,
            at,
        ).0 is Stuck,
{
}

/// A query is planned from nothing, over the default graph, with nothing numbered or asked.
pub proof fn lemma_query<E>(pattern: GraphPattern, answers: Answers<E>)
    ensures
        ({
            let graph = Slot::Constant(EncodedTerm::DefaultGraph);
            let at = Progress { variables: seq![], asked: seq![] };
            query_run(pattern, answers) == pattern_run(pattern, Plan::Init, graph, answers, at)
        }),
{
}

/// Whether a place of a quad is what a subject or an object is planned as from here: what the store
/// answers when it is asked for that term next, or the position of that variable.
pub open spec fn is_end<E>(
    slot: Slot,
    end: TermOrVariable,
    answers: Answers<E>,
    at: Progress,
    next: Progress,
) -> bool {
    match end {
        TermOrVariable::Term(term) => {
            &&& slot matches Slot::Constant(code)
            &&& answers(at.asked.len() as int) == Ok::<EncodedTerm, E>(code)
            &&& next.asked == at.asked.push(Question::Term(term))
            &&& next.variables == at.variables
        },
        TermOrVariable::Variable(v) => {
            &&& slot matches Slot::Variable(k)
            &&& is_position_of(k, v, next.variables)
            &&& next == at.met(v)
        },
    }
}

/// Whether a place of a quad is what a predicate or the name of a graph is planned as from here.
pub open spec fn is_middle<E>(
    slot: Slot,
    middle: NamedNodeOrVariable,
    answers: Answers<E>,
    at: Progress,
    next: Progress,
) -> bool {
    match middle {
        NamedNodeOrVariable::NamedNode(node) => {
            &&& slot matches Slot::Constant(code)
            &&& answers(at.asked.len() as int) == Ok::<EncodedTerm, E>(code)
            &&& next.asked == at.asked.push(Question::NamedNode(node))
            &&& next.variables == at.variables
        },
        NamedNodeOrVariable::Variable(v) => {
            &&& slot matches Slot::Variable(k)
            &&& is_position_of(k, v, next.variables)
            &&& next == at.met(v)
        },
    }
}

/// A subject, an object, a predicate or the name of a graph is planned as what it is. Only the
/// store can keep it from being planned, by the error that it answers with.
pub proof fn lemma_places<E>(
    end: TermOrVariable,
    middle: NamedNodeOrVariable,
    answers: Answers<E>,
    at: Progress,
)
    ensures
        match end_run(end, answers, at) {
            (Outcome::Done(slot), next) => is_end(slot, end, answers, at, next),
            (stop, _) => {
                &&& stop matches Outcome::Failed(Failure::Store(error))
                &&& end is Term
                &&& answers(at.asked.len() as int) == Err::<EncodedTerm, E>(error)
            },
        },
        match middle_run(middle, answers, at) {
            (Outcome::Done(slot), next) => is_middle(slot, middle, answers, at, next),
            (stop, _) => {
                &&& stop matches Outcome::Failed(Failure::Store(error))
                &&& middle is NamedNode
                &&& answers(at.asked.len() as int) == Err::<EncodedTerm, E>(error)
            },
        },
{
    if let TermOrVariable::Variable(v) = end {
        lemma_meeting(at, v);
    }
    if let NamedNodeOrVariable::Variable(v) = middle {
        lemma_meeting(at, v);
    }
}

/// A triple pattern is a lookup of quads, joined to what it starts from. Its subject, its predicate
/// and its object are planned in this order, each to the place of its own kind.
pub proof fn lemma_triple<E>(
    triple: TriplePattern,
    input: Plan,
    graph: Slot,
    answers: Answers<E>,
    at: Progress,
)
    ensures
        ({
            let whole = triple_run(triple, input, graph, answers, at);
            let first = end_run(triple.subject, answers, at);
            let second = middle_run(triple.predicate, answers, first.1);
            let third = end_run(triple.object, answers, second.1);
            if first.0 !is Done {
                stops_as(whole, first)
            } else if second.0 !is Done {
                stops_as(whole, second)
            } else if third.0 !is Done {
                stops_as(whole, third)
            } else {
                &&& whole.0 matches Outcome::Done(made)
                &&& made matches Plan::QuadPatternJoin {
                    child,
                    subject,
                    predicate,
                    object,
                    graph_name,
                }
                &&& *child == input
                &&& is_end(subject, triple.subject, answers, at, first.1)
                &&& is_middle(predicate, triple.predicate, answers, first.1, second.1)
                &&& is_end(object, triple.object, answers, second.1, third.1)
                &&& graph_name == graph
                &&& whole.1 == third.1
            }
        }),
{
    let first = end_run(triple.subject, answers, at);
    let second = middle_run(triple.predicate, answers, first.1);
    lemma_places(triple.subject, triple.predicate, answers, at);
    lemma_places(triple.subject, triple.predicate, answers, first.1);
    lemma_places(triple.object, triple.predicate, answers, second.1);
}

/// The members of a basic graph pattern are looked up one after the other in join order, each
/// joined to the ones before it. The first that has no plan ends it, and a path has none.
pub proof fn lemma_joins<E>(
    patterns: Seq<TripleOrPathPattern>,
    i: int,
    input: Plan,
    graph: Slot,
    answers: Answers<E>,
    at: Progress,
)
    requires
        0 <= i <= patterns.len(),
    ensures
        ({
            let whole = joins_run(patterns, i, input, graph, answers, at);
            if i == patterns.len() {
                whole == (Outcome::<Plan, E>::Done(input), at)
            } else {
                match patterns[i] {
                    TripleOrPathPattern::Triple(triple) => {
                        let first = triple_run(triple, input, graph, answers, at);
                        match first {
                            (Outcome::Done(plan), next) => whole == joins_run(
                                patterns,
                                i + 1,
                                plan,
                                graph,
                                answers,
                                next,
                            ),
                            _ => stops_as(whole, first),
                        }
                    },
                    TripleOrPathPattern::Path(_) => whole == (Outcome::<Plan, E>::Stuck, at),
                }
            }
        }),
{
}

/// A basic graph pattern is planned as its members in join order.
pub proof fn lemma_basic_graph_pattern<E>(
    patterns: Vec<TripleOrPathPattern>,
    input: Plan,
    graph: Slot,
    answers: Answers<E>,
    at: Progress,
)
    ensures
        pattern_run(GraphPattern::BGP(patterns), input, graph, answers, at) == joins_run(
            join_order(patterns@, set![]),
            0,
            input,
            graph,
            answers,
            at,
        ),
{
}

/// The values of a row are planned one after the other, each to the position of its variable, where
/// it takes the place of what is there. A value without a variable has no plan, and neither has one
/// for a variable that has no position in the tuple.
pub proof fn lemma_row<E>(
    variables: Seq<Variable>,
    row: Seq<Option<Term>>,
    i: int,
    tuple: Seq<Option<EncodedTerm>>,
    answers: Answers<E>,
    at: Progress,
)
    requires
        0 <= i <= row.len(),
        tuple.len() == at.variables.len(),
    ensures
        ({
            let whole = row_run(variables, row, i, tuple, answers, at);
            if i == row.len() {
                whole == (Outcome::<Seq<Option<EncodedTerm>>, E>::Done(tuple), at)
            } else {
                match row[i] {
                    None => whole == row_run(variables, row, i + 1, tuple, answers, at),
                    Some(term) => {
                        let next = Progress {
                            variables: at.variables,
                            asked: at.asked.push(Question::Term(term)),
                        };
                        match answers(at.asked.len() as int) {
                            Err(error) => whole == (
                                Outcome::<Seq<Option<EncodedTerm>>, E>::Failed(
                                    Failure::Store(error),
                                ),
                                next,
                            ),
                            Ok(code) => {
                                &&& i >= variables.len() || !at.variables.contains(variables[i]@)
                                    ==> whole.0 is Stuck
                                &&& forall|k: nat|
                                    i < variables.len() && #[trigger] is_position_of(
                                        k,
                                        variables[i],
                                        at.variables,
                                    ) ==> whole == row_run(
                                        variables,
                                        row,
                                        i + 1,
                                        tuple.update(k as int, Some(code)),
                                        answers,
                                        next,
                                    )
                            },
                        }
                    },
                }
            }
        }),
{
    if i < row.len() && i < variables.len() {
        let v = variables[i];
        lemma_meeting(at, v);
        lemma_key_is_first_place(at.variables, v@);
        assert forall|k: nat| #[trigger] is_position_of(k, v, at.variables) implies k == at.key(
            v,
        ) by {
            assert(at.variables[k as int] == v@);
            assert(at.variables.contains(v@));
        }
    }
}

/// The rows of a table of bindings are planned one after the other, each as a tuple that is as wide
/// as the numbering is long and in which nothing else has a value.
pub proof fn lemma_rows<E>(
    bindings: StaticBindings,
    i: int,
    tuples: Seq<Seq<Option<EncodedTerm>>>,
    answers: Answers<E>,
    at: Progress,
)
    requires
        0 <= i <= bindings.values@.len(),
    ensures
        ({
            let whole = rows_run(bindings, i, tuples, answers, at);
            if i == bindings.values@.len() {
                whole == (Outcome::<Seq<Seq<Option<EncodedTerm>>>, E>::Done(tuples), at)
            } else {
                let blank = Seq::new(at.variables.len(), |k: int| None::<EncodedTerm>);
                let row = bindings.values@[i]@;
                let first = row_run(bindings.variables@, row, 0, blank, answers, at);
                match first {
                    (Outcome::Done(tuple), next) => whole == rows_run(
                        bindings,
                        i + 1,
                        tuples.push(tuple),
                        answers,
                        next,
                    ),
                    _ => stops_as(whole, first),
                }
            }
        }),
{
}

/// A table of bindings is planned as the tuples of its rows.
pub proof fn lemma_data<E>(
    bindings: StaticBindings,
    input: Plan,
    graph: Slot,
    answers: Answers<E>,
    at: Progress,
)
    ensures
        ({
            let whole = pattern_run(GraphPattern::Data(bindings), input, graph, answers, at);
            let first = rows_run(bindings, 0, seq![], answers, at);
            match first {
                (Outcome::Done(tuples), next) => {
                    &&& whole.0 matches Outcome::Done(made)
                    &&& made == Plan::StaticBindings { tuples }
                    &&& whole.1 == next
                },
                _ => stops_as(whole, first),
            }
        }),
{
}

/// Variables are numbered in turn.
pub proof fn lemma_keys(variables: Seq<Variable>, i: int, keys: Seq<nat>, at: Progress)
    requires
        0 <= i <= variables.len(),
    ensures
        ({
            let whole = keys_run(variables, i, keys, at);
            if i == variables.len() {
                whole == (keys, at)
            } else {
                let next = at.met(variables[i]);
                forall|k: nat| #[trigger]
                    is_position_of(k, variables[i], next.variables) ==> whole == keys_run(
                        variables,
                        i + 1,
                        keys.push(k),
                        next,
                    )
            }
        }),
{
    if i < variables.len() {
        let v = variables[i];
        let next = at.met(v);
        lemma_meeting(at, v);
        assert forall|k: nat| #[trigger] is_position_of(k, v, next.variables) implies k == at.key(
            v,
        ) by {
            let key = at.key(v);
            assert(next.variables[key as int] == v@);
            assert(next.variables[k as int] == v@);
        }
    }
}

/// Constants, variables, tests of variables and tests of patterns are planned as what they are. The
/// pattern that is tested starts afresh.
pub proof fn lemma_leaves<E>(
    term: Term,
    v: Variable,
    pattern: Box<GraphPattern>,
    graph: Slot,
    answers: Answers<E>,
    at: Progress,
)
    ensures
        ({
            let constant = Expression::Constant(TermOrVariable::Term(term));
            let whole = expression_run(constant, graph, answers, at);
            &&& whole.1.asked == at.asked.push(Question::Term(term))
            &&& whole.1.variables == at.variables
            &&& match answers(at.asked.len() as int) {
                Ok(code) => whole.0 == Outcome::<Formula, E>::Done(Formula::Constant(code)),
                Err(error) => whole.0 == Outcome::<Formula, E>::Failed(Failure::Store(error)),
            }
        }),
        ({
            let variable = Expression::Constant(TermOrVariable::Variable(v));
            let whole = expression_run(variable, graph, answers, at);
            &&& whole.0 matches Outcome::Done(Formula::Variable(k))
            &&& is_position_of(k, v, whole.1.variables)
            &&& whole.1 == at.met(v)
        }),
        ({
            let whole = expression_run(Expression::Bound(v), graph, answers, at);
            &&& whole.0 matches Outcome::Done(Formula::Bound(k))
            &&& is_position_of(k, v, whole.1.variables)
            &&& whole.1 == at.met(v)
        }),
        ({
            let whole = expression_run(Expression::Exists(pattern), graph, answers, at);
            let first = pattern_run(*pattern, Plan::Init, graph, answers, at);
            match first {
                (Outcome::Done(plan), next) => {
                    &&& whole.0 matches Outcome::Done(Formula::Exists(tested))
                    &&& *tested == plan
                    &&& whole.1 == next
                },
                _ => stops_as(whole, first),
            }
        }),
{
    lemma_meeting(at, v);
}

/// The alternatives in the plan of a pattern: those of a union, or the plan itself.
pub open spec fn alternatives_of(pattern: GraphPattern, plan: Plan) -> Seq<Plan> {
    if pattern is Union {
        plan->Union_children
    } else {
        seq![plan]
    }
}

/// Branches that two patterns share are planned alike.
proof fn lemma_shared_branches<E>(
    pattern: GraphPattern,
    children: Seq<Plan>,
    offset: int,
    part: GraphPattern,
    i: int,
    made: Seq<Plan>,
    graph: Slot,
    answers: Answers<E>,
    at: Progress,
)
    requires
        pattern is Union,
        part is Union,
        0 <= offset,
        0 <= i <= branches(part).len(),
        offset + branches(part).len() <= branches(pattern).len(),
        forall|j: int|
            0 <= j < branches(part).len() ==> branches(pattern)[offset + j] == #[trigger] branches(
                part,
            )[j],
    ensures
        ({
            let whole = branches_run(pattern, offset + i, children + made, graph, answers, at);
            match branches_run(part, i, made, graph, answers, at) {
                (Outcome::Done(all), next) => whole == branches_run(
                    pattern,
                    offset + branches(part).len(),
                    children + all,
                    graph,
                    answers,
                    next,
                ),
                (stop, next) => whole == (stop, next),
            }
        }),
    decreases branches(part).len() - i,
{
    if i < branches(part).len() {
        let branch = branches(part)[i];
        assert(branches(pattern)[offset + i] == branch);
        if let (Outcome::Done(plan), next) = pattern_run(branch, Plan::Init, graph, answers, at) {
            let more = made.push(plan);
            assert((children + made).push(plan) =~= children + more);
            lemma_shared_branches(
                pattern,
                children,
                offset,
                part,
                i + 1,
                more,
                graph,
                answers,
                next,
            );
        }
    }
}

/// The branches of one side of a union are planned as that side is.
proof fn lemma_side_of_union<E>(
    pattern: GraphPattern,
    children: Seq<Plan>,
    offset: int,
    part: GraphPattern,
    graph: Slot,
    answers: Answers<E>,
    at: Progress,
)
    requires
        pattern is Union,
        0 <= offset,
        offset + branches(part).len() <= branches(pattern).len(),
        forall|j: int|
            0 <= j < branches(part).len() ==> branches(pattern)[offset + j] == #[trigger] branches(
                part,
            )[j],
    ensures
        ({
            let whole = branches_run(pattern, offset, children, graph, answers, at);
            let side = pattern_run(part, Plan::Init, graph, answers, at);
            match side {
                (Outcome::Done(plan), next) => whole == branches_run(
                    pattern,
                    offset + branches(part).len(),
                    children + alternatives_of(part, plan),
                    graph,
                    answers,
                    next,
                ),
                _ => stops_as(whole, side),
            }
        }),
{
    if part is Union {
        lemma_shared_branches(pattern, children, offset, part, 0, seq![], graph, answers, at);
        assert(children + Seq::<Plan>::empty() =~= children);
    } else {
        assert(branches(part)[0] == part);
        assert(branches(pattern)[offset] == part);
        if let (Outcome::Done(plan), next) = pattern_run(part, Plan::Init, graph, answers, at) {
            assert(children.push(plan) =~= children + seq![plan]);
        }
    }
}

/// The alternatives of a union are those of its second side and then those of its first, each
/// planned afresh. They are entered from what the union starts from.
pub proof fn lemma_union<E>(
    a: Box<GraphPattern>,
    b: Box<GraphPattern>,
    input: Plan,
    graph: Slot,
    answers: Answers<E>,
    at: Progress,
)
    ensures
        ({
            let whole = pattern_run(GraphPattern::Union(a, b), input, graph, answers, at);
            let first = pattern_run(*b, Plan::Init, graph, answers, at);
            match first {
                (Outcome::Done(x), at1) => {
                    let second = pattern_run(*a, Plan::Init, graph, answers, at1);
                    match second {
                        (Outcome::Done(y), at2) => {
                            &&& whole.0 matches Outcome::Done(made)
                            &&& made matches Plan::Union { entry, children }
                            &&& *entry == input
                            &&& children == alternatives_of(*b, x) + alternatives_of(*a, y)
                            &&& whole.1 == at2
                        },
                        _ => stops_as(whole, second),
                    }
                },
                _ => stops_as(whole, first),
            }
        }),
{
    let pattern = GraphPattern::Union(a, b);
    let middle = branches(*b).len() as int;
    assert forall|j: int| 0 <= j < branches(*b).len() implies branches(pattern)[0 + j]
        == #[trigger] branches(*b)[j] by {}
    assert forall|j: int| 0 <= j < branches(*a).len() implies branches(pattern)[middle + j]
        == #[trigger] branches(*a)[j] by {}
    lemma_side_of_union(pattern, seq![], 0, *b, graph, answers, at);
    if let (Outcome::Done(x), at1) = pattern_run(*b, Plan::Init, graph, answers, at) {
        let made = alternatives_of(*b, x);
        assert(Seq::<Plan>::empty() + made =~= made);
        lemma_side_of_union(pattern, made, middle, *a, graph, answers, at1);
    }
}

/// Whether a place of a planned triple is what a variable of a template is planned as: a position
/// if the query names the variable, a blank node if it does not.
pub open spec fn is_template_variable(
    slot: TemplateSlot,
    v: Variable,
    at: Progress,
    blanks: Seq<Name>,
    next: Progress,
    next_blanks: Seq<Name>,
) -> bool {
    if v@ is Named {
        &&& slot matches TemplateSlot::Variable(k)
        &&& is_position_of(k, v, next.variables)
        &&& next == at.met(v)
        &&& next_blanks == blanks
    } else {
        &&& slot matches TemplateSlot::BlankNode(k)
        &&& is_position_of(k, v, next_blanks)
        &&& next == at
        &&& next_blanks == if blanks.contains(v@) {
            blanks
        } else {
            blanks.push(v@)
        }
    }
}

/// Whether a place of a planned triple is what a constant of a template is planned as: what the
/// store answers when it is asked for that constant next.
pub open spec fn is_template_constant<E>(
    slot: TemplateSlot,
    question: Question,
    answers: Answers<E>,
    at: Progress,
    blanks: Seq<Name>,
    next: Progress,
    next_blanks: Seq<Name>,
) -> bool {
    &&& slot matches TemplateSlot::Constant(code)
    &&& answers(at.asked.len() as int) == Ok::<EncodedTerm, E>(code)
    &&& next.asked == at.asked.push(question)
    &&& next.variables == at.variables
    &&& next_blanks == blanks
}

/// Whether a place of a planned triple is what a subject or an object of a template is planned as.
pub open spec fn is_template_end<E>(
    slot: TemplateSlot,
    end: TermOrVariable,
    answers: Answers<E>,
    at: Progress,
    blanks: Seq<Name>,
    next: Progress,
    next_blanks: Seq<Name>,
) -> bool {
    match end {
        TermOrVariable::Term(term) => is_template_constant(
            slot,
            Question::Term(term),
            answers,
            at,
            blanks,
            next,
            next_blanks,
        ),
        TermOrVariable::Variable(v) => is_template_variable(
            slot,
            v,
            at,
            blanks,
            next,
            next_blanks,
        ),
    }
}

/// Whether a place of a planned triple is what a predicate of a template is planned as.
pub open spec fn is_template_middle<E>(
    slot: TemplateSlot,
    middle: NamedNodeOrVariable,
    answers: Answers<E>,
    at: Progress,
    blanks: Seq<Name>,
    next: Progress,
    next_blanks: Seq<Name>,
) -> bool {
    match middle {
        NamedNodeOrVariable::NamedNode(node) => is_template_constant(
            slot,
            Question::NamedNode(node),
            answers,
            at,
            blanks,
            next,
            next_blanks,
        ),
        NamedNodeOrVariable::Variable(v) => is_template_variable(
            slot,
            v,
            at,
            blanks,
            next,
            next_blanks,
        ),
    }
}

/// A variable without a name is numbered among the blank nodes.
proof fn lemma_blank_is_numbered(v: Variable, blanks: Seq<Name>)
    ensures
        is_position_of(key_of(blanks, v@), v, enter(blanks, v@)),
{
    lemma_meeting(Progress { variables: blanks, asked: seq![] }, v);
}

/// Whether a run over a template fails, as and where a part of it does: by an error of the store.
pub open spec fn template_stops_as<T, U, E>(
    whole: (Outcome<T, E>, Progress, Seq<Name>),
    part: (Outcome<U, E>, Progress, Seq<Name>),
) -> bool {
    &&& part.0 matches Outcome::Failed(Failure::Store(error))
    &&& whole.0 == Outcome::<T, E>::Failed(Failure::Store(error))
    &&& whole.1 == part.1
}

/// The subject, the predicate and the object of a triple of a template are planned in this order,
/// each to the place of its own kind.
pub proof fn lemma_template_triple<E>(
    triple: TriplePattern,
    answers: Answers<E>,
    at: Progress,
    blanks: Seq<Name>,
)
    ensures
        ({
            let whole = template_triple_run(triple, answers, at, blanks);
            let first = template_end_run(triple.subject, answers, at, blanks);
            let second = template_middle_run(triple.predicate, answers, first.1, first.2);
            let third = template_end_run(triple.object, answers, second.1, second.2);
            if first.0 !is Done {
                template_stops_as(whole, first)
            } else if second.0 !is Done {
                template_stops_as(whole, second)
            } else if third.0 !is Done {
                template_stops_as(whole, third)
            } else {
                &&& whole.0 matches Outcome::Done(made)
                &&& is_template_end(
                    made.subject,
                    triple.subject,
                    answers,
                    at,
                    blanks,
                    first.1,
                    first.2,
                )
                &&& is_template_middle(
                    made.predicate,
                    triple.predicate,
                    answers,
                    first.1,
                    first.2,
                    second.1,
                    second.2,
                )
                &&& is_template_end(
                    made.object,
                    triple.object,
                    answers,
                    second.1,
                    second.2,
                    third.1,
                    third.2,
                )
                &&& whole.1 == third.1
                &&& whole.2 == third.2
            }
        }),
{
    let first = template_end_run(triple.subject, answers, at, blanks);
    let second = template_middle_run(triple.predicate, answers, first.1, first.2);
    if let TermOrVariable::Variable(v) = triple.subject {
        lemma_meeting(at, v);
        lemma_blank_is_numbered(v, blanks);
    }
    if let NamedNodeOrVariable::Variable(v) = triple.predicate {
        lemma_meeting(first.1, v);
        lemma_blank_is_numbered(v, first.2);
    }
    if let TermOrVariable::Variable(v) = triple.object {
        lemma_meeting(second.1, v);
        lemma_blank_is_numbered(v, second.2);
    }
}

/// The triples of a template are planned one after the other. The first that fails ends it.
pub proof fn lemma_template<E>(
    template: Seq<TriplePattern>,
    i: int,
    made: Seq<TemplateTriple>,
    answers: Answers<E>,
    at: Progress,
    blanks: Seq<Name>,
)
    requires
        0 <= i <= template.len(),
    ensures
        ({
            let whole = template_run(template, i, made, answers, at, blanks);
            if i == template.len() {
                whole == (Outcome::<Seq<TemplateTriple>, E>::Done(made), at, blanks)
            } else {
                let first = template_triple_run(template[i], answers, at, blanks);
                match first {
                    (Outcome::Done(triple), next, next_blanks) => whole == template_run(
                        template,
                        i + 1,
                        made.push(triple),
                        answers,
                        next,
                        next_blanks,
                    ),
                    _ => template_stops_as(whole, first),
                }
            }
        }),
{
    if i < template.len() {
        lemma_template_triple(template[i], answers, at, blanks);
    }
}

} // verus!
