//! Queries that have a plan, or an error, whatever the store answers.
use crate::algebra::{
    Expression, GraphPattern, NamedNodeOrVariable, OrderComparator, StaticBindings,
    TripleOrPathPattern,
};
use crate::builder::{not_built, plannable};
use crate::error::Outcome;
use crate::expression::{least_operands, lemma_operand_is_part, operands, rejection};
use crate::laws::growth::{group_runs_grow, grows};
use crate::laws::joining::lemma_join_order_members;
use crate::laws::mentioned::{
    comparator_variables, expression_variables, graph_variable, lemma_expression_numbers,
    lemma_meeting_numbers, lemma_middle_numbers, lemma_pattern_numbers, lemma_union_mentions,
    numbers, visible_variables,
};
use crate::model::{names, Name, Term, Variable};
use crate::numbering::lemma_key_is_first_place;
use crate::ordering::join_order;
use crate::plan::{Formula, Plan, Slot, SortKey};
use crate::semantics::{
    ask, blank_tuple, branches, branches_run, comparator_run, comparators_run, expression_run,
    joins_run, lemma_branch_is_part, middle_run, operands_run, outset, pattern_run, row_run,
    rows_run, triple_run, Progress,
};
use crate::store::{Answers, EncodedTerm, Question, StoreConnection};
use vstd::prelude::*;

verus! {

broadcast use group_runs_grow;

/// Whether the numbering has all these names.
#[verifier::opaque]
pub open spec fn knows(at: Progress, known: Set<Name>) -> bool {
    forall|name: Name| #[trigger] known.contains(name) ==> at.variables.contains(name)
}

/// Whether each value of a row belongs to a known variable.
pub open spec fn row_is_plain(
    variables: Seq<Variable>,
    row: Seq<Option<Term>>,
    known: Set<Name>,
) -> bool {
    forall|i: int|
        0 <= i < row.len() && (#[trigger] row[i]) is Some ==> i < variables.len()
            && known.contains(variables[i]@)
}

/// Whether each value that bindings spell out belongs to a known variable.
pub open spec fn bindings_are_plain(bindings: StaticBindings, known: Set<Name>) -> bool {
    forall|i: int|
        0 <= i < bindings.values@.len() ==> row_is_plain(
            bindings.variables@,
            (#[trigger] bindings.values@[i])@,
            known,
        )
}

/// Whether calls in an expression have the parameters that they need, and the patterns in it are
/// plain.
pub open spec fn expression_is_plain(expression: Expression, known: Set<Name>) -> bool
    decreases expression, operands(expression).len() + 1,
{
    match expression {
        Expression::Constant(_) => true,
        Expression::Bound(_) => true,
        Expression::Exists(pattern) => pattern_is_plain(*pattern, known),
        _ => {
            ||| rejection::<()>(expression) is Some
            ||| {
                &&& operands(expression).len() >= least_operands(expression)
                &&& operands_are_plain(expression, 0, known)
            }
        },
    }
}

/// Whether the operands of an expression from the `i`-th on are plain.
pub open spec fn operands_are_plain(expression: Expression, i: int, known: Set<Name>) -> bool
    decreases expression, operands(expression).len() - i,
{
    if 0 <= i < operands(expression).len() {
        proof {
            lemma_operand_is_part(expression, i);
        }
        let operand = operands(expression)[i];
        &&& expression_is_plain(operand, known)
        &&& operands_are_plain(expression, i + 1, known + expression_variables(operand))
    } else {
        true
    }
}

/// Whether a sort key is plain.
pub open spec fn comparator_is_plain(comparator: OrderComparator, known: Set<Name>) -> bool
    decreases comparator, 0int,
{
    match comparator {
        OrderComparator::Asc(expression) => expression_is_plain(expression, known),
        OrderComparator::Desc(expression) => expression_is_plain(expression, known),
    }
}

/// Whether the sort keys from the `i`-th on are plain.
pub open spec fn comparators_are_plain(
    comparators: Seq<OrderComparator>,
    i: int,
    known: Set<Name>,
) -> bool
    decreases comparators, comparators.len() - i,
{
    if 0 <= i < comparators.len() {
        let comparator = comparators[i];
        &&& comparator_is_plain(comparator, known)
        &&& comparators_are_plain(comparators, i + 1, known + comparator_variables(comparator))
    } else {
        true
    }
}

/// Whether a pattern has no property path, no service, no aggregation and no call with too few
/// parameters, and binds values only to variables that are known: those that the nearest
/// projection around it lists, and those that can be seen in what is planned before. What is
/// known to the pattern under sort keys does not grow by these, for it is planned though they
/// fail.
pub open spec fn pattern_is_plain(pattern: GraphPattern, known: Set<Name>) -> bool
    decreases pattern, 1int,
{
    match pattern {
        GraphPattern::BGP(patterns) => forall|i: int|
            0 <= i < patterns@.len() ==> (#[trigger] patterns@[i]) is Triple,
        GraphPattern::Join(a, b) => {
            &&& pattern_is_plain(*a, known)
            &&& pattern_is_plain(*b, known + visible_variables(*a))
        },
        GraphPattern::LeftJoin(a, b, e) => {
            &&& pattern_is_plain(*a, known)
            &&& pattern_is_plain(*b, known + visible_variables(*a))
            &&& expression_is_plain(e, known + visible_variables(*a) + visible_variables(*b))
        },
        GraphPattern::Filter(e, p) => {
            &&& pattern_is_plain(*p, known)
            &&& expression_is_plain(e, known + visible_variables(*p))
        },
        GraphPattern::Union(a, b) => {
            &&& pattern_is_plain(*b, known)
            &&& pattern_is_plain(*a, known + visible_variables(*b))
        },
        GraphPattern::Graph(name, p) => pattern_is_plain(*p, known + graph_variable(name)),
        GraphPattern::Extend(p, v, e) => {
            &&& pattern_is_plain(*p, known)
            &&& expression_is_plain(e, known + visible_variables(*p) + set![v@])
        },
        GraphPattern::Minus(a, b) => {
            &&& pattern_is_plain(*a, known)
            &&& pattern_is_plain(*b, known + visible_variables(*a))
        },
        GraphPattern::Service(_, _, _) => false,
        GraphPattern::AggregateJoin(_, _) => false,
        GraphPattern::Data(bindings) => bindings_are_plain(bindings, known),
        GraphPattern::OrderBy(p, order) => {
            &&& comparators_are_plain(order@, 0, known)
            &&& pattern_is_plain(*p, known)
        },
        GraphPattern::Project(p, variables) => pattern_is_plain(*p, names(variables@).to_set()),
        GraphPattern::Distinct(p) => pattern_is_plain(*p, known),
        GraphPattern::Reduced(p) => pattern_is_plain(*p, known),
        GraphPattern::Slice(p, _, _) => pattern_is_plain(*p, known),
    }
}

/// What is known stays known.
proof fn lemma_knows_later(earlier: Progress, later: Progress, known: Set<Name>)
    requires
        knows(earlier, known),
        grows(earlier, later),
    ensures
        knows(later, known),
{
    reveal(knows);
    reveal(grows);
    assert forall|name: Name| #[trigger] known.contains(name) implies later.variables.contains(
        name,
    ) by {
        let i = choose|i: int| 0 <= i < earlier.variables.len() && earlier.variables[i] == name;
        assert(later.variables[i] == name);
    }
}

/// What is mentioned is known afterwards.
proof fn lemma_knows_mentioned(
    at: Progress,
    next: Progress,
    known: Set<Name>,
    mentioned: Set<Name>,
)
    requires
        knows(at, known),
        forall|name: Name| #[trigger] numbers(at, next, mentioned, name),
    ensures
        knows(next, known + mentioned),
{
    reveal(knows);
    assert forall|name: Name| #[trigger] (known + mentioned).contains(
        name,
    ) implies next.variables.contains(name) by {
        assert(numbers(at, next, mentioned, name));
    }
}

proof fn lemma_knows_expression<E>(
    expression: Expression,
    graph: Slot,
    answers: Answers<E>,
    at: Progress,
    known: Set<Name>,
)
    requires
        knows(at, known),
        expression_run(expression, graph, answers, at).0 is Done,
    ensures
        knows(
            expression_run(expression, graph, answers, at).1,
            known + expression_variables(expression),
        ),
{
    let next = expression_run(expression, graph, answers, at).1;
    let mentioned = expression_variables(expression);
    assert forall|name: Name| #[trigger] numbers(at, next, mentioned, name) by {
        lemma_expression_numbers(expression, graph, answers, at, name);
    }
    lemma_knows_mentioned(at, next, known, mentioned);
}

proof fn lemma_knows_pattern<E>(
    pattern: GraphPattern,
    input: Plan,
    graph: Slot,
    answers: Answers<E>,
    at: Progress,
    known: Set<Name>,
)
    requires
        knows(at, known),
        pattern_run(pattern, input, graph, answers, at).0 is Done,
    ensures
        knows(
            pattern_run(pattern, input, graph, answers, at).1,
            known + visible_variables(pattern),
        ),
{
    let next = pattern_run(pattern, input, graph, answers, at).1;
    let mentioned = visible_variables(pattern);
    assert forall|name: Name| #[trigger] numbers(at, next, mentioned, name) by {
        lemma_pattern_numbers(pattern, input, graph, answers, at, name);
    }
    lemma_knows_mentioned(at, next, known, mentioned);
}

proof fn lemma_knows_middle<E>(
    middle: NamedNodeOrVariable,
    answers: Answers<E>,
    at: Progress,
    known: Set<Name>,
)
    requires
        knows(at, known),
    ensures
        knows(middle_run(middle, answers, at).1, known + graph_variable(middle)),
{
    let next = middle_run(middle, answers, at).1;
    let mentioned = graph_variable(middle);
    assert forall|name: Name| #[trigger] numbers(at, next, mentioned, name) by {
        lemma_middle_numbers(middle, answers, at, name);
    }
    lemma_knows_mentioned(at, next, known, mentioned);
}

proof fn lemma_knows_met(at: Progress, v: Variable, known: Set<Name>)
    requires
        knows(at, known),
    ensures
        knows(at.met(v), known + set![v@]),
{
    assert forall|name: Name| #[trigger] numbers(at, at.met(v), set![v@], name) by {
        lemma_meeting_numbers(at, v, name);
    }
    lemma_knows_mentioned(at, at.met(v), known, set![v@]);
}

proof fn lemma_joins_end<E>(
    patterns: Seq<TripleOrPathPattern>,
    i: int,
    input: Plan,
    graph: Slot,
    answers: Answers<E>,
    at: Progress,
)
    requires
        forall|j: int| 0 <= j < patterns.len() ==> (#[trigger] patterns[j]) is Triple,
    ensures
        joins_run(patterns, i, input, graph, answers, at).0 !is Stuck,
    decreases patterns.len() - i,
{
    if 0 <= i < patterns.len() {
        if let TripleOrPathPattern::Triple(triple) = patterns[i] {
            let (outcome, next) = triple_run(triple, input, graph, answers, at);
            if let Outcome::Done(plan) = outcome {
                lemma_joins_end(patterns, i + 1, plan, graph, answers, next);
            }
        }
    }
}

proof fn lemma_row_ends<E>(
    variables: Seq<Variable>,
    row: Seq<Option<Term>>,
    i: int,
    tuple: Seq<Option<EncodedTerm>>,
    answers: Answers<E>,
    at: Progress,
    known: Set<Name>,
)
    requires
        row_is_plain(variables, row, known),
        knows(at, known),
        tuple.len() == at.variables.len(),
        0 <= i,
    ensures
        row_run(variables, row, i, tuple, answers, at).0 !is Stuck,
    decreases row.len() - i,
{
    if i < row.len() {
        match row[i] {
            Some(term) => {
                let (outcome, next) = ask(Question::Term(term), answers, at);
                if outcome is Done {
                    reveal(knows);
                    assert(known.contains(variables[i]@));
                    assert(next.met(variables[i]) == next);
                    lemma_key_is_first_place(next.variables, variables[i]@);
                    let key = next.key(variables[i]);
                    let filled = tuple.update(key as int, Some(outcome->Done_0));
                    lemma_row_ends(variables, row, i + 1, filled, answers, next, known);
                }
            },
            None => {
                lemma_row_ends(variables, row, i + 1, tuple, answers, at, known);
            },
        }
    }
}

proof fn lemma_rows_end<E>(
    bindings: StaticBindings,
    i: int,
    tuples: Seq<Seq<Option<EncodedTerm>>>,
    answers: Answers<E>,
    at: Progress,
    known: Set<Name>,
)
    requires
        bindings_are_plain(bindings, known),
        knows(at, known),
        0 <= i,
    ensures
        rows_run(bindings, i, tuples, answers, at).0 !is Stuck,
    decreases bindings.values@.len() - i,
{
    if i < bindings.values@.len() {
        let blank = blank_tuple(at.variables.len());
        let row = bindings.values@[i]@;
        lemma_row_ends(bindings.variables@, row, 0, blank, answers, at, known);
        let (outcome, next) = row_run(bindings.variables@, row, 0, blank, answers, at);
        if let Outcome::Done(tuple) = outcome {
            lemma_knows_later(at, next, known);
            lemma_rows_end(bindings, i + 1, tuples.push(tuple), answers, next, known);
        }
    }
}

/// A plain expression has a plan or an error.
pub proof fn lemma_expression_ends<E>(
    expression: Expression,
    graph: Slot,
    answers: Answers<E>,
    at: Progress,
    known: Set<Name>,
)
    requires
        expression_is_plain(expression, known),
        knows(at, known),
    ensures
        expression_run(expression, graph, answers, at).0 !is Stuck,
    decreases expression, operands(expression).len() + 1,
{
    match expression {
        Expression::Constant(_) => {},
        Expression::Bound(_) => {},
        Expression::Exists(pattern) => {
            lemma_pattern_ends(*pattern, Plan::Init, graph, answers, at, known);
        },
        _ => {
            if rejection::<E>(expression) is None {
                assert(rejection::<()>(expression) is None);
                lemma_operands_end(expression, 0, seq![], graph, answers, at, known);
            }
        },
    }
}

proof fn lemma_operands_end<E>(
    expression: Expression,
    i: int,
    parts: Seq<Formula>,
    graph: Slot,
    answers: Answers<E>,
    at: Progress,
    known: Set<Name>,
)
    requires
        operands_are_plain(expression, i, known),
        knows(at, known),
        0 <= i <= operands(expression).len(),
        parts.len() == i,
    ensures
        match operands_run(expression, i, parts, graph, answers, at).0 {
            Outcome::Done(made) => made.len() == operands(expression).len(),
            Outcome::Failed(_) => true,
            Outcome::Stuck => false,
        },
    decreases expression, operands(expression).len() - i,
{
    if i < operands(expression).len() {
        lemma_operand_is_part(expression, i);
        lemma_expression_ends(operands(expression)[i], graph, answers, at, known);
        let (outcome, next) = expression_run(operands(expression)[i], graph, answers, at);
        if let Outcome::Done(part) = outcome {
            let operand = operands(expression)[i];
            lemma_knows_expression(operand, graph, answers, at, known);
            let more = known + expression_variables(operand);
            lemma_operands_end(expression, i + 1, parts.push(part), graph, answers, next, more);
        }
    }
}

proof fn lemma_comparator_ends<E>(
    comparator: OrderComparator,
    graph: Slot,
    answers: Answers<E>,
    at: Progress,
    known: Set<Name>,
)
    requires
        comparator_is_plain(comparator, known),
        knows(at, known),
    ensures
        comparator_run(comparator, graph, answers, at).0 !is Stuck,
    decreases comparator, 0int,
{
    match comparator {
        OrderComparator::Asc(e) | OrderComparator::Desc(e) => {
            lemma_expression_ends(e, graph, answers, at, known);
        },
    }
}

proof fn lemma_comparators_end<E>(
    comparators: Seq<OrderComparator>,
    i: int,
    keys: Seq<SortKey>,
    graph: Slot,
    answers: Answers<E>,
    at: Progress,
    known: Set<Name>,
)
    requires
        comparators_are_plain(comparators, i, known),
        knows(at, known),
    ensures
        comparators_run(comparators, i, keys, graph, answers, at).0 !is Stuck,
    decreases comparators, comparators.len() - i,
{
    if 0 <= i < comparators.len() {
        lemma_comparator_ends(comparators[i], graph, answers, at, known);
        let (outcome, next) = comparator_run(comparators[i], graph, answers, at);
        if let Outcome::Done(key) = outcome {
            match comparators[i] {
                OrderComparator::Asc(e) | OrderComparator::Desc(e) => {
                    lemma_knows_expression(e, graph, answers, at, known);
                },
            }
            let more = known + comparator_variables(comparators[i]);
            lemma_comparators_end(comparators, i + 1, keys.push(key), graph, answers, next, more);
        }
    }
}

/// The variables that can be seen in the alternatives of a union before the `i`-th.
spec fn seen_before(pattern: GraphPattern, i: int) -> Set<Name> {
    Set::new(
        |name: Name|
            exists|j: int|
                0 <= j < i && j < branches(pattern).len() && visible_variables(
                    #[trigger] branches(pattern)[j],
                ).contains(name),
    )
}

/// What can be seen before an alternative of the left side of a union is what can be seen in the
/// right side, and before it on its own side.
proof fn lemma_seen_before(a: GraphPattern, b: GraphPattern, i: int)
    requires
        branches(b).len() <= i < branches(b).len() + branches(a).len(),
    ensures
        seen_before(GraphPattern::Union(Box::new(a), Box::new(b)), i) == visible_variables(b)
            + seen_before(a, i - branches(b).len()),
{
    let pattern = GraphPattern::Union(Box::new(a), Box::new(b));
    let (all, first, second) = (branches(pattern), branches(b), branches(a));
    let seen = seen_before(pattern, i);
    let parts = visible_variables(b) + seen_before(a, i - first.len());
    assert(all == first + second);
    assert forall|name: Name| seen.contains(name) <==> parts.contains(name) by {
        lemma_union_mentions(b, name);
        if seen.contains(name) {
            let j = choose|j: int|
                0 <= j < i && j < all.len() && visible_variables(#[trigger] all[j]).contains(name);
            if j < first.len() {
                assert(first[j] == all[j]);
            } else {
                assert(second[j - first.len()] == all[j]);
            }
        }
        if visible_variables(b).contains(name) {
            let j = choose|j: int|
                0 <= j < first.len() && visible_variables(#[trigger] first[j]).contains(name);
            assert(all[j] == first[j]);
        }
        if seen_before(a, i - first.len()).contains(name) {
            let j = choose|j: int|
                0 <= j < i - first.len() && j < second.len() && visible_variables(
                    #[trigger] second[j],
                ).contains(name);
            assert(all[first.len() + j] == second[j]);
        }
    }
    assert(seen =~= parts);
}

/// The alternatives of a plain pattern are plain, what can be seen before them being known.
proof fn lemma_branch_is_plain(pattern: GraphPattern, i: int, known: Set<Name>)
    requires
        pattern_is_plain(pattern, known),
        0 <= i < branches(pattern).len(),
    ensures
        pattern_is_plain(branches(pattern)[i], known + seen_before(pattern, i)),
    decreases pattern,
{
    if let GraphPattern::Union(a, b) = pattern {
        let second = branches(*b).len();
        if i < second {
            assert(branches(pattern)[i] == branches(*b)[i]);
            lemma_branch_is_plain(*b, i, known);
            assert forall|name: Name| seen_before(pattern, i).contains(name)
                <==> seen_before(*b, i).contains(name) by {
                if seen_before(pattern, i).contains(name) {
                    let j = choose|j: int|
                        0 <= j < i && j < branches(pattern).len() && visible_variables(
                            #[trigger] branches(pattern)[j],
                        ).contains(name);
                    assert(branches(*b)[j] == branches(pattern)[j]);
                }
                if seen_before(*b, i).contains(name) {
                    let j = choose|j: int|
                        0 <= j < i && j < branches(*b).len() && visible_variables(
                            #[trigger] branches(*b)[j],
                        ).contains(name);
                    assert(branches(*b)[j] == branches(pattern)[j]);
                }
            }
            assert(seen_before(pattern, i) =~= seen_before(*b, i));
        } else {
            let more = known + visible_variables(*b);
            assert(branches(pattern)[i] == branches(*a)[i - second]);
            lemma_branch_is_plain(*a, i - second, more);
            lemma_seen_before(*a, *b, i);
            assert(more + seen_before(*a, i - second) =~= known + seen_before(pattern, i));
        }
    } else {
        assert(known + seen_before(pattern, 0) =~= known);
    }
}

proof fn lemma_branches_end<E>(
    pattern: GraphPattern,
    i: int,
    children: Seq<Plan>,
    graph: Slot,
    answers: Answers<E>,
    at: Progress,
    known: Set<Name>,
)
    requires
        pattern_is_plain(pattern, known),
        knows(at, known + seen_before(pattern, i)),
    ensures
        branches_run(pattern, i, children, graph, answers, at).0 !is Stuck,
    decreases pattern, branches(pattern).len() - i,
{
    if pattern is Union && 0 <= i < branches(pattern).len() {
        lemma_branch_is_part(pattern, i);
        lemma_branch_is_plain(pattern, i, known);
        let branch = branches(pattern)[i];
        let seen = known + seen_before(pattern, i);
        lemma_pattern_ends(branch, Plan::Init, graph, answers, at, seen);
        let (outcome, next) = pattern_run(branch, Plan::Init, graph, answers, at);
        if let Outcome::Done(plan) = outcome {
            lemma_knows_pattern(branch, Plan::Init, graph, answers, at, seen);
            assert(known + seen_before(pattern, i + 1) =~= seen + visible_variables(branch));
            lemma_branches_end(pattern, i + 1, children.push(plan), graph, answers, next, known);
        }
    }
}

/// A plain pattern has a plan or an error.
pub proof fn lemma_pattern_ends<E>(
    pattern: GraphPattern,
    input: Plan,
    graph: Slot,
    answers: Answers<E>,
    at: Progress,
    known: Set<Name>,
)
    requires
        pattern_is_plain(pattern, known),
        knows(at, known),
    ensures
        pattern_run(pattern, input, graph, answers, at).0 !is Stuck,
    decreases pattern, branches(pattern).len() + 1,
{
    match pattern {
        GraphPattern::BGP(patterns) => {
            let order = join_order(patterns@, set![]);
            assert forall|j: int| 0 <= j < order.len() implies (#[trigger] order[j]) is Triple by {
                assert(order.contains(order[j]));
                lemma_join_order_members(patterns@, set![], order[j]);
            }
            lemma_joins_end(order, 0, input, graph, answers, at);
        },
        GraphPattern::Join(a, b) | GraphPattern::Minus(a, b) => {
            lemma_pattern_ends(*a, input, graph, answers, at, known);
            let (left, at1) = pattern_run(*a, input, graph, answers, at);
            if left is Done {
                lemma_knows_pattern(*a, input, graph, answers, at, known);
                let more = known + visible_variables(*a);
                lemma_pattern_ends(*b, input, graph, answers, at1, more);
            }
        },
        GraphPattern::LeftJoin(a, b, e) => {
            lemma_pattern_ends(*a, input, graph, answers, at, known);
            let (left, at1) = pattern_run(*a, input, graph, answers, at);
            if left is Done {
                lemma_knows_pattern(*a, input, graph, answers, at, known);
                let more = known + visible_variables(*a);
                lemma_pattern_ends(*b, Plan::Init, graph, answers, at1, more);
                let (right, at2) = pattern_run(*b, Plan::Init, graph, answers, at1);
                if right is Done {
                    lemma_knows_pattern(*b, Plan::Init, graph, answers, at1, more);
                    let most = more + visible_variables(*b);
                    lemma_expression_ends(e, graph, answers, at2, most);
                }
            }
        },
        GraphPattern::Filter(e, p) => {
            lemma_pattern_ends(*p, input, graph, answers, at, known);
            let (child, at1) = pattern_run(*p, input, graph, answers, at);
            if child is Done {
                lemma_knows_pattern(*p, input, graph, answers, at, known);
                let more = known + visible_variables(*p);
                lemma_expression_ends(e, graph, answers, at1, more);
            }
        },
        GraphPattern::Union(_, _) => {
            assert(known + seen_before(pattern, 0) =~= known);
            lemma_branches_end(pattern, 0, seq![], graph, answers, at, known);
        },
        GraphPattern::Graph(name, p) => {
            let (outcome, at1) = middle_run(name, answers, at);
            if let Outcome::Done(named) = outcome {
                lemma_knows_middle(name, answers, at, known);
                lemma_pattern_ends(*p, input, named, answers, at1, known + graph_variable(name));
            }
        },
        GraphPattern::Extend(p, v, e) => {
            lemma_pattern_ends(*p, input, graph, answers, at, known);
            let (child, at1) = pattern_run(*p, input, graph, answers, at);
            if child is Done {
                lemma_knows_pattern(*p, input, graph, answers, at, known);
                let more = known + visible_variables(*p);
                lemma_knows_met(at1, v, more);
                lemma_expression_ends(e, graph, answers, at1.met(v), more + set![v@]);
            }
        },
        GraphPattern::Service(_, _, _) => {},
        GraphPattern::AggregateJoin(_, _) => {},
        GraphPattern::Data(bindings) => {
            lemma_rows_end(bindings, 0, seq![], answers, at, known);
        },
        GraphPattern::OrderBy(p, order) => {
            lemma_comparators_end(order@, 0, seq![], graph, answers, at, known);
            let at1 = comparators_run(order@, 0, seq![], graph, answers, at).1;
            lemma_knows_later(at, at1, known);
            lemma_pattern_ends(*p, input, graph, answers, at1, known);
        },
        GraphPattern::Project(p, variables) => {
            let listed = names(variables@);
            let inside = at.with_variables(listed);
            assert(knows(inside, listed.to_set())) by {
                reveal(knows);
            }
            lemma_pattern_ends(*p, input, graph, answers, inside, listed.to_set());
        },
        GraphPattern::Distinct(p) | GraphPattern::Reduced(p) | GraphPattern::Slice(p, _, _) => {
            lemma_pattern_ends(*p, input, graph, answers, at, known);
        },
    }
}

/// A plain query is plannable: it has a plan or an error, whatever the store answers.
pub proof fn lemma_plain_is_plannable<S: StoreConnection>(store: S, pattern: GraphPattern)
    requires
        pattern_is_plain(pattern, set![]),
    ensures
        plannable(store, pattern),
{
    assert forall|answers: Answers<S::Error>| !(#[trigger] not_built(store, pattern, answers)) by {
        let at = outset(seq![]);
        assert(knows(at, set![])) by {
            reveal(knows);
        }
        let graph = Slot::Constant(EncodedTerm::DefaultGraph);
        lemma_pattern_ends(pattern, Plan::Init, graph, answers, at, set![]);
    }
}

} // verus!
