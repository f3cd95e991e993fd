//! The variables that are numbered are those that a query mentions.
use crate::algebra::{
    Expression, GraphPattern, NamedNodeOrVariable, OrderComparator, StaticBindings, TermOrVariable,
    TripleOrPathPattern, TriplePattern,
};
use crate::builder::built;
use crate::error::{Error, Outcome};
use crate::expression::{lemma_operand_is_part, operands, rejection};
use crate::laws::growth::{begins_with, grows, lemma_expression_grows, lemma_pattern_grows};
use crate::laws::joining::lemma_join_order_members;
use crate::laws::results::lemma_projection;
use crate::model::{names, Name, Term, Variable};
use crate::numbering::lemma_key_is_first_place;
use crate::ordering::{end_variable, join_order, pattern_variables};
use crate::plan::{Formula, Plan, PlanNode, Slot, SortKey};
use crate::semantics::{
    ask, blank_tuple, branches, branches_run, comparator_run, comparators_run, end_run,
    expression_run, joins_run, lemma_branch_is_part, middle_run, operands_run, outset, pattern_run,
    row_run, rows_run, triple_run, Progress,
};
use crate::store::{Answers, EncodedTerm, Question, StoreConnection};
use vstd::prelude::*;

verus! {

/// The variables of the members of a basic graph pattern.
pub open spec fn member_variables(patterns: Seq<TripleOrPathPattern>) -> Set<Name> {
    Set::new(
        |name: Name|
            exists|i: int|
                0 <= i < patterns.len() && pattern_variables(#[trigger] patterns[i]).contains(name),
    )
}

/// The variable that names a graph.
pub open spec fn graph_variable(name: NamedNodeOrVariable) -> Set<Name> {
    match name {
        NamedNodeOrVariable::NamedNode(_) => set![],
        NamedNodeOrVariable::Variable(v) => set![v@],
    }
}

/// The variables that an expression mentions.
pub open spec fn expression_variables(expression: Expression) -> Set<Name>
    decreases expression, operands(expression).len() + 1,
{
    match expression {
        Expression::Constant(constant) => end_variable(constant),
        Expression::Bound(v) => set![v@],
        Expression::Exists(pattern) => visible_variables(*pattern),
        _ => operand_variables(expression, 0),
    }
}

/// The variables that the operands of an expression from the `i`-th on mention.
pub open spec fn operand_variables(expression: Expression, i: int) -> Set<Name>
    decreases expression, operands(expression).len() - i,
{
    if 0 <= i < operands(expression).len() {
        proof {
            lemma_operand_is_part(expression, i);
        }
        expression_variables(operands(expression)[i]) + operand_variables(expression, i + 1)
    } else {
        set![]
    }
}

/// The variables that a sort key mentions.
pub open spec fn comparator_variables(comparator: OrderComparator) -> Set<Name>
    decreases comparator, 0int,
{
    match comparator {
        OrderComparator::Asc(expression) => expression_variables(expression),
        OrderComparator::Desc(expression) => expression_variables(expression),
    }
}

/// The variables that the sort keys from the `i`-th on mention.
pub open spec fn comparators_variables(comparators: Seq<OrderComparator>, i: int) -> Set<Name>
    decreases comparators, comparators.len() - i,
{
    if 0 <= i < comparators.len() {
        comparator_variables(comparators[i]) + comparators_variables(comparators, i + 1)
    } else {
        set![]
    }
}

/// The variables that a pattern mentions where they can be seen from outside: of a projection
/// those that it projects. Bindings mention only what is numbered already.
pub open spec fn visible_variables(pattern: GraphPattern) -> Set<Name>
    decreases pattern, 1int,
{
    match pattern {
        GraphPattern::BGP(patterns) => member_variables(patterns@),
        GraphPattern::Join(a, b) => visible_variables(*a) + visible_variables(*b),
        GraphPattern::LeftJoin(a, b, e) => visible_variables(*a) + visible_variables(*b)
            + expression_variables(e),
        GraphPattern::Filter(e, p) => visible_variables(*p) + expression_variables(e),
        GraphPattern::Union(a, b) => visible_variables(*a) + visible_variables(*b),
        GraphPattern::Graph(name, p) => graph_variable(name) + visible_variables(*p),
        GraphPattern::Extend(p, v, e) => visible_variables(*p).insert(v@) + expression_variables(e),
        GraphPattern::Minus(a, b) => visible_variables(*a) + visible_variables(*b),
        GraphPattern::Service(_, _, _) => set![],
        GraphPattern::AggregateJoin(_, _) => set![],
        GraphPattern::Data(_) => set![],
        GraphPattern::OrderBy(p, order) => comparators_variables(order@, 0) + visible_variables(*p),
        GraphPattern::Project(_, variables) => names(variables@).to_set(),
        GraphPattern::Distinct(p) => visible_variables(*p),
        GraphPattern::Reduced(p) => visible_variables(*p),
        GraphPattern::Slice(p, _, _) => visible_variables(*p),
    }
}

/// Whether a name is numbered afterwards if and only if it was before or is mentioned.
pub open spec fn numbers(at: Progress, next: Progress, mentioned: Set<Name>, name: Name) -> bool {
    next.variables.contains(name) <==> at.variables.contains(name) || mentioned.contains(name)
}

/// Whether a run numbers what is mentioned: all of it and nothing else if it has a result, nothing
/// else if it has an error.
pub open spec fn ends_numbering<T, E>(
    outcome: Outcome<T, E>,
    at: Progress,
    next: Progress,
    mentioned: Set<Name>,
    name: Name,
) -> bool {
    match outcome {
        Outcome::Done(_) => numbers(at, next, mentioned, name),
        Outcome::Failed(_) => next.variables.contains(name) ==> at.variables.contains(name)
            || mentioned.contains(name),
        Outcome::Stuck => true,
    }
}

/// Meeting a variable numbers that variable.
pub proof fn lemma_meeting_numbers(at: Progress, v: Variable, name: Name)
    ensures
        numbers(at, at.met(v), set![v@], name),
{
    let table = at.variables;
    if !table.contains(v@) {
        let longer = table.push(v@);
        if table.contains(name) {
            let k = choose|k: int| 0 <= k < table.len() && table[k] == name;
            assert(longer[k] == name);
        }
        assert(longer[table.len() as int] == v@);
    }
}

proof fn lemma_end_numbers<E>(end: TermOrVariable, answers: Answers<E>, at: Progress, name: Name)
    ensures
        numbers(at, end_run(end, answers, at).1, end_variable(end), name),
{
    if let TermOrVariable::Variable(v) = end {
        lemma_meeting_numbers(at, v, name);
    }
}

/// Planning a predicate or the name of a graph numbers its variable.
pub proof fn lemma_middle_numbers<E>(
    middle: NamedNodeOrVariable,
    answers: Answers<E>,
    at: Progress,
    name: Name,
)
    ensures
        numbers(at, middle_run(middle, answers, at).1, graph_variable(middle), name),
{
    if let NamedNodeOrVariable::Variable(v) = middle {
        lemma_meeting_numbers(at, v, name);
    }
}

proof fn lemma_triple_numbers<E>(
    triple: TriplePattern,
    input: Plan,
    graph: Slot,
    answers: Answers<E>,
    at: Progress,
    name: Name,
)
    ensures
        ({
            let (outcome, next) = triple_run(triple, input, graph, answers, at);
            let mentioned = pattern_variables(TripleOrPathPattern::Triple(triple));
            ends_numbering(outcome, at, next, mentioned, name)
        }),
{
    let at1 = end_run(triple.subject, answers, at).1;
    let at2 = middle_run(triple.predicate, answers, at1).1;
    lemma_end_numbers(triple.subject, answers, at, name);
    lemma_middle_numbers(triple.predicate, answers, at1, name);
    lemma_end_numbers(triple.object, answers, at2, name);
}

proof fn lemma_joins_number<E>(
    patterns: Seq<TripleOrPathPattern>,
    i: int,
    input: Plan,
    graph: Slot,
    answers: Answers<E>,
    at: Progress,
    name: Name,
)
    requires
        0 <= i <= patterns.len(),
    ensures
        ({
            let (outcome, next) = joins_run(patterns, i, input, graph, answers, at);
            ends_numbering(outcome, at, next, member_variables(patterns.skip(i)), name)
        }),
    decreases patterns.len() - i,
{
    if i < patterns.len() {
        if let TripleOrPathPattern::Triple(triple) = patterns[i] {
            let (outcome, next) = triple_run(triple, input, graph, answers, at);
            lemma_triple_numbers(triple, input, graph, answers, at, name);
            lemma_members_step(patterns, i, name);
            if let Outcome::Done(plan) = outcome {
                lemma_joins_number(patterns, i + 1, plan, graph, answers, next, name);
            }
        }
    } else {
        assert(!member_variables(patterns.skip(i)).contains(name));
    }
}

proof fn lemma_members_step(patterns: Seq<TripleOrPathPattern>, i: int, name: Name)
    requires
        0 <= i < patterns.len(),
    ensures
        member_variables(patterns.skip(i)).contains(name) <==> pattern_variables(
            patterns[i],
        ).contains(name) || member_variables(patterns.skip(i + 1)).contains(name),
{
    let all = patterns.skip(i);
    let rest = patterns.skip(i + 1);
    if member_variables(all).contains(name) && !pattern_variables(patterns[i]).contains(name) {
        let j = choose|j: int|
            0 <= j < all.len() && pattern_variables(#[trigger] all[j]).contains(name);
        assert(rest[j - 1] == all[j]);
        assert(pattern_variables(rest[j - 1]).contains(name));
    }
    if member_variables(rest).contains(name) {
        let j = choose|j: int|
            0 <= j < rest.len() && pattern_variables(#[trigger] rest[j]).contains(name);
        assert(all[j + 1] == rest[j]);
        assert(pattern_variables(all[j + 1]).contains(name));
    }
    if pattern_variables(patterns[i]).contains(name) {
        assert(all[0] == patterns[i]);
        assert(pattern_variables(all[0]).contains(name));
    }
}

/// Reordering the members of a basic graph pattern does not change its variables.
proof fn lemma_order_keeps_variables(patterns: Seq<TripleOrPathPattern>, name: Name)
    ensures
        member_variables(join_order(patterns, set![])).contains(name) <==> member_variables(
            patterns,
        ).contains(name),
{
    let order = join_order(patterns, set![]);
    if member_variables(order).contains(name) {
        let j = choose|j: int|
            0 <= j < order.len() && pattern_variables(#[trigger] order[j]).contains(name);
        lemma_join_order_members(patterns, set![], order[j]);
        let i = choose|i: int| 0 <= i < patterns.len() && patterns[i] == order[j];
        assert(pattern_variables(patterns[i]).contains(name));
    }
    if member_variables(patterns).contains(name) {
        let i = choose|i: int|
            0 <= i < patterns.len() && pattern_variables(#[trigger] patterns[i]).contains(name);
        lemma_join_order_members(patterns, set![], patterns[i]);
        let j = choose|j: int| 0 <= j < order.len() && order[j] == patterns[i];
        assert(pattern_variables(order[j]).contains(name));
    }
}

/// A row of bindings that has a tuple or an error numbers nothing.
proof fn lemma_row_numbers_nothing<E>(
    variables: Seq<Variable>,
    row: Seq<Option<Term>>,
    i: int,
    tuple: Seq<Option<EncodedTerm>>,
    answers: Answers<E>,
    at: Progress,
)
    requires
        tuple.len() == at.variables.len(),
    ensures
        match row_run(variables, row, i, tuple, answers, at) {
            (Outcome::Stuck, _) => true,
            (_, next) => next.variables == at.variables,
        },
    decreases row.len() - i,
{
    if 0 <= i < row.len() {
        match row[i] {
            Some(term) => {
                let (outcome, next) = ask(Question::Term(term), answers, at);
                if outcome is Done && i < variables.len() {
                    let key = next.key(variables[i]);
                    lemma_key_is_first_place(next.variables, variables[i]@);
                    if key < tuple.len() {
                        assert(next.met(variables[i]) == next);
                        let filled = tuple.update(key as int, Some(outcome->Done_0));
                        lemma_row_numbers_nothing(variables, row, i + 1, filled, answers, next);
                    }
                }
            },
            None => {
                lemma_row_numbers_nothing(variables, row, i + 1, tuple, answers, at);
            },
        }
    }
}

proof fn lemma_rows_number_nothing<E>(
    bindings: StaticBindings,
    i: int,
    tuples: Seq<Seq<Option<EncodedTerm>>>,
    answers: Answers<E>,
    at: Progress,
)
    ensures
        match rows_run(bindings, i, tuples, answers, at) {
            (Outcome::Stuck, _) => true,
            (_, next) => next.variables == at.variables,
        },
    decreases bindings.values@.len() - i,
{
    if 0 <= i < bindings.values@.len() {
        let blank = blank_tuple(at.variables.len());
        let row = bindings.values@[i]@;
        lemma_row_numbers_nothing(bindings.variables@, row, 0, blank, answers, at);
        let (outcome, next) = row_run(bindings.variables@, row, 0, blank, answers, at);
        if let Outcome::Done(tuple) = outcome {
            lemma_rows_number_nothing(bindings, i + 1, tuples.push(tuple), answers, next);
        }
    }
}

/// Planning an expression numbers the variables that it mentions and no others. If it fails, it
/// has numbered no others.
pub proof fn lemma_expression_numbers<E>(
    expression: Expression,
    graph: Slot,
    answers: Answers<E>,
    at: Progress,
    name: Name,
)
    ensures
        ({
            let (outcome, next) = expression_run(expression, graph, answers, at);
            ends_numbering(outcome, at, next, expression_variables(expression), name)
        }),
    decreases expression, operands(expression).len() + 1,
{
    match expression {
        Expression::Constant(TermOrVariable::Term(_)) => {},
        Expression::Constant(TermOrVariable::Variable(v)) => {
            lemma_meeting_numbers(at, v, name);
        },
        Expression::Bound(v) => {
            lemma_meeting_numbers(at, v, name);
        },
        Expression::Exists(pattern) => {
            lemma_pattern_numbers(*pattern, Plan::Init, graph, answers, at, name);
        },
        _ => {
            if rejection::<E>(expression) is None {
                lemma_operands_number(expression, 0, seq![], graph, answers, at, name);
            }
        },
    }
}

proof fn lemma_operands_number<E>(
    expression: Expression,
    i: int,
    parts: Seq<Formula>,
    graph: Slot,
    answers: Answers<E>,
    at: Progress,
    name: Name,
)
    ensures
        ({
            let (outcome, next) = operands_run(expression, i, parts, graph, answers, at);
            ends_numbering(outcome, at, next, operand_variables(expression, i), name)
        }),
    decreases expression, operands(expression).len() - i,
{
    if 0 <= i < operands(expression).len() {
        lemma_operand_is_part(expression, i);
        lemma_expression_numbers(operands(expression)[i], graph, answers, at, name);
        let (outcome, next) = expression_run(operands(expression)[i], graph, answers, at);
        if let Outcome::Done(part) = outcome {
            lemma_operands_number(
                expression,
                i + 1,
                parts.push(part),
                graph,
                answers,
                next,
                name,
            );
        }
    }
}

proof fn lemma_comparator_numbers<E>(
    comparator: OrderComparator,
    graph: Slot,
    answers: Answers<E>,
    at: Progress,
    name: Name,
)
    ensures
        ({
            let (outcome, next) = comparator_run(comparator, graph, answers, at);
            ends_numbering(outcome, at, next, comparator_variables(comparator), name)
        }),
    decreases comparator, 0int,
{
    match comparator {
        OrderComparator::Asc(e) | OrderComparator::Desc(e) => {
            lemma_expression_numbers(e, graph, answers, at, name);
        },
    }
}

proof fn lemma_comparators_number<E>(
    comparators: Seq<OrderComparator>,
    i: int,
    keys: Seq<SortKey>,
    graph: Slot,
    answers: Answers<E>,
    at: Progress,
    name: Name,
)
    ensures
        ({
            let (outcome, next) = comparators_run(comparators, i, keys, graph, answers, at);
            ends_numbering(outcome, at, next, comparators_variables(comparators, i), name)
        }),
    decreases comparators, comparators.len() - i,
{
    if 0 <= i < comparators.len() {
        lemma_comparator_numbers(comparators[i], graph, answers, at, name);
        let (outcome, next) = comparator_run(comparators[i], graph, answers, at);
        if let Outcome::Done(key) = outcome {
            lemma_comparators_number(
                comparators,
                i + 1,
                keys.push(key),
                graph,
                answers,
                next,
                name,
            );
        }
    }
}

/// Whether one of the alternatives of a union from the `i`-th on mentions a name.
pub open spec fn branches_mention(pattern: GraphPattern, i: int, name: Name) -> bool {
    exists|j: int|
        i <= j < branches(pattern).len() && visible_variables(
            #[trigger] branches(pattern)[j],
        ).contains(name)
}

/// The variables that can be seen in the alternatives of a union from the `i`-th on.
spec fn branch_variables(pattern: GraphPattern, i: int) -> Set<Name> {
    Set::new(|name: Name| branches_mention(pattern, i, name))
}

/// A union mentions what its alternatives mention.
pub proof fn lemma_union_mentions(pattern: GraphPattern, name: Name)
    ensures
        visible_variables(pattern).contains(name) <==> branches_mention(pattern, 0, name),
    decreases pattern,
{
    let all = branches(pattern);
    if let GraphPattern::Union(a, b) = pattern {
        let (first, second) = (branches(*b), branches(*a));
        lemma_union_mentions(*a, name);
        lemma_union_mentions(*b, name);
        if branches_mention(*b, 0, name) {
            let j = choose|j: int|
                0 <= j < first.len() && visible_variables(#[trigger] first[j]).contains(name);
            assert(all[j] == first[j]);
        }
        if branches_mention(*a, 0, name) {
            let j = choose|j: int|
                0 <= j < second.len() && visible_variables(#[trigger] second[j]).contains(name);
            assert(all[first.len() + j] == second[j]);
        }
        if branches_mention(pattern, 0, name) {
            let j = choose|j: int|
                0 <= j < all.len() && visible_variables(#[trigger] all[j]).contains(name);
            if j < first.len() {
                assert(first[j] == all[j]);
            } else {
                assert(second[j - first.len()] == all[j]);
            }
        }
    } else {
        assert(all[0] == pattern);
        if branches_mention(pattern, 0, name) {
            let j = choose|j: int|
                0 <= j < all.len() && visible_variables(#[trigger] all[j]).contains(name);
        }
    }
}

proof fn lemma_branches_number<E>(
    pattern: GraphPattern,
    i: int,
    children: Seq<Plan>,
    graph: Slot,
    answers: Answers<E>,
    at: Progress,
    name: Name,
)
    requires
        pattern is Union,
        0 <= i,
    ensures
        ({
            let (outcome, next) = branches_run(pattern, i, children, graph, answers, at);
            ends_numbering(outcome, at, next, branch_variables(pattern, i), name)
        }),
    decreases pattern, branches(pattern).len() - i,
{
    if i < branches(pattern).len() {
        lemma_branch_is_part(pattern, i);
        let branch = branches(pattern)[i];
        lemma_pattern_numbers(branch, Plan::Init, graph, answers, at, name);
        let (outcome, next) = pattern_run(branch, Plan::Init, graph, answers, at);
        if let Outcome::Done(plan) = outcome {
            lemma_branches_number(
                pattern,
                i + 1,
                children.push(plan),
                graph,
                answers,
                next,
                name,
            );
            assert(branches_mention(pattern, i, name) <==> visible_variables(branch).contains(name)
                || branches_mention(pattern, i + 1, name));
        }
    }
}

/// Planning a pattern numbers the variables that can be seen in it and no others. If it fails, it
/// has numbered no others.
pub proof fn lemma_pattern_numbers<E>(
    pattern: GraphPattern,
    input: Plan,
    graph: Slot,
    answers: Answers<E>,
    at: Progress,
    name: Name,
)
    ensures
        ({
            let (outcome, next) = pattern_run(pattern, input, graph, answers, at);
            ends_numbering(outcome, at, next, visible_variables(pattern), name)
        }),
    decreases pattern, branches(pattern).len() + 1,
{
    match pattern {
        GraphPattern::BGP(patterns) => {
            let order = join_order(patterns@, set![]);
            lemma_joins_number(order, 0, input, graph, answers, at, name);
            assert(order.skip(0) =~= order);
            lemma_order_keeps_variables(patterns@, name);
        },
        GraphPattern::Join(a, b) | GraphPattern::Minus(a, b) => {
            lemma_pattern_numbers(*a, input, graph, answers, at, name);
            let at1 = pattern_run(*a, input, graph, answers, at).1;
            lemma_pattern_numbers(*b, input, graph, answers, at1, name);
        },
        GraphPattern::LeftJoin(a, b, e) => {
            lemma_pattern_numbers(*a, input, graph, answers, at, name);
            let at1 = pattern_run(*a, input, graph, answers, at).1;
            lemma_pattern_numbers(*b, Plan::Init, graph, answers, at1, name);
            let at2 = pattern_run(*b, Plan::Init, graph, answers, at1).1;
            lemma_expression_numbers(e, graph, answers, at2, name);
        },
        GraphPattern::Filter(e, p) => {
            lemma_pattern_numbers(*p, input, graph, answers, at, name);
            let at1 = pattern_run(*p, input, graph, answers, at).1;
            lemma_expression_numbers(e, graph, answers, at1, name);
        },
        GraphPattern::Union(_, _) => {
            lemma_branches_number(pattern, 0, seq![], graph, answers, at, name);
            lemma_union_mentions(pattern, name);
        },
        GraphPattern::Graph(g, p) => {
            lemma_middle_numbers(g, answers, at, name);
            let (outcome, at1) = middle_run(g, answers, at);
            if let Outcome::Done(named) = outcome {
                lemma_pattern_numbers(*p, input, named, answers, at1, name);
            }
        },
        GraphPattern::Extend(p, v, e) => {
            lemma_pattern_numbers(*p, input, graph, answers, at, name);
            let at1 = pattern_run(*p, input, graph, answers, at).1;
            lemma_meeting_numbers(at1, v, name);
            lemma_expression_numbers(e, graph, answers, at1.met(v), name);
        },
        GraphPattern::Service(_, _, _) => {},
        GraphPattern::AggregateJoin(_, _) => {},
        GraphPattern::Data(bindings) => {
            lemma_rows_number_nothing(bindings, 0, seq![], answers, at);
        },
        GraphPattern::OrderBy(p, order) => {
            lemma_comparators_number(order@, 0, seq![], graph, answers, at, name);
            let at1 = comparators_run(order@, 0, seq![], graph, answers, at).1;
            lemma_pattern_numbers(*p, input, graph, answers, at1, name);
        },
        GraphPattern::Project(p, variables) => {
            lemma_projection(p, variables, input, graph, answers, at);
            let next = pattern_run(pattern, input, graph, answers, at).1;
            assert(next.variables.contains(name) || !next.variables.contains(name));
        },
        GraphPattern::Distinct(p) | GraphPattern::Reduced(p) | GraphPattern::Slice(p, _, _) => {
            lemma_pattern_numbers(*p, input, graph, answers, at, name);
        },
    }
}

/// Planning an expression adds variables at the end of the numbering, each once, that it mentions.
/// This holds whether it has a result or an error.
pub proof fn lemma_expression_adds<E>(
    expression: Expression,
    graph: Slot,
    answers: Answers<E>,
    at: Progress,
)
    requires
        at.variables.no_duplicates(),
        expression_run(expression, graph, answers, at).0 !is Stuck,
    ensures
        ({
            let next = expression_run(expression, graph, answers, at).1;
            &&& begins_with(next.variables, at.variables)
            &&& next.variables.no_duplicates()
            &&& forall|i: int|
                at.variables.len() <= i < next.variables.len() ==> expression_variables(
                    expression,
                ).contains(#[trigger] next.variables[i])
        }),
{
    let next = expression_run(expression, graph, answers, at).1;
    lemma_expression_grows(expression, graph, answers, at);
    reveal(grows);
    assert forall|i: int|
        at.variables.len() <= i < next.variables.len() implies expression_variables(
        expression,
    ).contains(#[trigger] next.variables[i]) by {
        let name = next.variables[i];
        lemma_expression_numbers(expression, graph, answers, at, name);
        assert(next.variables.contains(name));
        if at.variables.contains(name) {
            let j = choose|j: int| 0 <= j < at.variables.len() && at.variables[j] == name;
            assert(next.variables[j] == next.variables[i]);
        }
    }
}

/// Planning a pattern adds variables at the end of the numbering, each once, that can be seen in
/// it. This holds whether it has a result or an error.
pub proof fn lemma_pattern_adds<E>(
    pattern: GraphPattern,
    input: Plan,
    graph: Slot,
    answers: Answers<E>,
    at: Progress,
)
    requires
        at.variables.no_duplicates(),
        pattern_run(pattern, input, graph, answers, at).0 !is Stuck,
    ensures
        ({
            let next = pattern_run(pattern, input, graph, answers, at).1;
            &&& begins_with(next.variables, at.variables)
            &&& next.variables.no_duplicates()
            &&& forall|i: int|
                at.variables.len() <= i < next.variables.len() ==> visible_variables(
                    pattern,
                ).contains(#[trigger] next.variables[i])
        }),
{
    let next = pattern_run(pattern, input, graph, answers, at).1;
    lemma_pattern_grows(pattern, input, graph, answers, at);
    reveal(grows);
    assert forall|i: int|
        at.variables.len() <= i < next.variables.len() implies visible_variables(pattern).contains(
        #[trigger] next.variables[i],
    ) by {
        let name = next.variables[i];
        lemma_pattern_numbers(pattern, input, graph, answers, at, name);
        assert(next.variables.contains(name));
        if at.variables.contains(name) {
            let j = choose|j: int| 0 <= j < at.variables.len() && at.variables[j] == name;
            assert(next.variables[j] == next.variables[i]);
        }
    }
}

/// The variables that come with a plan are those that can be seen in the query.
pub proof fn lemma_built_variables<'p, S: StoreConnection>(
    store: S,
    pattern: GraphPattern,
    answers: Answers<S::Error>,
    plan: PlanNode,
    variables: Vec<Variable>,
)
    requires
        built(store, pattern, answers, Ok::<_, Error<'p, S::Error>>((plan, variables))),
    ensures
        names(variables@).to_set() == visible_variables(pattern),
{
    let at = outset(seq![]);
    let graph = Slot::Constant(EncodedTerm::DefaultGraph);
    assert forall|name: Name| #[trigger] names(variables@).to_set().contains(name)
        <==> visible_variables(pattern).contains(name) by {
        lemma_pattern_numbers(pattern, Plan::Init, graph, answers, at, name);
    }
    assert(names(variables@).to_set() =~= visible_variables(pattern));
}

} // verus!
