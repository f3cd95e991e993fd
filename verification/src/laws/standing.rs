//! Each position in a plan stands for the variable that was planned there.
use crate::algebra::{
    Expression, GraphPattern, NamedNodeOrVariable, OrderComparator, StaticBindings, TermOrVariable,
    TripleOrPathPattern,
};
use crate::builder::built;
use crate::error::{Error, Outcome};
use crate::expression::{applied, lemma_operand_is_part, operands, rejection};
use crate::laws::growth::{
    begins_with, group_runs_grow, grows, lemma_branches_grow, lemma_comparators_grow,
    lemma_expression_grows, lemma_joins_grow, lemma_operands_grow, lemma_pattern_grows,
    lemma_rows_grow,
};
use crate::laws::results::{lemma_entering_twice, lemma_key_is_kept, lemma_projection};
use crate::model::{names, Name, Term, Variable};
use crate::numbering::{key_of, lemma_key_is_first_place};
use crate::ordering::join_order;
use crate::plan::{Formula, Plan, PlanNode, Slot, SortKey};
use crate::semantics::{
    ask, blank_tuple, branches, branches_run, comparator_run, comparators_run, end_run,
    expression_run, joins_run, lemma_branch_is_part, middle_run, operands_run, outset, pattern_run,
    row_run, rows_run, sliced, triple_run, Progress,
};
use crate::store::{Answers, EncodedTerm, Question, StoreConnection};
use vstd::prelude::*;

verus! {

broadcast use group_runs_grow;

/// Whether a position is that of a variable.
pub open spec fn position_is(k: nat, v: Variable, table: Seq<Name>) -> bool {
    k < table.len() && table[k as int] == v@
}

/// Whether a place of a quad stands for a subject or an object.
pub open spec fn end_stands(slot: Slot, end: TermOrVariable, table: Seq<Name>) -> bool {
    match end {
        TermOrVariable::Term(_) => slot is Constant,
        TermOrVariable::Variable(v) => slot matches Slot::Variable(k) && position_is(k, v, table),
    }
}

/// Whether a place of a quad stands for a predicate or the name of a graph.
pub open spec fn middle_stands(slot: Slot, middle: NamedNodeOrVariable, table: Seq<Name>) -> bool {
    match middle {
        NamedNodeOrVariable::NamedNode(_) => slot is Constant,
        NamedNodeOrVariable::Variable(v) => {
            slot matches Slot::Variable(k) && position_is(k, v, table)
        },
    }
}

/// Whether a place of a quad stands for the graph that the nearest graph clause names, or for the
/// default graph where there is none.
pub open spec fn graph_stands(
    slot: Slot,
    clause: Option<NamedNodeOrVariable>,
    table: Seq<Name>,
) -> bool {
    match clause {
        Some(name) => middle_stands(slot, name, table),
        None => slot == Slot::Constant(EncodedTerm::DefaultGraph),
    }
}

/// The parts of which an expression made a formula.
pub open spec fn parts_of(expression: Expression, formula: Formula) -> Seq<Formula> {
    if expression is NotIn {
        formula->Apply_1[0]->Apply_1
    } else {
        formula->Apply_1
    }
}

/// Whether a formula stands for an expression.
pub open spec fn expression_stands(
    formula: Formula,
    expression: Expression,
    clause: Option<NamedNodeOrVariable>,
    table: Seq<Name>,
) -> bool
    decreases expression, operands(expression).len() + 1,
{
    match expression {
        Expression::Constant(TermOrVariable::Term(_)) => formula is Constant,
        Expression::Constant(TermOrVariable::Variable(v)) => {
            formula matches Formula::Variable(k) && position_is(k, v, table)
        },
        Expression::Bound(v) => formula matches Formula::Bound(k) && position_is(k, v, table),
        Expression::Exists(pattern) => {
            &&& formula matches Formula::Exists(plan)
            &&& plan_stands(*plan, *pattern, Plan::Init, clause, table)
        },
        _ => {
            let parts = parts_of(expression, formula);
            &&& formula == applied(expression, parts)
            &&& parts.len() == operands(expression).len()
            &&& operands_stand(expression, 0, parts, clause, table)
        },
    }
}

/// Whether formulas stand for the operands of an expression, from the `i`-th on.
pub open spec fn operands_stand(
    expression: Expression,
    i: int,
    parts: Seq<Formula>,
    clause: Option<NamedNodeOrVariable>,
    table: Seq<Name>,
) -> bool
    decreases expression, operands(expression).len() - i,
{
    if 0 <= i < operands(expression).len() {
        proof {
            lemma_operand_is_part(expression, i);
        }
        &&& expression_stands(parts[i], operands(expression)[i], clause, table)
        &&& operands_stand(expression, i + 1, parts, clause, table)
    } else {
        true
    }
}

/// Whether a planned sort key stands for a sort key.
pub open spec fn comparator_stands(
    key: SortKey,
    comparator: OrderComparator,
    clause: Option<NamedNodeOrVariable>,
    table: Seq<Name>,
) -> bool
    decreases comparator, 0int,
{
    match comparator {
        OrderComparator::Asc(e) => {
            key matches SortKey::Asc(formula) && expression_stands(formula, e, clause, table)
        },
        OrderComparator::Desc(e) => {
            key matches SortKey::Desc(formula) && expression_stands(formula, e, clause, table)
        },
    }
}

/// Whether planned sort keys stand for sort keys, from the `i`-th on.
pub open spec fn comparators_stand(
    comparators: Seq<OrderComparator>,
    i: int,
    keys: Seq<SortKey>,
    clause: Option<NamedNodeOrVariable>,
    table: Seq<Name>,
) -> bool
    decreases comparators, comparators.len() - i,
{
    if 0 <= i < comparators.len() {
        &&& comparator_stands(keys[i], comparators[i], clause, table)
        &&& comparators_stand(comparators, i + 1, keys, clause, table)
    } else {
        true
    }
}

/// Whether a plan joins quads that stand for the first `count` triples of a list to `input`, in
/// order.
pub open spec fn joins_stand(
    plan: Plan,
    patterns: Seq<TripleOrPathPattern>,
    count: nat,
    input: Plan,
    clause: Option<NamedNodeOrVariable>,
    table: Seq<Name>,
) -> bool
    decreases count,
{
    if count == 0 {
        plan == input
    } else {
        &&& plan matches Plan::QuadPatternJoin { child, subject, predicate, object, graph_name }
        &&& patterns[count - 1] matches TripleOrPathPattern::Triple(triple)
        &&& end_stands(subject, triple.subject, table)
        &&& middle_stands(predicate, triple.predicate, table)
        &&& end_stands(object, triple.object, table)
        &&& graph_stands(graph_name, clause, table)
        &&& joins_stand(*child, patterns, (count - 1) as nat, input, clause, table)
    }
}

/// Whether a tuple has a value at the position of each variable that the first `count` places of a
/// row give one.
pub open spec fn row_stands(
    tuple: Seq<Option<EncodedTerm>>,
    variables: Seq<Variable>,
    row: Seq<Option<Term>>,
    count: int,
    table: Seq<Name>,
) -> bool {
    forall|c: int|
        0 <= c < count && (#[trigger] row[c]) is Some ==> {
            let k = key_of(table, variables[c]@);
            &&& c < variables.len()
            &&& position_is(k, variables[c], table)
            &&& k < tuple.len()
            &&& tuple[k as int] is Some
        }
}

/// Whether tuples stand for the rows of a table of bindings.
pub open spec fn rows_stand(
    tuples: Seq<Seq<Option<EncodedTerm>>>,
    bindings: StaticBindings,
    table: Seq<Name>,
) -> bool {
    forall|i: int|
        0 <= i < tuples.len() ==> row_stands(
            #[trigger] tuples[i],
            bindings.variables@,
            bindings.values@[i]@,
            bindings.values@[i]@.len() as int,
            table,
        )
}

/// What was cut to make a plan.
pub open spec fn unsliced(plan: Plan, start: nat, length: Option<usize>) -> Plan {
    let rest = if length is Some {
        *plan->Limit_child
    } else {
        plan
    };
    if start > 0 {
        *rest->Skip_child
    } else {
        rest
    }
}

/// Whether a plan stands for a pattern over what `input` yields: at each position is the variable
/// that the pattern has there. What a projection is made of has a table of its own.
pub open spec fn plan_stands(
    plan: Plan,
    pattern: GraphPattern,
    input: Plan,
    clause: Option<NamedNodeOrVariable>,
    table: Seq<Name>,
) -> bool
    decreases pattern, branches(pattern).len() + 1,
{
    match pattern {
        GraphPattern::BGP(patterns) => {
            let order = join_order(patterns@, set![]);
            joins_stand(plan, order, order.len(), input, clause, table)
        },
        GraphPattern::Join(a, b) => {
            &&& plan matches Plan::Join { left, right }
            &&& plan_stands(*left, *a, input, clause, table)
            &&& plan_stands(*right, *b, input, clause, table)
        },
        GraphPattern::LeftJoin(a, b, e) => {
            &&& plan matches Plan::LeftJoin { left, right, .. }
            &&& plan_stands(*left, *a, input, clause, table)
            &&& if e.is_literal_true() {
                plan_stands(*right, *b, Plan::Init, clause, table)
            } else {
                &&& *right matches Plan::Filter { child, expression }
                &&& plan_stands(*child, *b, Plan::Init, clause, table)
                &&& expression_stands(expression, e, clause, table)
            }
        },
        GraphPattern::Filter(e, p) => {
            &&& plan matches Plan::Filter { child, expression }
            &&& plan_stands(*child, *p, input, clause, table)
            &&& expression_stands(expression, e, clause, table)
        },
        GraphPattern::Union(_, _) => {
            &&& plan matches Plan::Union { entry, children }
            &&& *entry == input
            &&& children.len() == branches(pattern).len()
            &&& branches_stand(pattern, 0, children, clause, table)
        },
        GraphPattern::Graph(name, p) => plan_stands(plan, *p, input, Some(name), table),
        GraphPattern::Extend(p, v, e) => {
            &&& plan matches Plan::Extend { child, position, expression }
            &&& plan_stands(*child, *p, input, clause, table)
            &&& position_is(position, v, table)
            &&& expression_stands(expression, e, clause, table)
        },
        GraphPattern::Minus(a, b) => {
            &&& plan matches Plan::AntiJoin { left, right }
            &&& plan_stands(*left, *a, input, clause, table)
            &&& plan_stands(*right, *b, input, clause, table)
        },
        GraphPattern::Service(_, _, _) => false,
        GraphPattern::AggregateJoin(_, _) => false,
        GraphPattern::Data(bindings) => {
            &&& plan matches Plan::StaticBindings { tuples }
            &&& tuples.len() == bindings.values@.len()
            &&& rows_stand(tuples, bindings, table)
        },
        GraphPattern::OrderBy(p, order) => {
            &&& plan matches Plan::Sort { child, by }
            &&& by.len() == order@.len()
            &&& comparators_stand(order@, 0, by, clause, table)
            &&& plan_stands(*child, *p, input, clause, table)
        },
        GraphPattern::Project(_, variables) => {
            &&& plan matches Plan::Project { mapping, .. }
            &&& mapping.len() == variables@.len()
            &&& forall|i: int|
                0 <= i < mapping.len() ==> position_is(#[trigger] mapping[i], variables@[i], table)
        },
        GraphPattern::Distinct(p) => {
            &&& plan matches Plan::HashDeduplicate { child }
            &&& plan_stands(*child, *p, input, clause, table)
        },
        GraphPattern::Reduced(p) => plan_stands(plan, *p, input, clause, table),
        GraphPattern::Slice(p, start, length) => {
            let whole = unsliced(plan, start as nat, length);
            &&& plan == sliced(whole, start as nat, length)
            &&& plan_stands(whole, *p, input, clause, table)
        },
    }
}

/// Whether plans stand for the alternatives of a union, from the `i`-th on.
pub open spec fn branches_stand(
    pattern: GraphPattern,
    i: int,
    children: Seq<Plan>,
    clause: Option<NamedNodeOrVariable>,
    table: Seq<Name>,
) -> bool
    decreases pattern, branches(pattern).len() - i,
{
    if pattern is Union && 0 <= i < branches(pattern).len() {
        proof {
            lemma_branch_is_part(pattern, i);
        }
        &&& plan_stands(children[i], branches(pattern)[i], Plan::Init, clause, table)
        &&& branches_stand(pattern, i + 1, children, clause, table)
    } else {
        true
    }
}

/// Whether a table holds the variables numbered so far at their positions.
#[verifier::opaque]
pub open spec fn leads_to(at: Progress, table: Seq<Name>) -> bool {
    begins_with(table, at.variables)
}

/// What a later progress leads to, an earlier one leads to.
broadcast proof fn lemma_leads_on(earlier: Progress, later: Progress, table: Seq<Name>)
    requires
        #[trigger] grows(earlier, later),
        #[trigger] leads_to(later, table),
    ensures
        leads_to(earlier, table),
{
    reveal(leads_to);
    reveal(grows);
    assert forall|i: int| 0 <= i < earlier.variables.len() implies earlier.variables[i]
        == #[trigger] table[i] by {
        assert(later.variables[i] == table[i]);
    }
}

/// The key of a variable is its position.
proof fn lemma_key_is_position(at: Progress, v: Variable, table: Seq<Name>)
    requires
        leads_to(at.met(v), table),
    ensures
        position_is(at.key(v), v, table),
{
    reveal(leads_to);
    lemma_entering_twice(at.variables, v@);
    assert(at.met(v).variables[at.key(v) as int] == table[at.key(v) as int]);
}

proof fn lemma_end_stands<E>(
    end: TermOrVariable,
    answers: Answers<E>,
    at: Progress,
    table: Seq<Name>,
)
    requires
        leads_to(end_run(end, answers, at).1, table),
    ensures
        match end_run(end, answers, at).0 {
            Outcome::Done(slot) => end_stands(slot, end, table),
            _ => true,
        },
{
    if let TermOrVariable::Variable(v) = end {
        lemma_key_is_position(at, v, table);
    }
}

proof fn lemma_middle_stands<E>(
    middle: NamedNodeOrVariable,
    answers: Answers<E>,
    at: Progress,
    table: Seq<Name>,
)
    requires
        leads_to(middle_run(middle, answers, at).1, table),
    ensures
        match middle_run(middle, answers, at).0 {
            Outcome::Done(slot) => middle_stands(slot, middle, table),
            _ => true,
        },
{
    if let NamedNodeOrVariable::Variable(v) = middle {
        lemma_key_is_position(at, v, table);
    }
}

proof fn lemma_joins_stand<E>(
    patterns: Seq<TripleOrPathPattern>,
    i: int,
    input: Plan,
    so_far: Plan,
    graph: Slot,
    answers: Answers<E>,
    at: Progress,
    clause: Option<NamedNodeOrVariable>,
    table: Seq<Name>,
)
    requires
        0 <= i <= patterns.len(),
        joins_stand(so_far, patterns, i as nat, input, clause, table),
        graph_stands(graph, clause, table),
        leads_to(joins_run(patterns, i, so_far, graph, answers, at).1, table),
    ensures
        match joins_run(patterns, i, so_far, graph, answers, at).0 {
            Outcome::Done(plan) => joins_stand(
                plan,
                patterns,
                patterns.len(),
                input,
                clause,
                table,
            ),
            _ => true,
        },
    decreases patterns.len() - i,
{
    broadcast use lemma_leads_on;

    if i < patterns.len() {
        if let TripleOrPathPattern::Triple(triple) = patterns[i] {
            let (outcome, next) = triple_run(triple, so_far, graph, answers, at);
            if let Outcome::Done(plan) = outcome {
                lemma_joins_grow(patterns, i + 1, plan, graph, answers, next);
                let (subject, at1) = end_run(triple.subject, answers, at);
                let (predicate, at2) = middle_run(triple.predicate, answers, at1);
                lemma_end_stands(triple.object, answers, at2, table);
                lemma_middle_stands(triple.predicate, answers, at1, table);
                lemma_end_stands(triple.subject, answers, at, table);
                assert(joins_stand(plan, patterns, (i + 1) as nat, input, clause, table));
                lemma_joins_stand(
                    patterns,
                    i + 1,
                    input,
                    plan,
                    graph,
                    answers,
                    next,
                    clause,
                    table,
                );
            }
        }
    }
}

proof fn lemma_row_stands<E>(
    variables: Seq<Variable>,
    row: Seq<Option<Term>>,
    i: int,
    tuple: Seq<Option<EncodedTerm>>,
    answers: Answers<E>,
    at: Progress,
    table: Seq<Name>,
)
    requires
        0 <= i <= row.len(),
        tuple.len() == at.variables.len(),
        row_stands(tuple, variables, row, i, table),
        leads_to(at, table),
    ensures
        match row_run(variables, row, i, tuple, answers, at).0 {
            Outcome::Done(made) => row_stands(made, variables, row, row.len() as int, table),
            _ => true,
        },
    decreases row.len() - i,
{
    if i < row.len() {
        match row[i] {
            Some(term) => {
                let (outcome, next) = ask(Question::Term(term), answers, at);
                if outcome is Done && i < variables.len() {
                    let key = next.key(variables[i]);
                    lemma_key_is_first_place(at.variables, variables[i]@);
                    if key < tuple.len() {
                        reveal(leads_to);
                        assert(next.met(variables[i]) == next);
                        lemma_key_is_kept(at.variables, table, variables[i]@);
                        assert(at.variables[key as int] == table[key as int]);
                        let filled = tuple.update(key as int, Some(outcome->Done_0));
                        lemma_row_stands(variables, row, i + 1, filled, answers, next, table);
                    }
                }
            },
            None => {
                lemma_row_stands(variables, row, i + 1, tuple, answers, at, table);
            },
        }
    }
}

proof fn lemma_rows_stand<E>(
    bindings: StaticBindings,
    i: int,
    tuples: Seq<Seq<Option<EncodedTerm>>>,
    answers: Answers<E>,
    at: Progress,
    table: Seq<Name>,
)
    requires
        0 <= i <= bindings.values@.len(),
        tuples.len() == i,
        rows_stand(tuples, bindings, table),
        leads_to(rows_run(bindings, i, tuples, answers, at).1, table),
    ensures
        match rows_run(bindings, i, tuples, answers, at).0 {
            Outcome::Done(made) => made.len() == bindings.values@.len() && rows_stand(
                made,
                bindings,
                table,
            ),
            _ => true,
        },
    decreases bindings.values@.len() - i,
{
    broadcast use lemma_leads_on;

    if i < bindings.values@.len() {
        let blank = blank_tuple(at.variables.len());
        let row = bindings.values@[i]@;
        let (outcome, next) = row_run(bindings.variables@, row, 0, blank, answers, at);
        if let Outcome::Done(tuple) = outcome {
            lemma_rows_grow(bindings, i + 1, tuples.push(tuple), answers, next);
            lemma_row_stands(bindings.variables@, row, 0, blank, answers, at, table);
            lemma_rows_stand(bindings, i + 1, tuples.push(tuple), answers, next, table);
        }
    }
}

/// The formula that an expression comes to stands for it: each variable of the expression is at its
/// position.
pub proof fn lemma_expression_stands<E>(
    expression: Expression,
    graph: Slot,
    answers: Answers<E>,
    at: Progress,
    clause: Option<NamedNodeOrVariable>,
    table: Seq<Name>,
)
    requires
        graph_stands(graph, clause, table),
        leads_to(expression_run(expression, graph, answers, at).1, table),
    ensures
        match expression_run(expression, graph, answers, at).0 {
            Outcome::Done(formula) => expression_stands(formula, expression, clause, table),
            _ => true,
        },
    decreases expression, operands(expression).len() + 1,
{
    broadcast use lemma_leads_on;

    match expression {
        Expression::Constant(TermOrVariable::Term(_)) => {},
        Expression::Constant(TermOrVariable::Variable(v)) => {
            lemma_key_is_position(at, v, table);
        },
        Expression::Bound(v) => {
            lemma_key_is_position(at, v, table);
        },
        Expression::Exists(pattern) => {
            lemma_pattern_stands(*pattern, Plan::Init, graph, answers, at, clause, table);
        },
        _ => {
            if rejection::<E>(expression) is None {
                lemma_operands_stand(expression, 0, seq![], graph, answers, at, clause, table);
                let outcome = operands_run(expression, 0, seq![], graph, answers, at).0;
                if let Outcome::Done(parts) = outcome {
                    assert(parts_of(expression, applied(expression, parts)) == parts);
                }
            }
        },
    }
}

proof fn lemma_operands_stand<E>(
    expression: Expression,
    i: int,
    parts: Seq<Formula>,
    graph: Slot,
    answers: Answers<E>,
    at: Progress,
    clause: Option<NamedNodeOrVariable>,
    table: Seq<Name>,
)
    requires
        0 <= i <= operands(expression).len(),
        parts.len() == i,
        graph_stands(graph, clause, table),
        leads_to(operands_run(expression, i, parts, graph, answers, at).1, table),
    ensures
        match operands_run(expression, i, parts, graph, answers, at).0 {
            Outcome::Done(made) => {
                &&& begins_with(made, parts)
                &&& made.len() == operands(expression).len()
                &&& operands_stand(expression, i, made, clause, table)
            },
            _ => true,
        },
    decreases expression, operands(expression).len() - i,
{
    broadcast use lemma_leads_on;

    if i < operands(expression).len() {
        lemma_operand_is_part(expression, i);
        let operand = operands(expression)[i];
        let (outcome, next) = expression_run(operand, graph, answers, at);
        if let Outcome::Done(part) = outcome {
            let more = parts.push(part);
            lemma_operands_grow(expression, i + 1, more, graph, answers, next);
            lemma_expression_stands(operand, graph, answers, at, clause, table);
            lemma_operands_stand(expression, i + 1, more, graph, answers, next, clause, table);
            let whole = operands_run(expression, i, parts, graph, answers, at).0;
            if let Outcome::Done(made) = whole {
                assert(more[i] == made[i]);
                assert forall|j: int| 0 <= j < parts.len() implies parts[j]
                    == #[trigger] made[j] by {
                    assert(more[j] == made[j]);
                }
            }
        }
    }
}

proof fn lemma_comparator_stands<E>(
    comparator: OrderComparator,
    graph: Slot,
    answers: Answers<E>,
    at: Progress,
    clause: Option<NamedNodeOrVariable>,
    table: Seq<Name>,
)
    requires
        graph_stands(graph, clause, table),
        leads_to(comparator_run(comparator, graph, answers, at).1, table),
    ensures
        match comparator_run(comparator, graph, answers, at).0 {
            Outcome::Done(key) => comparator_stands(key, comparator, clause, table),
            _ => true,
        },
    decreases comparator, 0int,
{
    broadcast use lemma_leads_on;

    match comparator {
        OrderComparator::Asc(e) | OrderComparator::Desc(e) => {
            lemma_expression_stands(e, graph, answers, at, clause, table);
        },
    }
}

proof fn lemma_comparators_stand<E>(
    comparators: Seq<OrderComparator>,
    i: int,
    keys: Seq<SortKey>,
    graph: Slot,
    answers: Answers<E>,
    at: Progress,
    clause: Option<NamedNodeOrVariable>,
    table: Seq<Name>,
)
    requires
        0 <= i <= comparators.len(),
        keys.len() == i,
        graph_stands(graph, clause, table),
        leads_to(comparators_run(comparators, i, keys, graph, answers, at).1, table),
    ensures
        match comparators_run(comparators, i, keys, graph, answers, at).0 {
            Outcome::Done(made) => {
                &&& begins_with(made, keys)
                &&& made.len() == comparators.len()
                &&& comparators_stand(comparators, i, made, clause, table)
            },
            _ => true,
        },
    decreases comparators, comparators.len() - i,
{
    broadcast use lemma_leads_on;

    if i < comparators.len() {
        let (outcome, next) = comparator_run(comparators[i], graph, answers, at);
        if let Outcome::Done(key) = outcome {
            let more = keys.push(key);
            lemma_comparators_grow(comparators, i + 1, more, graph, answers, next);
            lemma_comparator_stands(comparators[i], graph, answers, at, clause, table);
            lemma_comparators_stand(comparators, i + 1, more, graph, answers, next, clause, table);
            let whole = comparators_run(comparators, i, keys, graph, answers, at).0;
            if let Outcome::Done(made) = whole {
                assert(more[i] == made[i]);
                assert forall|j: int| 0 <= j < keys.len() implies keys[j] == #[trigger] made[j] by {
                    assert(more[j] == made[j]);
                }
            }
        }
    }
}

proof fn lemma_branches_stand<E>(
    pattern: GraphPattern,
    i: int,
    children: Seq<Plan>,
    graph: Slot,
    answers: Answers<E>,
    at: Progress,
    clause: Option<NamedNodeOrVariable>,
    table: Seq<Name>,
)
    requires
        pattern is Union,
        0 <= i <= branches(pattern).len(),
        children.len() == i,
        graph_stands(graph, clause, table),
        leads_to(branches_run(pattern, i, children, graph, answers, at).1, table),
    ensures
        match branches_run(pattern, i, children, graph, answers, at).0 {
            Outcome::Done(made) => {
                &&& begins_with(made, children)
                &&& made.len() == branches(pattern).len()
                &&& branches_stand(pattern, i, made, clause, table)
            },
            _ => true,
        },
    decreases pattern, branches(pattern).len() - i,
{
    broadcast use lemma_leads_on;

    if i < branches(pattern).len() {
        lemma_branch_is_part(pattern, i);
        let branch = branches(pattern)[i];
        let (outcome, next) = pattern_run(branch, Plan::Init, graph, answers, at);
        if let Outcome::Done(plan) = outcome {
            let more = children.push(plan);
            lemma_branches_grow(pattern, i + 1, more, graph, answers, next);
            lemma_pattern_stands(branch, Plan::Init, graph, answers, at, clause, table);
            lemma_branches_stand(pattern, i + 1, more, graph, answers, next, clause, table);
            let whole = branches_run(pattern, i, children, graph, answers, at).0;
            if let Outcome::Done(made) = whole {
                assert(more[i] == made[i]);
                assert forall|j: int| 0 <= j < children.len() implies children[j]
                    == #[trigger] made[j] by {
                    assert(more[j] == made[j]);
                }
            }
        }
    }
}

/// The plan that a pattern comes to stands for it: each variable of the pattern is at its position.
pub proof fn lemma_pattern_stands<E>(
    pattern: GraphPattern,
    input: Plan,
    graph: Slot,
    answers: Answers<E>,
    at: Progress,
    clause: Option<NamedNodeOrVariable>,
    table: Seq<Name>,
)
    requires
        graph_stands(graph, clause, table),
        leads_to(pattern_run(pattern, input, graph, answers, at).1, table),
    ensures
        match pattern_run(pattern, input, graph, answers, at).0 {
            Outcome::Done(plan) => plan_stands(plan, pattern, input, clause, table),
            _ => true,
        },
    decreases pattern, branches(pattern).len() + 1,
{
    broadcast use lemma_leads_on;

    match pattern {
        GraphPattern::BGP(patterns) => {
            let order = join_order(patterns@, set![]);
            lemma_joins_stand(order, 0, input, input, graph, answers, at, clause, table);
        },
        GraphPattern::Join(a, b) | GraphPattern::Minus(a, b) => {
            let (left, at1) = pattern_run(*a, input, graph, answers, at);
            if left is Done {
                lemma_pattern_grows(*b, input, graph, answers, at1);
                lemma_pattern_stands(*b, input, graph, answers, at1, clause, table);
                lemma_pattern_stands(*a, input, graph, answers, at, clause, table);
            }
        },
        GraphPattern::LeftJoin(a, b, e) => {
            let (left, at1) = pattern_run(*a, input, graph, answers, at);
            let (right, at2) = pattern_run(*b, Plan::Init, graph, answers, at1);
            if left is Done && right is Done {
                lemma_expression_grows(e, graph, answers, at2);
                if !e.is_literal_true() {
                    lemma_expression_stands(e, graph, answers, at2, clause, table);
                }
                lemma_pattern_stands(*b, Plan::Init, graph, answers, at1, clause, table);
                lemma_pattern_stands(*a, input, graph, answers, at, clause, table);
            }
        },
        GraphPattern::Filter(e, p) => {
            let (child, at1) = pattern_run(*p, input, graph, answers, at);
            if child is Done {
                lemma_expression_grows(e, graph, answers, at1);
                lemma_expression_stands(e, graph, answers, at1, clause, table);
                lemma_pattern_stands(*p, input, graph, answers, at, clause, table);
            }
        },
        GraphPattern::Union(_, _) => {
            lemma_branches_stand(pattern, 0, seq![], graph, answers, at, clause, table);
        },
        GraphPattern::Graph(name, p) => {
            let (outcome, at1) = middle_run(name, answers, at);
            if let Outcome::Done(named) = outcome {
                lemma_pattern_grows(*p, input, named, answers, at1);
                lemma_middle_stands(name, answers, at, table);
                lemma_pattern_stands(*p, input, named, answers, at1, Some(name), table);
            }
        },
        GraphPattern::Extend(p, v, e) => {
            let (child, at1) = pattern_run(*p, input, graph, answers, at);
            if child is Done {
                assert(grows(at1, at1.met(v)));
                lemma_expression_grows(e, graph, answers, at1.met(v));
                lemma_expression_stands(e, graph, answers, at1.met(v), clause, table);
                lemma_key_is_position(at1, v, table);
                lemma_pattern_stands(*p, input, graph, answers, at, clause, table);
            }
        },
        GraphPattern::Service(_, _, _) => {},
        GraphPattern::AggregateJoin(_, _) => {},
        GraphPattern::Data(bindings) => {
            lemma_rows_stand(bindings, 0, seq![], answers, at, table);
        },
        GraphPattern::OrderBy(p, order) => {
            let (sorting, at1) = comparators_run(order@, 0, seq![], graph, answers, at);
            if sorting is Done {
                lemma_pattern_grows(*p, input, graph, answers, at1);
                lemma_pattern_stands(*p, input, graph, answers, at1, clause, table);
                lemma_comparators_stand(order@, 0, seq![], graph, answers, at, clause, table);
            }
        },
        GraphPattern::Project(p, variables) => {
            lemma_projection(p, variables, input, graph, answers, at);
            let (outcome, next) = pattern_run(pattern, input, graph, answers, at);
            if let Outcome::Done(plan) = outcome {
                if let Plan::Project { mapping, .. } = plan {
                    reveal(leads_to);
                    assert forall|i: int| 0 <= i < mapping.len() implies position_is(
                        #[trigger] mapping[i],
                        variables@[i],
                        table,
                    ) by {
                        assert(next.variables[mapping[i] as int] == table[mapping[i] as int]);
                    }
                }
            }
        },
        GraphPattern::Distinct(p) | GraphPattern::Reduced(p) => {
            lemma_pattern_stands(*p, input, graph, answers, at, clause, table);
        },
        GraphPattern::Slice(p, start, length) => {
            lemma_pattern_stands(*p, input, graph, answers, at, clause, table);
            if let Outcome::Done(whole) = pattern_run(*p, input, graph, answers, at).0 {
                let plan = sliced(whole, start as nat, length);
                assert(unsliced(plan, start as nat, length) == whole);
            }
        },
    }
}

/// A plan that is built stands for its query: each variable of the query is at its position among
/// the variables that come with the plan.
pub proof fn lemma_built_stands<'p, S: StoreConnection>(
    store: S,
    pattern: GraphPattern,
    answers: Answers<S::Error>,
    plan: PlanNode,
    variables: Vec<Variable>,
)
    requires
        built(store, pattern, answers, Ok::<_, Error<'p, S::Error>>((plan, variables))),
    ensures
        plan_stands(plan.model(), pattern, Plan::Init, None, names(variables@)),
{
    let graph = Slot::Constant(EncodedTerm::DefaultGraph);
    let table = names(variables@);
    reveal(leads_to);
    lemma_pattern_stands(pattern, Plan::Init, graph, answers, outset(seq![]), None, table);
}

} // verus!
