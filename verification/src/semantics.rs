//! What planning does, as a function of the query and of the store's answers.
//!
//! Planning reads a query from left to right. It numbers each variable when it first meets it,
//! and asks the store for the code of each term. Each function here says how one part of a query
//! is planned: with what outcome, and how far the numbering and the questions have come.
use crate::algebra::{
    Expression, GraphPattern, NamedNodeOrVariable, OrderComparator, StaticBindings, TermOrVariable,
    TripleOrPathPattern, TriplePattern,
};
use crate::error::{Failure, Outcome};
use crate::expression::{applied, least_operands, lemma_operand_is_part, operands, rejection};
use crate::model::{names, Name, Term, Variable};
use crate::numbering::{enter, key_of};
use crate::ordering::join_order;
use crate::plan::{Formula, Plan, Slot, SortKey, TemplateSlot, TemplateTriple};
use crate::store::{Answers, EncodedTerm, Question};
use vstd::prelude::*;

verus! {

/// How far planning has come: the variables numbered so far, and the questions asked so far.
pub struct Progress {
    pub variables: Seq<Name>,
    pub asked: Seq<Question>,
}

impl Progress {
    /// The key of a variable.
    pub open spec fn key(self, variable: Variable) -> nat {
        key_of(self.variables, variable@)
    }

    /// The progress after a variable was met.
    pub open spec fn met(self, variable: Variable) -> Progress {
        Progress { variables: enter(self.variables, variable@), ..self }
    }

    /// The progress after a question was asked.
    pub open spec fn asking(self, question: Question) -> Progress {
        Progress { asked: self.asked.push(question), ..self }
    }

    /// The progress with other variables.
    pub open spec fn with_variables(self, variables: Seq<Name>) -> Progress {
        Progress { variables, ..self }
    }
}

/// Asks the store for a code.
pub open spec fn ask<E>(question: Question, answers: Answers<E>, at: Progress) -> (
    Outcome<EncodedTerm, E>,
    Progress,
) {
    let outcome = match answers(at.asked.len() as int) {
        Ok(code) => Outcome::Done(code),
        Err(error) => Outcome::Failed(Failure::Store(error)),
    };
    (outcome, at.asking(question))
}

/// Plans a subject or an object.
pub open spec fn end_run<E>(end: TermOrVariable, answers: Answers<E>, at: Progress) -> (
    Outcome<Slot, E>,
    Progress,
) {
    match end {
        TermOrVariable::Term(term) => match ask(Question::Term(term), answers, at) {
            (Outcome::Done(code), next) => (Outcome::Done(Slot::Constant(code)), next),
            (stop, next) => (stop.halt(), next),
        },
        TermOrVariable::Variable(v) => (Outcome::Done(Slot::Variable(at.key(v))), at.met(v)),
    }
}

/// Plans a predicate or the name of a graph.
pub open spec fn middle_run<E>(middle: NamedNodeOrVariable, answers: Answers<E>, at: Progress) -> (
    Outcome<Slot, E>,
    Progress,
) {
    match middle {
        NamedNodeOrVariable::NamedNode(node) => match ask(
            Question::NamedNode(node),
            answers,
            at,
        ) {
            (Outcome::Done(code), next) => (Outcome::Done(Slot::Constant(code)), next),
            (stop, next) => (stop.halt(), next),
        },
        NamedNodeOrVariable::Variable(v) => (Outcome::Done(Slot::Variable(at.key(v))), at.met(v)),
    }
}

/// Plans a triple pattern: it joins the quads that match it to what `input` yields.
pub open spec fn triple_run<E>(
    triple: TriplePattern,
    input: Plan,
    graph: Slot,
    answers: Answers<E>,
    at: Progress,
) -> (Outcome<Plan, E>, Progress) {
    match end_run(triple.subject, answers, at) {
        (Outcome::Done(subject), at1) => match middle_run(triple.predicate, answers, at1) {
            (Outcome::Done(predicate), at2) => match end_run(triple.object, answers, at2) {
                (Outcome::Done(object), at3) => (
                    Outcome::Done(
                        Plan::QuadPatternJoin {
                            child: Box::new(input),
                            subject,
                            predicate,
                            object,
                            graph_name: graph,
                        },
                    ),
                    at3,
                ),
                (stop, at3) => (stop.halt(), at3),
            },
            (stop, at2) => (stop.halt(), at2),
        },
        (stop, at1) => (stop.halt(), at1),
    }
}

/// Plans the patterns from the `i`-th on, in order. A path has no plan.
pub open spec fn joins_run<E>(
    patterns: Seq<TripleOrPathPattern>,
    i: int,
    input: Plan,
    graph: Slot,
    answers: Answers<E>,
    at: Progress,
) -> (Outcome<Plan, E>, Progress)
    decreases patterns.len() - i,
{
    if 0 <= i < patterns.len() {
        match patterns[i] {
            TripleOrPathPattern::Triple(triple) => match triple_run(
                triple,
                input,
                graph,
                answers,
                at,
            ) {
                (Outcome::Done(plan), next) => joins_run(
                    patterns,
                    i + 1,
                    plan,
                    graph,
                    answers,
                    next,
                ),
                (stop, next) => (stop, next),
            },
            TripleOrPathPattern::Path(_) => (Outcome::Stuck, at),
        }
    } else {
        (Outcome::Done(input), at)
    }
}

/// Plans a basic graph pattern.
pub open spec fn bgp_run<E>(
    patterns: Seq<TripleOrPathPattern>,
    input: Plan,
    graph: Slot,
    answers: Answers<E>,
    at: Progress,
) -> (Outcome<Plan, E>, Progress) {
    joins_run(join_order(patterns, set![]), 0, input, graph, answers, at)
}

/// Plans a row of bindings from its `i`-th value on. Each value goes to the place of its
/// variable; a variable without a place in the tuple, or a value without a variable, has no plan.
pub open spec fn row_run<E>(
    variables: Seq<Variable>,
    row: Seq<Option<Term>>,
    i: int,
    tuple: Seq<Option<EncodedTerm>>,
    answers: Answers<E>,
    at: Progress,
) -> (Outcome<Seq<Option<EncodedTerm>>, E>, Progress)
    decreases row.len() - i,
{
    if 0 <= i < row.len() {
        match row[i] {
            Some(term) => match ask(Question::Term(term), answers, at) {
                (Outcome::Done(code), next) => if i >= variables.len() {
                    (Outcome::Stuck, next)
                } else if next.key(variables[i]) >= tuple.len() {
                    (Outcome::Stuck, next.met(variables[i]))
                } else {
                    row_run(
                        variables,
                        row,
                        i + 1,
                        tuple.update(next.key(variables[i]) as int, Some(code)),
                        answers,
                        next.met(variables[i]),
                    )
                },
                (stop, next) => (stop.halt(), next),
            },
            None => row_run(variables, row, i + 1, tuple, answers, at),
        }
    } else {
        (Outcome::Done(tuple), at)
    }
}

/// A tuple without values.
pub open spec fn blank_tuple(width: nat) -> Seq<Option<EncodedTerm>> {
    Seq::new(width, |i: int| None)
}

/// Plans the rows of bindings from the `i`-th on. A tuple is as wide as the numbering is long
/// when its row is reached.
pub open spec fn rows_run<E>(
    bindings: StaticBindings,
    i: int,
    tuples: Seq<Seq<Option<EncodedTerm>>>,
    answers: Answers<E>,
    at: Progress,
) -> (Outcome<Seq<Seq<Option<EncodedTerm>>>, E>, Progress)
    decreases bindings.values@.len() - i,
{
    if 0 <= i < bindings.values@.len() {
        match row_run(
            bindings.variables@,
            bindings.values@[i]@,
            0,
            blank_tuple(at.variables.len()),
            answers,
            at,
        ) {
            (Outcome::Done(tuple), next) => rows_run(
                bindings,
                i + 1,
                tuples.push(tuple),
                answers,
                next,
            ),
            (stop, next) => (stop.halt(), next),
        }
    } else {
        (Outcome::Done(tuples), at)
    }
}

/// The keys of variables, each numbered in turn.
pub open spec fn keys_run(variables: Seq<Variable>, i: int, keys: Seq<nat>, at: Progress) -> (
    Seq<nat>,
    Progress,
)
    decreases variables.len() - i,
{
    if 0 <= i < variables.len() {
        keys_run(variables, i + 1, keys.push(at.key(variables[i])), at.met(variables[i]))
    } else {
        (keys, at)
    }
}

/// The alternatives of a union. Unions of unions are one union. The last alternative comes first.
pub open spec fn branches(pattern: GraphPattern) -> Seq<GraphPattern>
    decreases pattern,
{
    match pattern {
        GraphPattern::Union(a, b) => branches(*b) + branches(*a),
        _ => seq![pattern],
    }
}

/// An alternative of a union is a part of it.
pub proof fn lemma_branch_is_part(pattern: GraphPattern, i: int)
    requires
        pattern is Union,
        0 <= i < branches(pattern).len(),
    ensures
        decreases_to!(pattern => branches(pattern)[i]),
    decreases pattern,
{
    if let GraphPattern::Union(a, b) = pattern {
        let second = branches(*b).len();
        if i < second {
            assert(branches(pattern)[i] == branches(*b)[i]);
            if *b is Union {
                lemma_branch_is_part(*b, i);
            }
        } else {
            assert(branches(pattern)[i] == branches(*a)[i - second]);
            if *a is Union {
                lemma_branch_is_part(*a, i - second);
            }
        }
    }
}

/// The positions below `width` that `right` mentions and `left` does not, in order.
pub open spec fn only_right(left: Plan, right: Plan, width: nat) -> Seq<nat>
    decreases width,
{
    if width == 0 {
        seq![]
    } else {
        let k = (width - 1) as nat;
        let fewer = only_right(left, right, k);
        if right.mentions(k) && !left.mentions(k) {
            fewer.push(k)
        } else {
            fewer
        }
    }
}

/// Cuts the first `start` tuples off, and what comes after `length` more.
pub open spec fn sliced(plan: Plan, start: nat, length: Option<usize>) -> Plan {
    let rest = if start > 0 {
        Plan::Skip { child: Box::new(plan), count: start }
    } else {
        plan
    };
    match length {
        Some(length) => Plan::Limit { child: Box::new(rest), count: length as nat },
        None => rest,
    }
}

/// Plans an expression.
pub open spec fn expression_run<E>(
    expression: Expression,
    graph: Slot,
    answers: Answers<E>,
    at: Progress,
) -> (Outcome<Formula, E>, Progress)
    decreases expression, operands(expression).len() + 1,
{
    match expression {
        Expression::Constant(TermOrVariable::Term(term)) => match ask(
            Question::Term(term),
            answers,
            at,
        ) {
            (Outcome::Done(code), next) => (Outcome::Done(Formula::Constant(code)), next),
            (stop, next) => (stop.halt(), next),
        },
        Expression::Constant(TermOrVariable::Variable(v)) => (
            Outcome::Done(Formula::Variable(at.key(v))),
            at.met(v),
        ),
        Expression::Bound(v) => (Outcome::Done(Formula::Bound(at.key(v))), at.met(v)),
        Expression::Exists(pattern) => match pattern_run(
            *pattern,
            Plan::Init,
            graph,
            answers,
            at,
        ) {
            (Outcome::Done(plan), next) => (Outcome::Done(Formula::Exists(Box::new(plan))), next),
            (stop, next) => (stop.halt(), next),
        },
        _ => match rejection(expression) {
            Some(failure) => (Outcome::Failed(failure), at),
            None => match operands_run(expression, 0, seq![], graph, answers, at) {
                (Outcome::Done(parts), next) => if parts.len() < least_operands(expression) {
                    (Outcome::Stuck, next)
                } else {
                    (Outcome::Done(applied(expression, parts)), next)
                },
                (stop, next) => (stop.halt(), next),
            },
        },
    }
}

/// Plans the operands of an expression from the `i`-th on.
pub open spec fn operands_run<E>(
    expression: Expression,
    i: int,
    parts: Seq<Formula>,
    graph: Slot,
    answers: Answers<E>,
    at: Progress,
) -> (Outcome<Seq<Formula>, E>, Progress)
    decreases expression, operands(expression).len() - i,
{
    if 0 <= i < operands(expression).len() {
        proof {
            lemma_operand_is_part(expression, i);
        }
        match expression_run(operands(expression)[i], graph, answers, at) {
            (Outcome::Done(part), next) => operands_run(
                expression,
                i + 1,
                parts.push(part),
                graph,
                answers,
                next,
            ),
            (stop, next) => (stop.halt(), next),
        }
    } else {
        (Outcome::Done(parts), at)
    }
}

/// Plans a sort key.
pub open spec fn comparator_run<E>(
    comparator: OrderComparator,
    graph: Slot,
    answers: Answers<E>,
    at: Progress,
) -> (Outcome<SortKey, E>, Progress)
    decreases comparator, 0int,
{
    match comparator {
        OrderComparator::Asc(expression) => match expression_run(expression, graph, answers, at) {
            (Outcome::Done(formula), next) => (Outcome::Done(SortKey::Asc(formula)), next),
            (stop, next) => (stop.halt(), next),
        },
        OrderComparator::Desc(expression) => match expression_run(expression, graph, answers, at) {
            (Outcome::Done(formula), next) => (Outcome::Done(SortKey::Desc(formula)), next),
            (stop, next) => (stop.halt(), next),
        },
    }
}

/// Plans the sort keys from the `i`-th on.
pub open spec fn comparators_run<E>(
    comparators: Seq<OrderComparator>,
    i: int,
    keys: Seq<SortKey>,
    graph: Slot,
    answers: Answers<E>,
    at: Progress,
) -> (Outcome<Seq<SortKey>, E>, Progress)
    decreases comparators, comparators.len() - i,
{
    if 0 <= i < comparators.len() {
        match comparator_run(comparators[i], graph, answers, at) {
            (Outcome::Done(key), next) => comparators_run(
                comparators,
                i + 1,
                keys.push(key),
                graph,
                answers,
                next,
            ),
            (stop, next) => (stop.halt(), next),
        }
    } else {
        (Outcome::Done(keys), at)
    }
}

/// Plans the alternatives of a union from the `i`-th on. Each starts afresh.
pub open spec fn branches_run<E>(
    pattern: GraphPattern,
    i: int,
    children: Seq<Plan>,
    graph: Slot,
    answers: Answers<E>,
    at: Progress,
) -> (Outcome<Seq<Plan>, E>, Progress)
    decreases pattern, branches(pattern).len() - i,
{
    if pattern is Union && 0 <= i < branches(pattern).len() {
        proof {
            lemma_branch_is_part(pattern, i);
        }
        match pattern_run(branches(pattern)[i], Plan::Init, graph, answers, at) {
            (Outcome::Done(plan), next) => branches_run(
                pattern,
                i + 1,
                children.push(plan),
                graph,
                answers,
                next,
            ),
            (stop, next) => (stop.halt(), next),
        }
    } else {
        (Outcome::Done(children), at)
    }
}

/// The positions that the right side of a join mentions and the left side does not, in order.
/// They are below `width`, but for that of a graph that is named outside the projection that the
/// join is in.
pub open spec fn problem_positions(left: Plan, right: Plan, graph: Slot, width: nat) -> Seq<nat> {
    let below = only_right(left, right, width);
    match graph {
        Slot::Variable(k) => if k >= width && right.mentions(k) && !left.mentions(k) {
            below.push(k)
        } else {
            below
        },
        Slot::Constant(_) => below,
    }
}

/// A left join. The positions that only its right side mentions may need care.
pub open spec fn left_join(left: Plan, right: Plan, graph: Slot, width: nat) -> Plan {
    Plan::LeftJoin {
        left: Box::new(left),
        right: Box::new(right),
        possible_problem_vars: problem_positions(left, right, graph, width),
    }
}

/// Plans a pattern over what `input` yields. Quads are looked for in the graph `graph`.
///
/// Sort keys are planned before the pattern whose solutions they sort. If one fails, the pattern
/// is planned all the same, and its own failure comes first.
pub open spec fn pattern_run<E>(
    pattern: GraphPattern,
    input: Plan,
    graph: Slot,
    answers: Answers<E>,
    at: Progress,
) -> (Outcome<Plan, E>, Progress)
    decreases pattern, branches(pattern).len() + 1,
{
    match pattern {
        GraphPattern::BGP(patterns) => bgp_run(patterns@, input, graph, answers, at),
        GraphPattern::Join(a, b) => match pattern_run(*a, input, graph, answers, at) {
            (Outcome::Done(left), at1) => match pattern_run(*b, input, graph, answers, at1) {
                (Outcome::Done(right), at2) => (
                    Outcome::Done(Plan::Join { left: Box::new(left), right: Box::new(right) }),
                    at2,
                ),
                (stop, at2) => (stop, at2),
            },
            (stop, at1) => (stop, at1),
        },
        GraphPattern::LeftJoin(a, b, condition) => match pattern_run(
            *a,
            input,
            graph,
            answers,
            at,
        ) {
            (Outcome::Done(left), at1) => match pattern_run(*b, Plan::Init, graph, answers, at1) {
                (Outcome::Done(right), at2) => if condition.is_literal_true() {
                    (
                        Outcome::Done(left_join(left, right, graph, at2.variables.len())),
                        at2,
                    )
                } else {
                    match expression_run(condition, graph, answers, at2) {
                        (Outcome::Done(expression), at3) => {
                            let filtered = Plan::Filter { child: Box::new(right), expression };
                            (
                                Outcome::Done(
                                    left_join(left, filtered, graph, at3.variables.len()),
                                ),
                                at3,
                            )
                        },
                        (stop, at3) => (stop.halt(), at3),
                    }
                },
                (stop, at2) => (stop, at2),
            },
            (stop, at1) => (stop, at1),
        },
        GraphPattern::Filter(condition, p) => match pattern_run(*p, input, graph, answers, at) {
            (Outcome::Done(child), at1) => match expression_run(condition, graph, answers, at1) {
                (Outcome::Done(expression), at2) => (
                    Outcome::Done(Plan::Filter { child: Box::new(child), expression }),
                    at2,
                ),
                (stop, at2) => (stop.halt(), at2),
            },
            (stop, at1) => (stop, at1),
        },
        GraphPattern::Union(_, _) => match branches_run(pattern, 0, seq![], graph, answers, at) {
            (Outcome::Done(children), next) => (
                Outcome::Done(Plan::Union { entry: Box::new(input), children }),
                next,
            ),
            (stop, next) => (stop.halt(), next),
        },
        GraphPattern::Graph(name, p) => match middle_run(name, answers, at) {
            (Outcome::Done(named), at1) => pattern_run(*p, input, named, answers, at1),
            (stop, at1) => (stop.halt(), at1),
        },
        GraphPattern::Extend(p, v, e) => match pattern_run(*p, input, graph, answers, at) {
            (Outcome::Done(child), at1) => match expression_run(e, graph, answers, at1.met(v)) {
                (Outcome::Done(expression), at2) => (
                    Outcome::Done(
                        Plan::Extend { child: Box::new(child), position: at1.key(v), expression },
                    ),
                    at2,
                ),
                (stop, at2) => (stop.halt(), at2),
            },
            (stop, at1) => (stop, at1),
        },
        GraphPattern::Minus(a, b) => match pattern_run(*a, input, graph, answers, at) {
            (Outcome::Done(left), at1) => match pattern_run(*b, input, graph, answers, at1) {
                (Outcome::Done(right), at2) => (
                    Outcome::Done(Plan::AntiJoin { left: Box::new(left), right: Box::new(right) }),
                    at2,
                ),
                (stop, at2) => (stop, at2),
            },
            (stop, at1) => (stop, at1),
        },
        GraphPattern::Service(_, _, _) => (Outcome::Stuck, at),
        GraphPattern::AggregateJoin(_, _) => (Outcome::Stuck, at),
        GraphPattern::Data(bindings) => match rows_run(bindings, 0, seq![], answers, at) {
            (Outcome::Done(tuples), next) => (
                Outcome::Done(Plan::StaticBindings { tuples }),
                next,
            ),
            (stop, next) => (stop.halt(), next),
        },
        GraphPattern::OrderBy(p, order) => match comparators_run(
            order@,
            0,
            seq![],
            graph,
            answers,
            at,
        ) {
            (Outcome::Stuck, at1) => (Outcome::Stuck, at1),
            (sorting, at1) => match pattern_run(*p, input, graph, answers, at1) {
                (Outcome::Done(child), at2) => match sorting {
                    Outcome::Done(by) => (
                        Outcome::Done(Plan::Sort { child: Box::new(child), by }),
                        at2,
                    ),
                    stop => (stop.halt(), at2),
                },
                (stop, at2) => (stop, at2),
            },
        },
        GraphPattern::Project(p, variables) => match pattern_run(
            *p,
            input,
            graph,
            answers,
            at.with_variables(names(variables@)),
        ) {
            (Outcome::Done(child), inner) => {
                let (mapping, next) = keys_run(
                    variables@,
                    0,
                    seq![],
                    inner.with_variables(at.variables),
                );
                (Outcome::Done(Plan::Project { child: Box::new(child), mapping }), next)
            },
            (stop, inner) => (stop, inner.with_variables(at.variables)),
        },
        GraphPattern::Distinct(p) => match pattern_run(*p, input, graph, answers, at) {
            (Outcome::Done(child), next) => (
                Outcome::Done(Plan::HashDeduplicate { child: Box::new(child) }),
                next,
            ),
            (stop, next) => (stop, next),
        },
        GraphPattern::Reduced(p) => pattern_run(*p, input, graph, answers, at),
        GraphPattern::Slice(p, start, length) => match pattern_run(
            *p,
            input,
            graph,
            answers,
            at,
        ) {
            (Outcome::Done(plan), next) => (
                Outcome::Done(sliced(plan, start as nat, length)),
                next,
            ),
            (stop, next) => (stop, next),
        },
    }
}

/// The progress before anything was planned.
pub open spec fn outset(variables: Seq<Name>) -> Progress {
    Progress { variables, asked: seq![] }
}

/// Plans a query, over the default graph.
pub open spec fn query_run<E>(pattern: GraphPattern, answers: Answers<E>) -> (
    Outcome<Plan, E>,
    Progress,
) {
    pattern_run(
        pattern,
        Plan::Init,
        Slot::Constant(EncodedTerm::DefaultGraph),
        answers,
        outset(seq![]),
    )
}

/// Plans a variable of a template. A variable without a name stands for a blank node, and is
/// numbered apart.
pub open spec fn template_variable(v: Variable, at: Progress, blanks: Seq<Name>) -> (
    TemplateSlot,
    Progress,
    Seq<Name>,
) {
    if v@ is Named {
        (TemplateSlot::Variable(at.key(v)), at.met(v), blanks)
    } else {
        (TemplateSlot::BlankNode(key_of(blanks, v@)), at, enter(blanks, v@))
    }
}

/// Plans a subject or an object of a template.
pub open spec fn template_end_run<E>(
    end: TermOrVariable,
    answers: Answers<E>,
    at: Progress,
    blanks: Seq<Name>,
) -> (Outcome<TemplateSlot, E>, Progress, Seq<Name>) {
    match end {
        TermOrVariable::Term(term) => match ask(Question::Term(term), answers, at) {
            (Outcome::Done(code), next) => (
                Outcome::Done(TemplateSlot::Constant(code)),
                next,
                blanks,
            ),
            (stop, next) => (stop.halt(), next, blanks),
        },
        TermOrVariable::Variable(v) => {
            let (slot, next, blanks) = template_variable(v, at, blanks);
            (Outcome::Done(slot), next, blanks)
        },
    }
}

/// Plans a predicate of a template.
pub open spec fn template_middle_run<E>(
    middle: NamedNodeOrVariable,
    answers: Answers<E>,
    at: Progress,
    blanks: Seq<Name>,
) -> (Outcome<TemplateSlot, E>, Progress, Seq<Name>) {
    match middle {
        NamedNodeOrVariable::NamedNode(node) => match ask(
            Question::NamedNode(node),
            answers,
            at,
        ) {
            (Outcome::Done(code), next) => (
                Outcome::Done(TemplateSlot::Constant(code)),
                next,
                blanks,
            ),
            (stop, next) => (stop.halt(), next, blanks),
        },
        NamedNodeOrVariable::Variable(v) => {
            let (slot, next, blanks) = template_variable(v, at, blanks);
            (Outcome::Done(slot), next, blanks)
        },
    }
}

/// Plans a triple of a template.
pub open spec fn template_triple_run<E>(
    triple: TriplePattern,
    answers: Answers<E>,
    at: Progress,
    blanks: Seq<Name>,
) -> (Outcome<TemplateTriple, E>, Progress, Seq<Name>) {
    match template_end_run(triple.subject, answers, at, blanks) {
        (Outcome::Done(subject), at1, blanks1) => match template_middle_run(
            triple.predicate,
            answers,
            at1,
            blanks1,
        ) {
            (Outcome::Done(predicate), at2, blanks2) => match template_end_run(
                triple.object,
                answers,
                at2,
                blanks2,
            ) {
                (Outcome::Done(object), at3, blanks3) => (
                    Outcome::Done(TemplateTriple { subject, predicate, object }),
                    at3,
                    blanks3,
                ),
                (stop, at3, blanks3) => (stop.halt(), at3, blanks3),
            },
            (stop, at2, blanks2) => (stop.halt(), at2, blanks2),
        },
        (stop, at1, blanks1) => (stop.halt(), at1, blanks1),
    }
}

/// Plans the triples of a template from the `i`-th on.
pub open spec fn template_run<E>(
    template: Seq<TriplePattern>,
    i: int,
    made: Seq<TemplateTriple>,
    answers: Answers<E>,
    at: Progress,
    blanks: Seq<Name>,
) -> (Outcome<Seq<TemplateTriple>, E>, Progress, Seq<Name>)
    decreases template.len() - i,
{
    if 0 <= i < template.len() {
        match template_triple_run(template[i], answers, at, blanks) {
            (Outcome::Done(triple), next, blanks) => template_run(
                template,
                i + 1,
                made.push(triple),
                answers,
                next,
                blanks,
            ),
            (stop, next, blanks) => (stop.halt(), next, blanks),
        }
    } else {
        (Outcome::Done(made), at, blanks)
    }
}

} // verus!
