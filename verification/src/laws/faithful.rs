//! A plan says what its query says.
//!
//! The predicates here hold a plan against the query that it was made of, part by part, over the
//! variables at the positions of its tuples and the codes that the store gave for its constants.
use crate::algebra::{
    Expression, Function, GraphPattern, NamedNodeOrVariable, OrderComparator, StaticBindings,
    TermOrVariable, TripleOrPathPattern,
};
use crate::builder::built;
use crate::error::{Error, Outcome};
use crate::expression::{
    applied, function_operator, is_operation, least_operands, lemma_operand_is_part, operands,
    rejection,
};
use crate::laws::asking::pattern_questions;
use crate::laws::expressions::{binary, cast_iri, casts_to, computes, takes, unary};
use crate::laws::failing::lemma_query_ends;
use crate::laws::growth::{
    begins_with, group_runs_grow, grows, lemma_branches_grow, lemma_comparators_grow,
    lemma_expression_grows, lemma_joins_grow, lemma_operands_grow, lemma_pattern_grows,
    lemma_rows_grow,
};
use crate::laws::parts::lemma_keys_are_positions;
use crate::laws::results::lemma_entering_twice;
use crate::laws::scoping::lemma_problem_variables;
use crate::model::{names, Literal, Name, NamedNode, Term, Variable};
use crate::numbering::lemma_key_is_first_place;
use crate::ordering::join_order;
use crate::plan::{Formula, Plan, PlanNode, Slot, SortKey};
use crate::semantics::{
    ask, blank_tuple, branches, branches_run, comparator_run, comparators_run, end_run,
    expression_run, joins_run, keys_run, lemma_branch_is_part, middle_run, operands_run, outset,
    pattern_run, row_run, rows_run, triple_run, Progress,
};
use crate::store::{may_answer, may_answer_all, Answers, EncodedTerm, Question, StoreConnection};
use crate::xsd::cast_target_of;
use vstd::prelude::*;

verus! {

broadcast use group_runs_grow;

/// The codes that a store has given: which ones to which questions.
pub type Codes = spec_fn(Question, EncodedTerm) -> bool;

/// The codes among the answers to these questions.
pub open spec fn codes_given<E>(asked: Seq<Question>, answers: Answers<E>) -> Codes {
    |question: Question, code: EncodedTerm|
        exists|i: int|
            {
                &&& 0 <= i < asked.len()
                &&& asked[i] == question
                &&& #[trigger] answers(i) == Ok::<EncodedTerm, E>(code)
            }
}

/// Whether codes are what a store may encode terms and IRIs as.
pub open spec fn are_codes_of<S: StoreConnection>(codes: Codes, store: S) -> bool {
    &&& forall|term: Term, code: EncodedTerm| #[trigger]
        codes(Question::Term(term), code) ==> call_ensures(
            S::encode_term,
            (&store, &term),
            Ok::<EncodedTerm, S::Error>(code),
        )
    &&& forall|node: NamedNode, code: EncodedTerm| #[trigger]
        codes(Question::NamedNode(node), code) ==> call_ensures(
            S::encode_named_node,
            (&store, &node),
            Ok::<EncodedTerm, S::Error>(code),
        )
}

/// The codes that a store has answered with are what it may encode terms and IRIs as.
pub proof fn lemma_codes_are_given<S: StoreConnection>(
    store: S,
    asked: Seq<Question>,
    answers: Answers<S::Error>,
)
    requires
        may_answer_all(store, asked, answers),
    ensures
        are_codes_of(codes_given(asked, answers), store),
{
    let codes = codes_given(asked, answers);
    assert forall|term: Term, code: EncodedTerm| #[trigger]
        codes(Question::Term(term), code) implies call_ensures(
        S::encode_term,
        (&store, &term),
        Ok::<EncodedTerm, S::Error>(code),
    ) by {
        let i = choose|i: int|
            {
                &&& 0 <= i < asked.len()
                &&& asked[i] == Question::Term(term)
                &&& #[trigger] answers(i) == Ok::<EncodedTerm, S::Error>(code)
            };
        assert(may_answer(store, asked[i], answers(i)));
    }
    assert forall|node: NamedNode, code: EncodedTerm| #[trigger]
        codes(Question::NamedNode(node), code) implies call_ensures(
        S::encode_named_node,
        (&store, &node),
        Ok::<EncodedTerm, S::Error>(code),
    ) by {
        let i = choose|i: int|
            {
                &&& 0 <= i < asked.len()
                &&& asked[i] == Question::NamedNode(node)
                &&& #[trigger] answers(i) == Ok::<EncodedTerm, S::Error>(code)
            };
        assert(may_answer(store, asked[i], answers(i)));
    }
}

/// Whether a position is the first at which the table has a variable.
pub open spec fn is_position_of(k: nat, v: Variable, table: Seq<Name>) -> bool {
    &&& k < table.len()
    &&& table[k as int] == v@
    &&& forall|j: int| 0 <= j < k ==> table[j] != v@
}

/// Whether a place of a quad says what a subject or an object says: the code of that very term, or
/// the position of that very variable.
pub open spec fn end_says(slot: Slot, end: TermOrVariable, table: Seq<Name>, codes: Codes) -> bool {
    match end {
        TermOrVariable::Term(term) => {
            slot matches Slot::Constant(code) && codes(Question::Term(term), code)
        },
        TermOrVariable::Variable(v) => {
            slot matches Slot::Variable(k) && is_position_of(k, v, table)
        },
    }
}

/// Whether a place of a quad says what a predicate or the name of a graph says.
pub open spec fn middle_says(
    slot: Slot,
    middle: NamedNodeOrVariable,
    table: Seq<Name>,
    codes: Codes,
) -> bool {
    match middle {
        NamedNodeOrVariable::NamedNode(node) => {
            slot matches Slot::Constant(code) && codes(Question::NamedNode(node), code)
        },
        NamedNodeOrVariable::Variable(v) => {
            slot matches Slot::Variable(k) && is_position_of(k, v, table)
        },
    }
}

/// Whether a plan looks for the first `count` triples of a list, each in the graph `graph` and each
/// joined to the ones before it.
pub open spec fn joins_say(
    plan: Plan,
    patterns: Seq<TripleOrPathPattern>,
    count: nat,
    graph: Slot,
    table: Seq<Name>,
    codes: Codes,
) -> bool
    decreases count,
{
    if count == 0 {
        plan is Init
    } else {
        &&& plan matches Plan::QuadPatternJoin { child, subject, predicate, object, graph_name }
        &&& patterns[count - 1] matches TripleOrPathPattern::Triple(triple)
        &&& end_says(subject, triple.subject, table, codes)
        &&& middle_says(predicate, triple.predicate, table, codes)
        &&& end_says(object, triple.object, table, codes)
        &&& graph_name == graph
        &&& joins_say(*child, patterns, (count - 1) as nat, graph, table, codes)
    }
}

/// Whether the value at place `c` of a row is the one that counts for its variable: the last one.
pub open spec fn counts(variables: Seq<Variable>, row: Seq<Option<Term>>, c: int) -> bool {
    &&& 0 <= c < row.len()
    &&& c < variables.len()
    &&& row[c] is Some
    &&& forall|d: int|
        c < d < row.len() && d < variables.len() && (#[trigger] row[d]) is Some ==> variables[d]@
            != variables[c]@
}

/// Whether a tuple says what a row of bindings says: the code of each value that counts is at the
/// position of its variable, and there is nothing else.
pub open spec fn tuple_says(
    tuple: Seq<Option<EncodedTerm>>,
    variables: Seq<Variable>,
    row: Seq<Option<Term>>,
    table: Seq<Name>,
    codes: Codes,
) -> bool {
    &&& tuple.len() <= table.len()
    &&& forall|c: int| #[trigger]
        counts(variables, row, c) ==> exists|k: int|
            {
                &&& 0 <= k < tuple.len()
                &&& is_position_of(k as nat, variables[c], table)
                &&& (#[trigger] tuple[k]) matches Some(code)
                &&& codes(Question::Term(row[c]->Some_0), code)
            }
    &&& forall|k: int|
        0 <= k < tuple.len() && (#[trigger] tuple[k]) is Some ==> exists|c: int|
            {
                &&& #[trigger] counts(variables, row, c)
                &&& is_position_of(k as nat, variables[c], table)
            }
}

/// Whether tuples say what the rows of a table of bindings say, in order. They are all of one
/// width.
pub open spec fn tuples_say(
    tuples: Seq<Seq<Option<EncodedTerm>>>,
    bindings: StaticBindings,
    table: Seq<Name>,
    codes: Codes,
) -> bool {
    &&& tuples.len() == bindings.values@.len()
    &&& forall|i: int|
        0 <= i < tuples.len() ==> tuple_says(
            #[trigger] tuples[i],
            bindings.variables@,
            bindings.values@[i]@,
            table,
            codes,
        )
    &&& forall|i: int| 0 <= i < tuples.len() ==> (#[trigger] tuples[i]).len() == tuples[0].len()
}

/// Whether an expression is the literal `true`, of the datatype `xsd:boolean`.
pub open spec fn is_true_literal(expression: Expression) -> bool {
    &&& expression matches Expression::Constant(TermOrVariable::Term(Term::Literal(literal)))
    &&& literal matches Literal::Typed { value, datatype }
    &&& value@ == "true"@
    &&& datatype@ == "http://www.w3.org/2001/XMLSchema#boolean"@
}

/// Whether a formula says what an expression says.
pub open spec fn expression_says(
    formula: Formula,
    expression: Expression,
    graph: Slot,
    table: Seq<Name>,
    codes: Codes,
) -> bool
    decreases expression, 1int,
{
    match expression {
        Expression::Constant(TermOrVariable::Term(term)) => {
            formula matches Formula::Constant(code) && codes(Question::Term(term), code)
        },
        Expression::Constant(TermOrVariable::Variable(v)) => {
            formula matches Formula::Variable(k) && is_position_of(k, v, table)
        },
        Expression::Bound(v) => formula matches Formula::Bound(k) && is_position_of(k, v, table),
        Expression::Exists(pattern) => {
            formula matches Formula::Exists(plan) && plan_says(*plan, *pattern, graph, table, codes)
        },
        Expression::Or(a, b)
        | Expression::And(a, b)
        | Expression::Equal(a, b)
        | Expression::NotEqual(a, b)
        | Expression::Greater(a, b)
        | Expression::GreaterOrEq(a, b)
        | Expression::Lower(a, b)
        | Expression::LowerOrEq(a, b)
        | Expression::Add(a, b)
        | Expression::Sub(a, b)
        | Expression::Mul(a, b)
        | Expression::Div(a, b) => {
            &&& formula matches Formula::Apply(operator, parts)
            &&& binary(expression) == Some((operator, *a, *b))
            &&& parts.len() == 2
            &&& expression_says(parts[0], *a, graph, table, codes)
            &&& expression_says(parts[1], *b, graph, table, codes)
        },
        Expression::UnaryPlus(a) | Expression::UnaryMinus(a) | Expression::UnaryNot(a) => {
            &&& formula matches Formula::Apply(operator, parts)
            &&& unary(expression) == Some((operator, *a))
            &&& parts.len() == 1
            &&& expression_says(parts[0], *a, graph, table, codes)
        },
        Expression::In(a, list) => {
            &&& formula matches Formula::Apply(operator, parts)
            &&& operator is In
            &&& parts.len() == 1 + list@.len()
            &&& expression_says(parts[0], *a, graph, table, codes)
            &&& expressions_say(parts.drop_first(), list@, graph, table, codes)
        },
        Expression::NotIn(a, list) => {
            &&& formula matches Formula::Apply(negation, negated)
            &&& negation is UnaryNot
            &&& negated.len() == 1
            &&& negated[0] matches Formula::Apply(operator, parts)
            &&& operator is In
            &&& parts.len() == 1 + list@.len()
            &&& expression_says(parts[0], *a, graph, table, codes)
            &&& expressions_say(parts.drop_first(), list@, graph, table, codes)
        },
        Expression::FunctionCall(function, parameters) => {
            &&& formula matches Formula::Apply(operator, parts)
            &&& computes(operator, function)
            &&& takes(operator, parts.len(), parameters@.len())
            &&& function is Custom ==> parameters@.len() == 1
            &&& expressions_say(parts, parameters@, graph, table, codes)
        },
    }
}

/// Whether formulas say what the first expressions of a list say, each what the one at its place
/// says.
pub open spec fn expressions_say(
    formulas: Seq<Formula>,
    list: Seq<Expression>,
    graph: Slot,
    table: Seq<Name>,
    codes: Codes,
) -> bool
    decreases list, 0int,
{
    &&& formulas.len() <= list.len()
    &&& forall|i: int|
        0 <= i < formulas.len() && i < list.len() ==> expression_says(
            #[trigger] formulas[i],
            list[i],
            graph,
            table,
            codes,
        )
}

/// Whether a planned sort key says what a sort key says, in the same direction.
pub open spec fn sort_key_says(
    key: SortKey,
    comparator: OrderComparator,
    graph: Slot,
    table: Seq<Name>,
    codes: Codes,
) -> bool
    decreases comparator, 0int,
{
    match comparator {
        OrderComparator::Asc(e) => {
            key matches SortKey::Asc(formula) && expression_says(formula, e, graph, table, codes)
        },
        OrderComparator::Desc(e) => {
            key matches SortKey::Desc(formula) && expression_says(formula, e, graph, table, codes)
        },
    }
}

/// Whether planned sort keys say what sort keys say, in order.
pub open spec fn sort_keys_say(
    keys: Seq<SortKey>,
    comparators: Seq<OrderComparator>,
    graph: Slot,
    table: Seq<Name>,
    codes: Codes,
) -> bool
    decreases comparators, 0int,
{
    &&& keys.len() == comparators.len()
    &&& forall|i: int|
        0 <= i < keys.len() && i < comparators.len() ==> sort_key_says(
            #[trigger] keys[i],
            comparators[i],
            graph,
            table,
            codes,
        )
}

/// How many alternatives a pattern is made of.
pub open spec fn alternatives(pattern: GraphPattern) -> nat
    decreases pattern,
{
    match pattern {
        GraphPattern::Union(a, b) => alternatives(*a) + alternatives(*b),
        _ => 1,
    }
}

/// Whether plans say what the alternatives of a pattern say, the last of them first.
pub open spec fn alternatives_say(
    children: Seq<Plan>,
    pattern: GraphPattern,
    graph: Slot,
    table: Seq<Name>,
    codes: Codes,
) -> bool
    decreases pattern, 1int,
{
    match pattern {
        GraphPattern::Union(a, b) => {
            let second = alternatives(*b) as int;
            &&& children.len() == alternatives(pattern)
            &&& alternatives_say(children.take(second), *b, graph, table, codes)
            &&& alternatives_say(children.skip(second), *a, graph, table, codes)
        },
        _ => children.len() == 1 && plan_says(children[0], pattern, graph, table, codes),
    }
}

/// Whether a plan says what a pattern says, quads being looked for in the graph `graph`.
///
/// What is inside a projection has a table of its own, which begins with the projected variables.
pub open spec fn plan_says(
    plan: Plan,
    pattern: GraphPattern,
    graph: Slot,
    table: Seq<Name>,
    codes: Codes,
) -> bool
    decreases
            pattern,
            if pattern is Union {
                2int
            } else {
                0int
            },
{
    match pattern {
        GraphPattern::BGP(patterns) => {
            let order = join_order(patterns@, set![]);
            joins_say(plan, order, order.len(), graph, table, codes)
        },
        GraphPattern::Join(a, b) => {
            &&& plan matches Plan::Join { left, right }
            &&& plan_says(*left, *a, graph, table, codes)
            &&& plan_says(*right, *b, graph, table, codes)
        },
        GraphPattern::LeftJoin(a, b, e) => {
            &&& plan matches Plan::LeftJoin { left, right, possible_problem_vars }
            &&& plan_says(*left, *a, graph, table, codes)
            &&& if is_true_literal(e) {
                plan_says(*right, *b, graph, table, codes)
            } else {
                &&& *right matches Plan::Filter { child, expression }
                &&& plan_says(*child, *b, graph, table, codes)
                &&& expression_says(expression, e, graph, table, codes)
            }
            &&& forall|k: nat| #[trigger]
                possible_problem_vars.contains(k) <==> right.mentions(k) && !left.mentions(k)
            &&& forall|i: int, j: int|
                0 <= i < j < possible_problem_vars.len() ==> possible_problem_vars[i]
                    < possible_problem_vars[j]
        },
        GraphPattern::Filter(e, p) => {
            &&& plan matches Plan::Filter { child, expression }
            &&& plan_says(*child, *p, graph, table, codes)
            &&& expression_says(expression, e, graph, table, codes)
        },
        GraphPattern::Union(_, _) => {
            &&& plan matches Plan::Union { entry, children }
            &&& *entry is Init
            &&& alternatives_say(children, pattern, graph, table, codes)
        },
        GraphPattern::Graph(name, p) => exists|named: Slot|
            {
                &&& #[trigger] middle_says(named, name, table, codes)
                &&& plan_says(plan, *p, named, table, codes)
            },
        GraphPattern::Extend(p, v, e) => {
            &&& plan matches Plan::Extend { child, position, expression }
            &&& plan_says(*child, *p, graph, table, codes)
            &&& is_position_of(position, v, table)
            &&& expression_says(expression, e, graph, table, codes)
        },
        GraphPattern::Minus(a, b) => {
            &&& plan matches Plan::AntiJoin { left, right }
            &&& plan_says(*left, *a, graph, table, codes)
            &&& plan_says(*right, *b, graph, table, codes)
        },
        GraphPattern::Service(_, _, _) => false,
        GraphPattern::AggregateJoin(_, _) => false,
        GraphPattern::Data(bindings) => {
            plan matches Plan::StaticBindings { tuples } && tuples_say(
                tuples,
                bindings,
                table,
                codes,
            )
        },
        GraphPattern::OrderBy(p, order) => {
            &&& plan matches Plan::Sort { child, by }
            &&& sort_keys_say(by, order@, graph, table, codes)
            &&& plan_says(*child, *p, graph, table, codes)
        },
        GraphPattern::Project(p, variables) => {
            &&& plan matches Plan::Project { child, mapping }
            &&& mapping.len() == variables@.len()
            &&& forall|i: int|
                0 <= i < mapping.len() ==> is_position_of(
                    #[trigger] mapping[i],
                    variables@[i],
                    table,
                )
            &&& exists|inner: Seq<Name>|
                {
                    &&& #[trigger] begins_with(inner, names(variables@))
                    &&& plan_says(*child, *p, graph, inner, codes)
                }
        },
        GraphPattern::Distinct(p) => {
            &&& plan matches Plan::HashDeduplicate { child }
            &&& plan_says(*child, *p, graph, table, codes)
        },
        GraphPattern::Reduced(p) => plan_says(plan, *p, graph, table, codes),
        GraphPattern::Slice(p, start, length) => match length {
            Some(length) => {
                &&& plan matches Plan::Limit { child, count }
                &&& count == length
                &&& if start > 0 {
                    &&& *child matches Plan::Skip { child: whole, count: skipped }
                    &&& skipped == start
                    &&& plan_says(*whole, *p, graph, table, codes)
                } else {
                    plan_says(*child, *p, graph, table, codes)
                }
            },
            None => if start > 0 {
                &&& plan matches Plan::Skip { child: whole, count: skipped }
                &&& skipped == start
                &&& plan_says(*whole, *p, graph, table, codes)
            } else {
                plan_says(plan, *p, graph, table, codes)
            },
        },
    }
}

/// Whether a table and a list of questions are what planning may come to from here.
#[verifier::opaque]
pub open spec fn comes_to(at: Progress, table: Seq<Name>, asked: Seq<Question>) -> bool {
    begins_with(table, at.variables) && begins_with(asked, at.asked)
}

/// What a later progress may come to, an earlier one may come to.
broadcast proof fn lemma_comes_on(
    earlier: Progress,
    later: Progress,
    table: Seq<Name>,
    asked: Seq<Question>,
)
    requires
        #[trigger] grows(earlier, later),
        #[trigger] comes_to(later, table, asked),
    ensures
        comes_to(earlier, table, asked),
{
    reveal(comes_to);
    reveal(grows);
    assert forall|i: int| 0 <= i < earlier.variables.len() implies earlier.variables[i]
        == #[trigger] table[i] by {
        assert(later.variables[i] == table[i]);
    }
    assert forall|i: int| 0 <= i < earlier.asked.len() implies earlier.asked[i]
        == #[trigger] asked[i] by {
        assert(later.asked[i] == asked[i]);
    }
}

/// A position stays one when the table grows.
proof fn lemma_position_stays(k: nat, v: Variable, earlier: Seq<Name>, later: Seq<Name>)
    requires
        is_position_of(k, v, earlier),
        begins_with(later, earlier),
    ensures
        is_position_of(k, v, later),
{
    assert(earlier[k as int] == later[k as int]);
    assert forall|j: int| 0 <= j < k implies later[j] != v@ by {
        assert(earlier[j] == later[j]);
    }
}

/// The key of a variable is its position.
proof fn lemma_key_is_position(at: Progress, v: Variable, table: Seq<Name>, asked: Seq<Question>)
    requires
        comes_to(at.met(v), table, asked),
    ensures
        is_position_of(at.key(v), v, table),
{
    reveal(comes_to);
    lemma_entering_twice(at.variables, v@);
    lemma_key_is_first_place(at.met(v).variables, v@);
    lemma_position_stays(at.key(v), v, at.met(v).variables, table);
}

/// The code that the store answers with is one that it has given for the question.
proof fn lemma_code_is_given<E>(
    question: Question,
    answers: Answers<E>,
    at: Progress,
    table: Seq<Name>,
    asked: Seq<Question>,
)
    requires
        comes_to(ask(question, answers, at).1, table, asked),
    ensures
        match ask(question, answers, at).0 {
            Outcome::Done(code) => codes_given(asked, answers)(question, code),
            _ => true,
        },
{
    reveal(comes_to);
    let n = at.asked.len() as int;
    assert(at.asking(question).asked[n] == question);
    assert(asked[n] == question);
}

proof fn lemma_end_says<E>(
    end: TermOrVariable,
    answers: Answers<E>,
    at: Progress,
    table: Seq<Name>,
    asked: Seq<Question>,
)
    requires
        comes_to(end_run(end, answers, at).1, table, asked),
    ensures
        match end_run(end, answers, at).0 {
            Outcome::Done(slot) => end_says(slot, end, table, codes_given(asked, answers)),
            _ => true,
        },
{
    match end {
        TermOrVariable::Term(term) => {
            lemma_code_is_given(Question::Term(term), answers, at, table, asked);
        },
        TermOrVariable::Variable(v) => {
            lemma_key_is_position(at, v, table, asked);
        },
    }
}

proof fn lemma_middle_says<E>(
    middle: NamedNodeOrVariable,
    answers: Answers<E>,
    at: Progress,
    table: Seq<Name>,
    asked: Seq<Question>,
)
    requires
        comes_to(middle_run(middle, answers, at).1, table, asked),
    ensures
        match middle_run(middle, answers, at).0 {
            Outcome::Done(slot) => middle_says(slot, middle, table, codes_given(asked, answers)),
            _ => true,
        },
{
    match middle {
        NamedNodeOrVariable::NamedNode(node) => {
            lemma_code_is_given(Question::NamedNode(node), answers, at, table, asked);
        },
        NamedNodeOrVariable::Variable(v) => {
            lemma_key_is_position(at, v, table, asked);
        },
    }
}

proof fn lemma_joins_say<E>(
    patterns: Seq<TripleOrPathPattern>,
    i: int,
    so_far: Plan,
    graph: Slot,
    answers: Answers<E>,
    at: Progress,
    table: Seq<Name>,
    asked: Seq<Question>,
)
    requires
        0 <= i <= patterns.len(),
        joins_say(so_far, patterns, i as nat, graph, table, codes_given(asked, answers)),
        comes_to(joins_run(patterns, i, so_far, graph, answers, at).1, table, asked),
    ensures
        match joins_run(patterns, i, so_far, graph, answers, at).0 {
            Outcome::Done(plan) => joins_say(
                plan,
                patterns,
                patterns.len(),
                graph,
                table,
                codes_given(asked, answers),
            ),
            _ => true,
        },
    decreases patterns.len() - i,
{
    broadcast use lemma_comes_on;

    if i < patterns.len() {
        if let TripleOrPathPattern::Triple(triple) = patterns[i] {
            let (outcome, next) = triple_run(triple, so_far, graph, answers, at);
            if let Outcome::Done(plan) = outcome {
                lemma_joins_grow(patterns, i + 1, plan, graph, answers, next);
                let (subject, at1) = end_run(triple.subject, answers, at);
                let (predicate, at2) = middle_run(triple.predicate, answers, at1);
                lemma_end_says(triple.object, answers, at2, table, asked);
                lemma_middle_says(triple.predicate, answers, at1, table, asked);
                lemma_end_says(triple.subject, answers, at, table, asked);
                let codes = codes_given(asked, answers);
                assert(joins_say(plan, patterns, (i + 1) as nat, graph, table, codes));
                lemma_joins_say(patterns, i + 1, plan, graph, answers, next, table, asked);
            }
        }
    }
}

/// A tuple says what one place more of a row says, once the value there is at its position.
proof fn lemma_place_is_filled(
    tuple: Seq<Option<EncodedTerm>>,
    variables: Seq<Variable>,
    row: Seq<Option<Term>>,
    i: int,
    key: int,
    code: EncodedTerm,
    table: Seq<Name>,
    codes: Codes,
)
    requires
        0 <= i < row.len(),
        i < variables.len(),
        row[i] is Some,
        codes(Question::Term(row[i]->Some_0), code),
        0 <= key < tuple.len(),
        is_position_of(key as nat, variables[i], table),
        tuple_says(tuple, variables, row.take(i), table, codes),
    ensures
        tuple_says(tuple.update(key, Some(code)), variables, row.take(i + 1), table, codes),
{
    let (before, after) = (row.take(i), row.take(i + 1));
    let filled = tuple.update(key, Some(code));
    assert(after[i] == row[i]);
    assert(counts(variables, after, i));
    assert forall|c: int| #[trigger] counts(variables, after, c) implies exists|k: int|
        {
            &&& 0 <= k < filled.len()
            &&& is_position_of(k as nat, variables[c], table)
            &&& (#[trigger] filled[k]) matches Some(found)
            &&& codes(Question::Term(after[c]->Some_0), found)
        } by {
        if c == i {
            assert(filled[key] == Some(code));
        } else {
            assert(after[i] is Some);
            assert(variables[i]@ != variables[c]@);
            assert(after[c] == before[c]);
            assert forall|d: int|
                c < d < before.len() && d < variables.len() && (
                #[trigger] before[d]) is Some implies variables[d]@ != variables[c]@ by {
                assert(after[d] == before[d]);
            }
            assert(counts(variables, before, c));
            let k = choose|k: int|
                {
                    &&& 0 <= k < tuple.len()
                    &&& is_position_of(k as nat, variables[c], table)
                    &&& (#[trigger] tuple[k]) matches Some(found)
                    &&& codes(Question::Term(before[c]->Some_0), found)
                };
            assert(k != key);
            assert(filled[k] == tuple[k]);
        }
    }
    assert forall|k: int| 0 <= k < filled.len() && (#[trigger] filled[k]) is Some implies exists|
        c: int,
    |
        {
            &&& #[trigger] counts(variables, after, c)
            &&& is_position_of(k as nat, variables[c], table)
        } by {
        if k != key {
            assert(tuple[k] is Some);
            let c = choose|c: int|
                {
                    &&& #[trigger] counts(variables, before, c)
                    &&& is_position_of(k as nat, variables[c], table)
                };
            assert(variables[c]@ != variables[i]@);
            assert(after[c] == before[c]);
            assert forall|d: int|
                c < d < after.len() && d < variables.len() && (
                #[trigger] after[d]) is Some implies variables[d]@ != variables[c]@ by {
                if d < i {
                    assert(after[d] == before[d]);
                }
            }
            assert(counts(variables, after, c));
        }
    }
}

/// A tuple says what one place more of a row says if there is no value.
proof fn lemma_place_is_empty(
    tuple: Seq<Option<EncodedTerm>>,
    variables: Seq<Variable>,
    row: Seq<Option<Term>>,
    i: int,
    table: Seq<Name>,
    codes: Codes,
)
    requires
        0 <= i < row.len(),
        row[i] is None,
        tuple_says(tuple, variables, row.take(i), table, codes),
    ensures
        tuple_says(tuple, variables, row.take(i + 1), table, codes),
{
    let (before, after) = (row.take(i), row.take(i + 1));
    assert(after[i] == row[i]);
    assert forall|c: int| #[trigger]
        counts(variables, after, c) <==> counts(variables, before, c) by {
        if 0 <= c < i {
            assert(after[c] == before[c]);
            if counts(variables, before, c) {
                assert forall|d: int|
                    c < d < after.len() && d < variables.len() && (
                    #[trigger] after[d]) is Some implies variables[d]@ != variables[c]@ by {
                    assert(after[d] == before[d]);
                }
            }
            if counts(variables, after, c) {
                assert forall|d: int|
                    c < d < before.len() && d < variables.len() && (
                    #[trigger] before[d]) is Some implies variables[d]@ != variables[c]@ by {
                    assert(after[d] == before[d]);
                }
            }
        }
    }
    assert forall|c: int| #[trigger] counts(variables, after, c) implies exists|k: int|
        {
            &&& 0 <= k < tuple.len()
            &&& is_position_of(k as nat, variables[c], table)
            &&& (#[trigger] tuple[k]) matches Some(found)
            &&& codes(Question::Term(after[c]->Some_0), found)
        } by {
        assert(counts(variables, before, c));
        assert(after[c] == before[c]);
    }
    assert forall|k: int| 0 <= k < tuple.len() && (#[trigger] tuple[k]) is Some implies exists|
        c: int,
    |
        {
            &&& #[trigger] counts(variables, after, c)
            &&& is_position_of(k as nat, variables[c], table)
        } by {
        let c = choose|c: int|
            {
                &&& #[trigger] counts(variables, before, c)
                &&& is_position_of(k as nat, variables[c], table)
            };
        assert(counts(variables, after, c));
    }
}

proof fn lemma_tuple_says<E>(
    variables: Seq<Variable>,
    row: Seq<Option<Term>>,
    i: int,
    tuple: Seq<Option<EncodedTerm>>,
    answers: Answers<E>,
    at: Progress,
    table: Seq<Name>,
    asked: Seq<Question>,
)
    requires
        0 <= i <= row.len(),
        tuple.len() == at.variables.len(),
        tuple_says(tuple, variables, row.take(i), table, codes_given(asked, answers)),
        comes_to(row_run(variables, row, i, tuple, answers, at).1, table, asked),
    ensures
        match row_run(variables, row, i, tuple, answers, at) {
            (Outcome::Done(made), next) => {
                &&& tuple_says(made, variables, row, table, codes_given(asked, answers))
                &&& made.len() == tuple.len()
                &&& next.variables == at.variables
            },
            _ => true,
        },
    decreases row.len() - i,
{
    broadcast use lemma_comes_on;

    let codes = codes_given(asked, answers);
    if i < row.len() {
        match row[i] {
            Some(term) => {
                let (outcome, next) = ask(Question::Term(term), answers, at);
                if outcome is Done && i < variables.len() {
                    let v = variables[i];
                    let key = next.key(v);
                    let code = outcome->Done_0;
                    if key < tuple.len() {
                        lemma_key_is_first_place(at.variables, v@);
                        assert(next.met(v) == next);
                        let filled = tuple.update(key as int, Some(code));
                        let whole = row_run(variables, row, i, tuple, answers, at);
                        assert(whole == row_run(variables, row, i + 1, filled, answers, next));
                        assert(grows(next, whole.1));
                        lemma_code_is_given(Question::Term(term), answers, at, table, asked);
                        lemma_key_is_position(next, v, table, asked);
                        lemma_place_is_filled(
                            tuple,
                            variables,
                            row,
                            i,
                            key as int,
                            code,
                            table,
                            codes,
                        );
                        lemma_tuple_says(
                            variables,
                            row,
                            i + 1,
                            filled,
                            answers,
                            next,
                            table,
                            asked,
                        );
                    }
                }
            },
            None => {
                lemma_place_is_empty(tuple, variables, row, i, table, codes);
                lemma_tuple_says(variables, row, i + 1, tuple, answers, at, table, asked);
            },
        }
    } else {
        assert(row.take(i) =~= row);
    }
}

proof fn lemma_tuples_say<E>(
    bindings: StaticBindings,
    i: int,
    tuples: Seq<Seq<Option<EncodedTerm>>>,
    answers: Answers<E>,
    at: Progress,
    table: Seq<Name>,
    asked: Seq<Question>,
)
    requires
        0 <= i <= bindings.values@.len(),
        tuples.len() == i,
        forall|j: int|
            0 <= j < i ==> tuple_says(
                #[trigger] tuples[j],
                bindings.variables@,
                bindings.values@[j]@,
                table,
                codes_given(asked, answers),
            ) && tuples[j].len() == at.variables.len(),
        comes_to(rows_run(bindings, i, tuples, answers, at).1, table, asked),
    ensures
        match rows_run(bindings, i, tuples, answers, at).0 {
            Outcome::Done(made) => tuples_say(made, bindings, table, codes_given(asked, answers)),
            _ => true,
        },
    decreases bindings.values@.len() - i,
{
    broadcast use lemma_comes_on;

    if i < bindings.values@.len() {
        let blank = blank_tuple(at.variables.len());
        let row = bindings.values@[i]@;
        let (outcome, next) = row_run(bindings.variables@, row, 0, blank, answers, at);
        if let Outcome::Done(tuple) = outcome {
            lemma_rows_grow(bindings, i + 1, tuples.push(tuple), answers, next);
            assert(comes_to(at, table, asked));
            assert(blank.len() <= table.len()) by {
                reveal(comes_to);
            }
            lemma_tuple_says(bindings.variables@, row, 0, blank, answers, at, table, asked);
            lemma_tuples_say(bindings, i + 1, tuples.push(tuple), answers, next, table, asked);
        }
    }
}

/// The operator that computes a function takes as many operands as the function has planned
/// parameters.
proof fn lemma_function_is_computed<E>(function: Function, parameters: Vec<Expression>)
    requires
        rejection::<E>(Expression::FunctionCall(function, parameters)) is None,
        ({
            let call = Expression::FunctionCall(function, parameters);
            operands(call).len() >= least_operands(call)
        }),
    ensures
        computes(function_operator(function), function),
        takes(
            function_operator(function),
            operands(Expression::FunctionCall(function, parameters)).len(),
            parameters@.len(),
        ),
        function is Custom ==> parameters@.len() == 1,
{
    if let Function::Custom(name) = function {
        let target = cast_target_of(name@)->Some_0;
        assert(cast_iri(target) == name@);
        assert(casts_to(function_operator(function), target));
    }
}

/// What an expression makes of formulas that say what its operands say, says what it says.
proof fn lemma_applied_says<E>(
    expression: Expression,
    parts: Seq<Formula>,
    graph: Slot,
    table: Seq<Name>,
    codes: Codes,
)
    requires
        is_operation(expression),
        rejection::<E>(expression) is None,
        parts.len() == operands(expression).len(),
        parts.len() >= least_operands(expression),
        forall|i: int|
            0 <= i < parts.len() ==> expression_says(
                #[trigger] parts[i],
                operands(expression)[i],
                graph,
                table,
                codes,
            ),
    ensures
        expression_says(applied(expression, parts), expression, graph, table, codes),
{
    let all = operands(expression);
    match expression {
        Expression::In(a, list) | Expression::NotIn(a, list) => {
            assert(expression_says(parts[0], all[0], graph, table, codes));
            let rest = parts.drop_first();
            assert forall|i: int| 0 <= i < rest.len() implies expression_says(
                #[trigger] rest[i],
                list@[i],
                graph,
                table,
                codes,
            ) by {
                assert(parts[i + 1] == rest[i]);
                assert(all[i + 1] == list@[i]);
            }
            assert(expressions_say(rest, list@, graph, table, codes));
        },
        Expression::FunctionCall(function, parameters) => {
            lemma_function_is_computed::<E>(function, parameters);
            assert forall|i: int| 0 <= i < parts.len() implies expression_says(
                #[trigger] parts[i],
                parameters@[i],
                graph,
                table,
                codes,
            ) by {
                assert(all[i] == parameters@[i]);
            }
            assert(expressions_say(parts, parameters@, graph, table, codes));
        },
        Expression::UnaryPlus(_) | Expression::UnaryMinus(_) | Expression::UnaryNot(_) => {
            assert(expression_says(parts[0], all[0], graph, table, codes));
        },
        _ => {
            assert(expression_says(parts[0], all[0], graph, table, codes));
            assert(expression_says(parts[1], all[1], graph, table, codes));
        },
    }
}

/// The formula that an expression comes to says what the expression says.
pub proof fn lemma_expression_says<E>(
    expression: Expression,
    graph: Slot,
    answers: Answers<E>,
    at: Progress,
    table: Seq<Name>,
    asked: Seq<Question>,
)
    requires
        comes_to(expression_run(expression, graph, answers, at).1, table, asked),
    ensures
        match expression_run(expression, graph, answers, at).0 {
            Outcome::Done(formula) => expression_says(
                formula,
                expression,
                graph,
                table,
                codes_given(asked, answers),
            ),
            _ => true,
        },
    decreases expression, operands(expression).len() + 1,
{
    broadcast use lemma_comes_on;

    match expression {
        Expression::Constant(TermOrVariable::Term(term)) => {
            lemma_code_is_given(Question::Term(term), answers, at, table, asked);
        },
        Expression::Constant(TermOrVariable::Variable(v)) => {
            lemma_key_is_position(at, v, table, asked);
        },
        Expression::Bound(v) => {
            lemma_key_is_position(at, v, table, asked);
        },
        Expression::Exists(pattern) => {
            lemma_pattern_says(*pattern, graph, answers, at, table, asked);
        },
        _ => {
            if rejection::<E>(expression) is None {
                lemma_operands_say(expression, 0, seq![], graph, answers, at, table, asked);
                let outcome = operands_run(expression, 0, seq![], graph, answers, at).0;
                if let Outcome::Done(parts) = outcome {
                    if parts.len() >= least_operands(expression) {
                        let codes = codes_given(asked, answers);
                        lemma_applied_says::<E>(expression, parts, graph, table, codes);
                    }
                }
            }
        },
    }
}

proof fn lemma_operands_say<E>(
    expression: Expression,
    i: int,
    parts: Seq<Formula>,
    graph: Slot,
    answers: Answers<E>,
    at: Progress,
    table: Seq<Name>,
    asked: Seq<Question>,
)
    requires
        0 <= i <= operands(expression).len(),
        parts.len() == i,
        forall|j: int|
            0 <= j < i ==> expression_says(
                #[trigger] parts[j],
                operands(expression)[j],
                graph,
                table,
                codes_given(asked, answers),
            ),
        comes_to(operands_run(expression, i, parts, graph, answers, at).1, table, asked),
    ensures
        match operands_run(expression, i, parts, graph, answers, at).0 {
            Outcome::Done(made) => {
                &&& made.len() == operands(expression).len()
                &&& forall|j: int|
                    0 <= j < made.len() ==> expression_says(
                        #[trigger] made[j],
                        operands(expression)[j],
                        graph,
                        table,
                        codes_given(asked, answers),
                    )
            },
            _ => true,
        },
    decreases expression, operands(expression).len() - i,
{
    broadcast use lemma_comes_on;

    if i < operands(expression).len() {
        lemma_operand_is_part(expression, i);
        let operand = operands(expression)[i];
        let (outcome, next) = expression_run(operand, graph, answers, at);
        if let Outcome::Done(part) = outcome {
            let more = parts.push(part);
            lemma_operands_grow(expression, i + 1, more, graph, answers, next);
            lemma_expression_says(operand, graph, answers, at, table, asked);
            lemma_operands_say(expression, i + 1, more, graph, answers, next, table, asked);
        }
    }
}

proof fn lemma_sort_key_says<E>(
    comparator: OrderComparator,
    graph: Slot,
    answers: Answers<E>,
    at: Progress,
    table: Seq<Name>,
    asked: Seq<Question>,
)
    requires
        comes_to(comparator_run(comparator, graph, answers, at).1, table, asked),
    ensures
        match comparator_run(comparator, graph, answers, at).0 {
            Outcome::Done(key) => sort_key_says(
                key,
                comparator,
                graph,
                table,
                codes_given(asked, answers),
            ),
            _ => true,
        },
    decreases comparator, 0int,
{
    match comparator {
        OrderComparator::Asc(e) | OrderComparator::Desc(e) => {
            lemma_expression_says(e, graph, answers, at, table, asked);
        },
    }
}

proof fn lemma_sort_keys_say<E>(
    comparators: Seq<OrderComparator>,
    i: int,
    keys: Seq<SortKey>,
    graph: Slot,
    answers: Answers<E>,
    at: Progress,
    table: Seq<Name>,
    asked: Seq<Question>,
)
    requires
        0 <= i <= comparators.len(),
        keys.len() == i,
        forall|j: int|
            0 <= j < i ==> sort_key_says(
                #[trigger] keys[j],
                comparators[j],
                graph,
                table,
                codes_given(asked, answers),
            ),
        comes_to(comparators_run(comparators, i, keys, graph, answers, at).1, table, asked),
    ensures
        match comparators_run(comparators, i, keys, graph, answers, at).0 {
            Outcome::Done(made) => sort_keys_say(
                made,
                comparators,
                graph,
                table,
                codes_given(asked, answers),
            ),
            _ => true,
        },
    decreases comparators, comparators.len() - i,
{
    broadcast use lemma_comes_on;

    if i < comparators.len() {
        let (outcome, next) = comparator_run(comparators[i], graph, answers, at);
        if let Outcome::Done(key) = outcome {
            let more = keys.push(key);
            lemma_comparators_grow(comparators, i + 1, more, graph, answers, next);
            lemma_sort_key_says(comparators[i], graph, answers, at, table, asked);
            lemma_sort_keys_say(comparators, i + 1, more, graph, answers, next, table, asked);
        }
    }
}

proof fn lemma_branches_say<E>(
    pattern: GraphPattern,
    i: int,
    children: Seq<Plan>,
    graph: Slot,
    answers: Answers<E>,
    at: Progress,
    table: Seq<Name>,
    asked: Seq<Question>,
)
    requires
        pattern is Union,
        0 <= i <= branches(pattern).len(),
        children.len() == i,
        forall|j: int|
            0 <= j < i ==> plan_says(
                #[trigger] children[j],
                branches(pattern)[j],
                graph,
                table,
                codes_given(asked, answers),
            ),
        comes_to(branches_run(pattern, i, children, graph, answers, at).1, table, asked),
    ensures
        match branches_run(pattern, i, children, graph, answers, at).0 {
            Outcome::Done(made) => {
                &&& made.len() == branches(pattern).len()
                &&& forall|j: int|
                    0 <= j < made.len() ==> plan_says(
                        #[trigger] made[j],
                        branches(pattern)[j],
                        graph,
                        table,
                        codes_given(asked, answers),
                    )
            },
            _ => true,
        },
    decreases pattern, branches(pattern).len() - i,
{
    broadcast use lemma_comes_on;

    if i < branches(pattern).len() {
        lemma_branch_is_part(pattern, i);
        let branch = branches(pattern)[i];
        let (outcome, next) = pattern_run(branch, Plan::Init, graph, answers, at);
        if let Outcome::Done(plan) = outcome {
            let more = children.push(plan);
            lemma_branches_grow(pattern, i + 1, more, graph, answers, next);
            lemma_pattern_says(branch, graph, answers, at, table, asked);
            lemma_branches_say(pattern, i + 1, more, graph, answers, next, table, asked);
        }
    }
}

/// Plans that say what the branches of a pattern say are its alternatives.
proof fn lemma_branches_are_alternatives(
    children: Seq<Plan>,
    pattern: GraphPattern,
    graph: Slot,
    table: Seq<Name>,
    codes: Codes,
)
    requires
        children.len() == branches(pattern).len(),
        forall|i: int|
            0 <= i < children.len() ==> plan_says(
                #[trigger] children[i],
                branches(pattern)[i],
                graph,
                table,
                codes,
            ),
    ensures
        alternatives_say(children, pattern, graph, table, codes),
        alternatives(pattern) == branches(pattern).len(),
    decreases pattern,
{
    if let GraphPattern::Union(a, b) = pattern {
        lemma_count_alternatives(*a);
        lemma_count_alternatives(*b);
        let second = alternatives(*b) as int;
        let (front, back) = (children.take(second), children.skip(second));
        assert forall|i: int| 0 <= i < front.len() implies plan_says(
            #[trigger] front[i],
            branches(*b)[i],
            graph,
            table,
            codes,
        ) by {
            assert(front[i] == children[i]);
            assert(branches(pattern)[i] == branches(*b)[i]);
        }
        assert forall|i: int| 0 <= i < back.len() implies plan_says(
            #[trigger] back[i],
            branches(*a)[i],
            graph,
            table,
            codes,
        ) by {
            assert(back[i] == children[second + i]);
            assert(branches(pattern)[second + i] == branches(*a)[i]);
        }
        lemma_branches_are_alternatives(front, *b, graph, table, codes);
        lemma_branches_are_alternatives(back, *a, graph, table, codes);
    } else {
        assert(plan_says(children[0], branches(pattern)[0], graph, table, codes));
    }
}

/// A pattern has as many branches as alternatives.
proof fn lemma_count_alternatives(pattern: GraphPattern)
    ensures
        alternatives(pattern) == branches(pattern).len(),
    decreases pattern,
{
    if let GraphPattern::Union(a, b) = pattern {
        lemma_count_alternatives(*a);
        lemma_count_alternatives(*b);
    }
}

proof fn lemma_projection_says<E>(
    pattern: GraphPattern,
    graph: Slot,
    answers: Answers<E>,
    at: Progress,
    table: Seq<Name>,
    asked: Seq<Question>,
)
    requires
        pattern is Project,
        comes_to(pattern_run(pattern, Plan::Init, graph, answers, at).1, table, asked),
    ensures
        match pattern_run(pattern, Plan::Init, graph, answers, at).0 {
            Outcome::Done(plan) => plan_says(
                plan,
                pattern,
                graph,
                table,
                codes_given(asked, answers),
            ),
            _ => true,
        },
    decreases pattern, branches(pattern).len(),
{
    if let GraphPattern::Project(p, variables) = pattern {
        let inside = at.with_variables(names(variables@));
        let (child, end) = pattern_run(*p, Plan::Init, graph, answers, inside);
        if let Outcome::Done(plan) = child {
            let back = end.with_variables(at.variables);
            let (mapping, next) = keys_run(variables@, 0, seq![], back);
            let inner = end.variables;
            lemma_keys_are_positions(variables@, 0, seq![], back);
            assert forall|i: int| 0 <= i < mapping.len() implies is_position_of(
                #[trigger] mapping[i],
                variables@[i],
                table,
            ) by {
                reveal(comes_to);
                lemma_position_stays(mapping[i], variables@[i], next.variables, table);
            }
            assert(comes_to(end, inner, asked)) by {
                reveal(comes_to);
            }
            lemma_pattern_says(*p, graph, answers, inside, inner, asked);
            assert(grows(inside, end));
            assert(begins_with(inner, names(variables@))) by {
                reveal(grows);
            }
            assert(plan_says(plan, *p, graph, inner, codes_given(asked, answers)));
        }
    }
}

/// The plan that a pattern comes to says what the pattern says.
pub proof fn lemma_pattern_says<E>(
    pattern: GraphPattern,
    graph: Slot,
    answers: Answers<E>,
    at: Progress,
    table: Seq<Name>,
    asked: Seq<Question>,
)
    requires
        comes_to(pattern_run(pattern, Plan::Init, graph, answers, at).1, table, asked),
    ensures
        match pattern_run(pattern, Plan::Init, graph, answers, at).0 {
            Outcome::Done(plan) => plan_says(
                plan,
                pattern,
                graph,
                table,
                codes_given(asked, answers),
            ),
            _ => true,
        },
    decreases pattern, branches(pattern).len() + 1,
{
    broadcast use lemma_comes_on;

    let input = Plan::Init;
    match pattern {
        GraphPattern::BGP(patterns) => {
            let order = join_order(patterns@, set![]);
            lemma_joins_say(order, 0, input, graph, answers, at, table, asked);
        },
        GraphPattern::Join(a, b) | GraphPattern::Minus(a, b) => {
            let (left, at1) = pattern_run(*a, input, graph, answers, at);
            if left is Done {
                lemma_pattern_grows(*b, input, graph, answers, at1);
                lemma_pattern_says(*b, graph, answers, at1, table, asked);
                lemma_pattern_says(*a, graph, answers, at, table, asked);
            }
        },
        GraphPattern::LeftJoin(a, b, e) => {
            let (left, at1) = pattern_run(*a, input, graph, answers, at);
            let (right, at2) = pattern_run(*b, input, graph, answers, at1);
            if left is Done && right is Done {
                lemma_problem_variables(pattern, input, graph, answers, at);
                lemma_expression_grows(e, graph, answers, at2);
                if !e.is_literal_true() {
                    lemma_expression_says(e, graph, answers, at2, table, asked);
                }
                lemma_pattern_says(*b, graph, answers, at1, table, asked);
                lemma_pattern_says(*a, graph, answers, at, table, asked);
            }
        },
        GraphPattern::Filter(e, p) => {
            let (child, at1) = pattern_run(*p, input, graph, answers, at);
            if child is Done {
                lemma_expression_grows(e, graph, answers, at1);
                lemma_expression_says(e, graph, answers, at1, table, asked);
                lemma_pattern_says(*p, graph, answers, at, table, asked);
            }
        },
        GraphPattern::Union(_, _) => {
            lemma_branches_say(pattern, 0, seq![], graph, answers, at, table, asked);
            let outcome = branches_run(pattern, 0, seq![], graph, answers, at).0;
            if let Outcome::Done(children) = outcome {
                let codes = codes_given(asked, answers);
                lemma_branches_are_alternatives(children, pattern, graph, table, codes);
            }
        },
        GraphPattern::Graph(name, p) => {
            let (outcome, at1) = middle_run(name, answers, at);
            if let Outcome::Done(named) = outcome {
                lemma_pattern_grows(*p, input, named, answers, at1);
                lemma_middle_says(name, answers, at, table, asked);
                lemma_pattern_says(*p, named, answers, at1, table, asked);
            }
        },
        GraphPattern::Extend(p, v, e) => {
            let (child, at1) = pattern_run(*p, input, graph, answers, at);
            if child is Done {
                assert(grows(at1, at1.met(v)));
                lemma_expression_grows(e, graph, answers, at1.met(v));
                lemma_expression_says(e, graph, answers, at1.met(v), table, asked);
                lemma_key_is_position(at1, v, table, asked);
                lemma_pattern_says(*p, graph, answers, at, table, asked);
            }
        },
        GraphPattern::Service(_, _, _) => {},
        GraphPattern::AggregateJoin(_, _) => {},
        GraphPattern::Data(bindings) => {
            lemma_tuples_say(bindings, 0, seq![], answers, at, table, asked);
        },
        GraphPattern::OrderBy(p, order) => {
            let (sorting, at1) = comparators_run(order@, 0, seq![], graph, answers, at);
            if sorting is Done {
                lemma_pattern_grows(*p, input, graph, answers, at1);
                lemma_pattern_says(*p, graph, answers, at1, table, asked);
                lemma_sort_keys_say(order@, 0, seq![], graph, answers, at, table, asked);
            }
        },
        GraphPattern::Project(_, _) => {
            lemma_projection_says(pattern, graph, answers, at, table, asked);
        },
        GraphPattern::Distinct(p) | GraphPattern::Reduced(p) | GraphPattern::Slice(p, _, _) => {
            lemma_pattern_says(*p, graph, answers, at, table, asked);
        },
    }
}

/// A plan that is built says what its query says: over the default graph, with the variables that
/// come with the plan at the positions of its tuples, and with the codes that the store gave for
/// the constants of the query.
pub proof fn lemma_built_says<'p, S: StoreConnection>(
    store: S,
    pattern: GraphPattern,
    answers: Answers<S::Error>,
    plan: PlanNode,
    variables: Vec<Variable>,
)
    requires
        built(store, pattern, answers, Ok::<_, Error<'p, S::Error>>((plan, variables))),
    ensures
        plan_says(
            plan.model(),
            pattern,
            Slot::Constant(EncodedTerm::DefaultGraph),
            names(variables@),
            codes_given(pattern_questions(pattern), answers),
        ),
        are_codes_of(codes_given(pattern_questions(pattern), answers), store),
{
    let graph = Slot::Constant(EncodedTerm::DefaultGraph);
    let table = names(variables@);
    let asked = pattern_questions(pattern);
    lemma_query_ends(pattern, answers);
    reveal(comes_to);
    lemma_pattern_says(pattern, graph, answers, outset(seq![]), table, asked);
    lemma_codes_are_given(store, asked, answers);
}

} // verus!
