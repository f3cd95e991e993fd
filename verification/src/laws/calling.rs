//! What the functions of the library return, whatever they do to get there.
use crate::algebra::{Expression, Function, GraphPattern, TripleOrPathPattern, TriplePattern};
use crate::builder::{built, not_built, template_built, PlanBuilder};
use crate::error::Error;
use crate::expression::{assemble, function_operator, operand, operand_minimum, reject};
use crate::laws::asking::{pattern_questions, template_questions};
use crate::laws::constructing::{lemma_template_built_says, template_triple_says};
use crate::laws::expressions::{
    binary, bounds, cast_iri, casts_to, computes, lemma_cast_iris_differ, unary,
};
use crate::laws::failing::{lemma_build_ends, lemma_template_ends, pattern_rejects, rejects_nothing};
use crate::laws::faithful::{
    are_codes_of, codes_given, is_true_literal, lemma_built_says, plan_says,
};
use crate::laws::fragment::{lemma_plain_is_plannable, pattern_is_plain};
use crate::laws::growth::begins_with;
use crate::laws::joining::{
    assigned_by, end_is_known, lemma_bind_count, lemma_join_order_is_greedy,
    lemma_join_order_is_permutation, middle_is_known, one_if,
};
use crate::laws::models::each_model;
use crate::laws::results::lemma_built_in_scope;
use crate::model::{names, Name, NamedNode, Variable};
use crate::ordering::{assigned_names, bind_count, count_pattern_binds, sort_bgp, targets};
use crate::plan::{
    expression_models, Formula, Operator, PatternValue, PlanExpression, PlanNode, Slot,
    TripleTemplate,
};
use crate::semantics::{outset, query_run, template_run};
use crate::store::{all_codes, may_answer, Answers, EncodedTerm, Question, StoreConnection};
use crate::xsd::{cast_target, cast_target_of, is_iri, CastTarget};
use vstd::prelude::*;

verus! {

/// Whether a store may fail with this error when it is asked for one of these constants.
pub open spec fn may_fail<S: StoreConnection>(
    store: S,
    constants: Seq<Question>,
    error: S::Error,
) -> bool {
    exists|i: int|
        {
            &&& 0 <= i < constants.len()
            &&& match #[trigger] constants[i] {
                Question::Term(term) => call_ensures(
                    S::encode_term,
                    (&store, &term),
                    Err::<EncodedTerm, S::Error>(error),
                ),
                Question::NamedNode(node) => call_ensures(
                    S::encode_named_node,
                    (&store, &node),
                    Err::<EncodedTerm, S::Error>(error),
                ),
            }
        }
}

/// Whether this is what a query may come to: a plan that says what the query says, with a
/// variable of its own for each position, or an error that the store or a call in the query gives
/// reason for.
pub open spec fn is_result<'p, S: StoreConnection>(
    store: S,
    pattern: GraphPattern,
    answers: Answers<S::Error>,
    result: Result<(PlanNode, Vec<Variable>), Error<'p, S::Error>>,
) -> bool {
    let constants = pattern_questions(pattern);
    &&& result is Ok <==> rejects_nothing::<S::Error>(pattern) && all_codes(
        answers,
        0,
        constants.len(),
    )
    &&& match result {
        Ok((plan, variables)) => {
            let codes = codes_given(constants, answers);
            let graph = Slot::Constant(EncodedTerm::DefaultGraph);
            &&& plan_says(plan.model(), pattern, graph, names(variables@), codes)
            &&& are_codes_of(codes, store)
            &&& names(variables@).no_duplicates()
        },
        Err(Error::Store(error)) => may_fail(store, constants, error),
        Err(error) => pattern_rejects(pattern, error.model()),
    }
}

proof fn lemma_built_is_result<'p, S: StoreConnection>(
    store: S,
    pattern: GraphPattern,
    answers: Answers<S::Error>,
    result: Result<(PlanNode, Vec<Variable>), Error<'p, S::Error>>,
)
    requires
        built(store, pattern, answers, result),
    ensures
        is_result(store, pattern, answers, result),
{
    let constants = pattern_questions(pattern);
    lemma_build_ends(store, pattern, answers, result);
    match result {
        Ok((plan, variables)) => {
            lemma_built_says(store, pattern, answers, plan, variables);
            lemma_built_in_scope(store, pattern, answers, plan, variables);
        },
        Err(Error::Store(error)) => {
            let asked = query_run(pattern, answers).1.asked;
            let i = choose|i: int|
                {
                    &&& 0 <= i < asked.len()
                    &&& #[trigger] answers(i) == Err::<EncodedTerm, S::Error>(error)
                    &&& may_answer(store, asked[i], answers(i))
                    &&& constants.contains(asked[i])
                };
            let j = choose|j: int| 0 <= j < constants.len() && constants[j] == asked[i];
            assert(constants[j] == asked[i]);
        },
        Err(_) => {},
    }
}

/// What building a query returns is what the query may come to.
pub proof fn lemma_build_returns<'a, 'p, S: StoreConnection>(
    store: &'a S,
    pattern: &'p GraphPattern,
    result: Result<(PlanNode, Vec<Variable>), Error<'p, S::Error>>,
) -> (answers: Answers<S::Error>)
    requires
        call_ensures(PlanBuilder::<'a, S>::build, (store, pattern), result),
    ensures
        is_result(*store, *pattern, answers, result),
{
    let answers = choose|answers: Answers<S::Error>| #[trigger]
        built(*store, *pattern, answers, result);
    lemma_built_is_result(*store, *pattern, answers, result);
    answers
}

/// Trying to build a query returns what the query may come to, and it returns that if the query has
/// no property path, no service, no aggregation, no call with too few parameters and no value for a
/// variable that is not known.
pub proof fn lemma_try_build_returns<'a, 'p, S: StoreConnection>(
    store: &'a S,
    pattern: &'p GraphPattern,
    result: Option<Result<(PlanNode, Vec<Variable>), Error<'p, S::Error>>>,
) -> (answers: Answers<S::Error>)
    requires
        call_ensures(PlanBuilder::<'a, S>::try_build, (store, pattern), result),
    ensures
        result matches Some(result) ==> is_result(*store, *pattern, answers, result),
        pattern_is_plain(*pattern, set![]) ==> result is Some,
{
    if pattern_is_plain(*pattern, set![]) {
        lemma_plain_is_plannable(*store, *pattern);
    }
    match result {
        Some(result) => {
            let answers = choose|answers: Answers<S::Error>| #[trigger]
                built(*store, *pattern, answers, result);
            lemma_built_is_result(*store, *pattern, answers, result);
            answers
        },
        None => choose|answers: Answers<S::Error>| #[trigger]
            not_built(*store, *pattern, answers),
    }
}

/// Planning a template returns triples that say what those of the template say, or an error that
/// the store gives for one of its constants. The numbering begins with the variables that are
/// given.
pub proof fn lemma_build_graph_template_returns<'a, 'p, S: StoreConnection>(
    store: &'a S,
    template: &'p [TriplePattern],
    variables: Vec<Variable>,
    result: Result<Vec<TripleTemplate>, Error<'p, S::Error>>,
) -> (numbering: (Answers<S::Error>, Seq<Name>, Seq<Name>))
    requires
        call_ensures(
            PlanBuilder::<'a, S>::build_graph_template,
            (store, template, variables),
            result,
        ),
    ensures
        ({
            let (answers, table, blanks) = numbering;
            let constants = template_questions(template@, 0);
            let codes = codes_given(constants, answers);
            &&& result is Ok <==> all_codes(answers, 0, constants.len())
            &&& match result {
                Ok(triples) => {
                    &&& triples@.len() == template@.len()
                    &&& begins_with(table, names(variables@))
                    &&& forall|i: int|
                        0 <= i < triples@.len() ==> template_triple_says(
                            (#[trigger] triples@[i]).model(),
                            template@[i],
                            table,
                            blanks,
                            codes,
                        )
                    &&& are_codes_of(codes, *store)
                },
                Err(error) => error is Store && may_fail(*store, constants, error->Store_0),
            }
        }),
{
    let given = names(variables@);
    let answers = choose|answers: Answers<S::Error>| #[trigger]
        template_built(*store, template@, given, answers, result);
    let constants = template_questions(template@, 0);
    lemma_template_ends(*store, template@, given, answers, result);
    match result {
        Ok(triples) => {
            let (table, blanks) = lemma_template_built_says(
                *store,
                template@,
                given,
                answers,
                triples,
            );
            (answers, table, blanks)
        },
        Err(error) => {
            let at = outset(given);
            let asked = template_run(
                template@,
                0,
                seq![],
                answers,
                at,
                seq![],
            ).1.asked;
            let i = choose|i: int|
                {
                    &&& 0 <= i < asked.len()
                    &&& #[trigger] answers(i) == Err::<EncodedTerm, S::Error>(error->Store_0)
                    &&& may_answer(*store, asked[i], answers(i))
                    &&& constants.contains(asked[i])
                };
            let j = choose|j: int| 0 <= j < constants.len() && constants[j] == asked[i];
            assert(constants[j] == asked[i]);
            (answers, seq![], seq![])
        },
    }
}

/// The IRI of a datatype is that of XML Schema and the name of the datatype.
pub proof fn lemma_cast_iri(target: CastTarget)
    ensures
        cast_iri(target) == "http://www.w3.org/2001/XMLSchema#"@ + target.local_name(),
{
    reveal_strlit("http://www.w3.org/2001/XMLSchema#");
    reveal_strlit("http://www.w3.org/2001/XMLSchema#boolean");
    reveal_strlit("http://www.w3.org/2001/XMLSchema#double");
    reveal_strlit("http://www.w3.org/2001/XMLSchema#float");
    reveal_strlit("http://www.w3.org/2001/XMLSchema#decimal");
    reveal_strlit("http://www.w3.org/2001/XMLSchema#integer");
    reveal_strlit("http://www.w3.org/2001/XMLSchema#date");
    reveal_strlit("http://www.w3.org/2001/XMLSchema#time");
    reveal_strlit("http://www.w3.org/2001/XMLSchema#dateTime");
    reveal_strlit("http://www.w3.org/2001/XMLSchema#string");
    reveal_strlit("boolean");
    reveal_strlit("double");
    reveal_strlit("float");
    reveal_strlit("decimal");
    reveal_strlit("integer");
    reveal_strlit("date");
    reveal_strlit("time");
    reveal_strlit("dateTime");
    reveal_strlit("string");
    assert(cast_iri(target) =~= "http://www.w3.org/2001/XMLSchema#"@ + target.local_name());
}

/// An error of the store has no message of the planner. That of a cast names the datatype as its
/// IRI does after the hash, and that of a function that is not known says how the query calls it.
pub proof fn lemma_message<'p, E>(
    error: Error<'p, E>,
    written: &str,
    message: Option<String>,
    name: Seq<char>,
)
    requires
        call_ensures(Error::<'p, E>::message, (&error, written), message),
    ensures
        match error {
            Error::Store(_) => message is None,
            Error::CastArity(target) => {
                cast_iri(target) == "http://www.w3.org/2001/XMLSchema#"@ + name ==> {
                    &&& message matches Some(text)
                    &&& text@ == "The xsd:"@ + name + " casting takes only one parameter"@
                }
            },
            Error::UnsupportedFunction(_) => {
                &&& message matches Some(text)
                &&& text@ == "Not supported custom function "@ + written@
            },
        },
{
    if let Error::CastArity(target) = error {
        lemma_cast_iri(target);
        let start = "http://www.w3.org/2001/XMLSchema#"@;
        if cast_iri(target) == start + name {
            assert((start + name).skip(start.len() as int) =~= name);
            assert((start + target.local_name()).skip(start.len() as int)
                =~= target.local_name());
        }
    }
}

/// A datatype is found by its IRI, and by no other.
pub proof fn lemma_cast_target(name: NamedNode, found: Option<CastTarget>, target: CastTarget)
    requires
        call_ensures(cast_target, (&name,), found),
    ensures
        found == Some(target) <==> name@ == cast_iri(target),
{
    if let Some(other) = found {
        if name@ == cast_iri(target) {
            lemma_cast_iris_differ(other, target);
        }
    }
}

/// An IRI is another one if it is written like it, a variable has a name if it is named, and a
/// condition is true if it is the literal `true`.
pub proof fn lemma_tests(
    node: NamedNode,
    iri: &str,
    same: bool,
    v: Variable,
    named: bool,
    condition: Expression,
    holds: bool,
)
    requires
        call_ensures(is_iri, (&node, iri), same),
        call_ensures(Variable::has_name, (&v,), named),
        call_ensures(Expression::is_true, (&condition,), holds),
    ensures
        same <==> node.iri@ == iri@,
        named <==> v is Named,
        holds <==> is_true_literal(condition),
{
}

/// A node, an expression or a place of a quad mentions a position if its model does.
pub proof fn lemma_positions(
    node: PlanNode,
    expression: PlanExpression,
    place: PatternValue,
    position: usize,
    in_node: bool,
    in_expression: bool,
    in_place: bool,
)
    requires
        call_ensures(PlanNode::mentions, (&node, position), in_node),
        call_ensures(PlanExpression::mentions, (&expression, position), in_expression),
        call_ensures(PatternValue::is_at, (&place, position), in_place),
    ensures
        in_node <==> node.model().mentions(position as nat),
        in_expression <==> expression.model().mentions(position as nat),
        in_place <==> place == PatternValue::Variable(position),
{
}

/// Counting says how many places of a pattern are constants or assigned variables.
pub proof fn lemma_count_pattern_binds(
    pattern: TripleOrPathPattern,
    assigned_variables: Vec<&Variable>,
    count: u8,
)
    requires
        call_ensures(count_pattern_binds, (&pattern, &assigned_variables), count),
    ensures
        ({
            let assigned = Set::new(
                |name: Name|
                    exists|i: int|
                        0 <= i < assigned_variables@.len() && assigned_variables@[i]@ == name,
            );
            count == match pattern {
                TripleOrPathPattern::Triple(t) => one_if(end_is_known(t.subject, assigned))
                    + one_if(middle_is_known(t.predicate, assigned)) + one_if(
                    end_is_known(t.object, assigned),
                ),
                TripleOrPathPattern::Path(p) => one_if(end_is_known(p.subject, assigned)) + one_if(
                    end_is_known(p.object, assigned),
                ),
            }
        }),
{
    let assigned = Set::new(
        |name: Name|
            exists|i: int| 0 <= i < assigned_variables@.len() && assigned_variables@[i]@ == name,
    );
    assert(assigned =~= assigned_names(assigned_variables@));
    lemma_bind_count(pattern, assigned);
}

/// Sorting keeps every pattern, as often as it is there. Each has the highest count of those that
/// come after it, the variables of the patterns before it being assigned.
pub proof fn lemma_sort_bgp(
    p: &[TripleOrPathPattern],
    sorted: Vec<&TripleOrPathPattern>,
    i: int,
    j: int,
)
    requires
        call_ensures(sort_bgp, (p,), sorted),
    ensures
        ({
            let order = Seq::new(sorted@.len(), |i: int| *sorted@[i]);
            let before = assigned_by(order, i as nat, set![]);
            &&& order.to_multiset() == p@.to_multiset()
            &&& 0 <= i <= j < order.len() ==> bind_count(order[i], before) >= bind_count(
                order[j],
                before,
            )
        }),
{
    let order = Seq::new(sorted@.len(), |i: int| *sorted@[i]);
    assert(order =~= targets(sorted@));
    lemma_join_order_is_permutation(p@, set![]);
    if 0 <= i <= j < order.len() {
        lemma_join_order_is_greedy(p@, set![], i, j);
    }
}

/// An operation is assembled as its own operator over the operands that it is given: for an
/// operator of one operand or of two that operator, for a search in a list the search, negated if
/// it is not to succeed, for a function the operator that computes it.
pub proof fn lemma_assemble(
    expression: Expression,
    parts: Vec<PlanExpression>,
    planned: PlanExpression,
)
    requires
        call_ensures(assemble, (&expression, parts), planned),
        match expression {
            Expression::FunctionCall(Function::Custom(name), _) => exists|
                target: CastTarget,
            |
                name@ == #[trigger] cast_iri(target),
            _ => true,
        },
    ensures
        ({
            let formulas = each_model(parts@);
            match expression {
                Expression::Constant(_) | Expression::Bound(_) | Expression::Exists(_) => true,
                Expression::In(_, _) => planned.model() == Formula::Apply(Operator::In, formulas),
                Expression::NotIn(_, _) => {
                    &&& planned.model() matches Formula::Apply(operator, negated)
                    &&& operator is UnaryNot
                    &&& negated.len() == 1
                    &&& negated[0] == Formula::Apply(Operator::In, formulas)
                },
                Expression::FunctionCall(function, _) => {
                    &&& planned.model() matches Formula::Apply(operator, given)
                    &&& computes(operator, function)
                    &&& given == formulas
                },
                Expression::UnaryPlus(a) | Expression::UnaryMinus(a) | Expression::UnaryNot(a) => {
                    &&& planned.model() matches Formula::Apply(operator, given)
                    &&& unary(expression) == Some((operator, *a))
                    &&& given == formulas
                },
                _ => {
                    &&& planned.model() matches Formula::Apply(operator, given)
                    &&& binary(expression) matches Some((own, _, _))
                    &&& operator == own
                    &&& given == formulas
                },
            }
        }),
{
    assert(expression_models(parts@) =~= each_model(parts@));
    if let Expression::FunctionCall(function, _) = expression {
        if let Function::Custom(name) = function {
            let target = choose|target: CastTarget| name@ == #[trigger] cast_iri(target);
            let found = cast_target_of(name@);
            assert(found is Some && cast_iri(found->Some_0) == name@);
            assert(casts_to(function_operator(function), found->Some_0));
        }
    }
}

/// A call is rejected if it is of an IRI that is none of a datatype, or of one that is with more or
/// fewer parameters than one, and the error says which. Nothing else is rejected.
pub proof fn lemma_reject<'p, E>(
    expression: &'p Expression,
    error: Option<Error<'p, E>>,
    target: CastTarget,
)
    requires
        call_ensures(reject::<E>, (expression,), error),
    ensures
        match *expression {
            Expression::FunctionCall(Function::Custom(name), parameters) => {
                &&& name@ == cast_iri(target) && parameters@.len() == 1 ==> error is None
                &&& name@ == cast_iri(target) && parameters@.len() != 1 ==> (error matches Some(
                    Error::CastArity(found),
                ) && found == target)
                &&& (forall|other: CastTarget| name@ != #[trigger] cast_iri(other)) ==> (
                error matches Some(Error::UnsupportedFunction(call)) && *call == *expression)
            },
            _ => error is None,
        },
{
    if let Expression::FunctionCall(Function::Custom(name), _) = *expression {
        if let Some(found) = cast_target_of(name@) {
            assert(cast_iri(found) == name@);
            if name@ == cast_iri(target) {
                lemma_cast_iris_differ(found, target);
            }
        }
    }
}

/// The operands of an expression are what it is made of, from left to right. Of the parameters of a
/// function they are the first ones, as many as the operator that computes it takes.
pub proof fn lemma_operand<'p>(
    expression: &'p Expression,
    i: usize,
    part: Option<&'p Expression>,
    operator: Operator,
)
    requires
        call_ensures(operand, (expression, i), part),
    ensures
        match *expression {
            Expression::Constant(_) | Expression::Bound(_) | Expression::Exists(_) => part is None,
            Expression::In(a, list) | Expression::NotIn(a, list) => if i == 0 {
                part matches Some(x) && *x == *a
            } else if i <= list@.len() {
                part matches Some(x) && *x == list@[i - 1]
            } else {
                part is None
            },
            Expression::FunctionCall(function, parameters) => computes(operator, function) ==> {
                let used = i < parameters@.len() && (bounds(operator).1 matches Some(most)
                    ==> i < most);
                if used {
                    part matches Some(x) && *x == parameters@[i as int]
                } else {
                    part is None
                }
            },
            Expression::UnaryPlus(_) | Expression::UnaryMinus(_) | Expression::UnaryNot(_) => {
                let (_, a) = unary(*expression)->Some_0;
                if i == 0 {
                    part matches Some(x) && *x == a
                } else {
                    part is None
                }
            },
            _ => {
                let (_, a, b) = binary(*expression)->Some_0;
                if i == 0 {
                    part matches Some(x) && *x == a
                } else if i == 1 {
                    part matches Some(x) && *x == b
                } else {
                    part is None
                }
            },
        },
{
}

/// A function can be planned with as many parameters as the operator that computes it takes at
/// least.
pub proof fn lemma_operand_minimum(expression: Expression, least: usize, operator: Operator)
    requires
        call_ensures(operand_minimum, (&expression,), least),
    ensures
        expression matches Expression::FunctionCall(function, _) && computes(operator, function)
            ==> least == bounds(operator).0,
        expression !is FunctionCall ==> least == 0,
{
}

} // verus!
