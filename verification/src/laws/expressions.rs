//! How the plan of an expression is made of those of its operands.
use crate::algebra::{Expression, Function};
use crate::error::{Failure, Outcome};
use crate::expression::{
    function_operator, lemma_operand_is_part, most_parameters, operands, rejection,
};
use crate::laws::growth::begins_with;
use crate::model::NamedNode;
use crate::plan::{Formula, Operator, Slot};
use crate::semantics::{expression_run, operands_run, Progress};
use crate::store::Answers;
use crate::xsd::{cast_target_of, CastTarget};
use vstd::prelude::*;

verus! {

/// Plans a list of expressions: all but the last, and then the last.
pub open spec fn list_run<E>(
    list: Seq<Expression>,
    graph: Slot,
    answers: Answers<E>,
    at: Progress,
) -> (Outcome<Seq<Formula>, E>, Progress)
    decreases list.len(),
{
    if list.len() == 0 {
        (Outcome::Done(seq![]), at)
    } else {
        match list_run(list.drop_last(), graph, answers, at) {
            (Outcome::Done(parts), at1) => match expression_run(list.last(), graph, answers, at1) {
                (Outcome::Done(part), at2) => (Outcome::Done(parts.push(part)), at2),
                (stop, at2) => (stop.halt(), at2),
            },
            (stop, at1) => (stop, at1),
        }
    }
}

/// A list in two parts is planned as the first part and then, if that has plans, as the second
/// part from there on. Each expression has a plan of its own, and the first failure ends it all.
pub proof fn lemma_list_in_two_parts<E>(
    first: Seq<Expression>,
    second: Seq<Expression>,
    graph: Slot,
    answers: Answers<E>,
    at: Progress,
)
    ensures
        match list_run(first, graph, answers, at) {
            (Outcome::Done(x), at1) => {
                &&& x.len() == first.len()
                &&& match list_run(second, graph, answers, at1) {
                    (Outcome::Done(y), at2) => {
                        &&& y.len() == second.len()
                        &&& list_run(first + second, graph, answers, at) == (
                            Outcome::<Seq<Formula>, E>::Done(x + y),
                            at2,
                        )
                    },
                    (stop, at2) => list_run(first + second, graph, answers, at) == (stop, at2),
                }
            },
            (stop, at1) => list_run(first + second, graph, answers, at) == (stop, at1),
        },
    decreases second.len(), first.len(),
{
    if second.len() > 0 {
        lemma_list_in_two_parts(first, second.drop_last(), graph, answers, at);
        assert((first + second).drop_last() =~= first + second.drop_last());
        assert((first + second).last() == second.last());
        if let (Outcome::Done(x), at1) = list_run(first, graph, answers, at) {
            if let (Outcome::Done(y), at2) = list_run(second, graph, answers, at1) {
                assert(x + y =~= (x + y.drop_last()).push(y.last()));
                assert(y =~= y.drop_last().push(y.last()));
            }
        }
    } else {
        assert(first + second =~= first);
        if first.len() > 0 {
            lemma_list_in_two_parts(first.drop_last(), seq![], graph, answers, at);
            assert(first.drop_last() + Seq::<Expression>::empty() =~= first.drop_last());
        }
        if let (Outcome::Done(x), at1) = list_run(first, graph, answers, at) {
            assert(x + Seq::<Formula>::empty() =~= x);
        }
    }
}

proof fn lemma_operands_go_on<E>(
    expression: Expression,
    i: int,
    parts: Seq<Formula>,
    graph: Slot,
    answers: Answers<E>,
    at: Progress,
    here: Progress,
)
    requires
        0 <= i <= operands(expression).len(),
        list_run(operands(expression).take(i), graph, answers, at) == (
            Outcome::<Seq<Formula>, E>::Done(parts),
            here,
        ),
    ensures
        operands_run(expression, i, parts, graph, answers, here) == list_run(
            operands(expression),
            graph,
            answers,
            at,
        ),
    decreases operands(expression).len() - i,
{
    let all = operands(expression);
    if i < all.len() {
        assert(all.take(i + 1).drop_last() =~= all.take(i));
        assert(all.take(i + 1).last() == all[i]);
        let (outcome, next) = expression_run(all[i], graph, answers, here);
        if let Outcome::Done(part) = outcome {
            lemma_operands_go_on(expression, i + 1, parts.push(part), graph, answers, at, next);
        } else {
            lemma_list_in_two_parts(all.take(i + 1), all.skip(i + 1), graph, answers, at);
            assert(all.take(i + 1) + all.skip(i + 1) =~= all);
        }
    } else {
        assert(all.take(i) =~= all);
    }
}

/// The operands of an expression are planned as a list.
pub proof fn lemma_operands_are_a_list<E>(
    expression: Expression,
    graph: Slot,
    answers: Answers<E>,
    at: Progress,
)
    ensures
        operands_run(expression, 0, seq![], graph, answers, at) == list_run(
            operands(expression),
            graph,
            answers,
            at,
        ),
{
    assert(operands(expression).take(0) =~= seq![]);
    lemma_operands_go_on(expression, 0, seq![], graph, answers, at, at);
}

/// Planning the operands of an expression is planning the first `i` of them and then going on
/// from there. If one of the first `i` fails, it ends there.
pub proof fn lemma_operands_in_two_parts<E>(
    expression: Expression,
    i: int,
    graph: Slot,
    answers: Answers<E>,
    at: Progress,
)
    requires
        0 <= i <= operands(expression).len(),
    ensures
        match list_run(operands(expression).take(i), graph, answers, at) {
            (Outcome::Done(parts), here) => {
                &&& parts.len() == i
                &&& operands_run(expression, 0, seq![], graph, answers, at) == operands_run(
                    expression,
                    i,
                    parts,
                    graph,
                    answers,
                    here,
                )
            },
            (stop, here) => operands_run(expression, 0, seq![], graph, answers, at) == (stop, here),
        },
{
    let all = operands(expression);
    lemma_operands_are_a_list(expression, graph, answers, at);
    lemma_list_in_two_parts(all.take(i), all.skip(i), graph, answers, at);
    assert(all.take(i) + all.skip(i) =~= all);
    if let (Outcome::Done(parts), here) = list_run(all.take(i), graph, answers, at) {
        lemma_operands_go_on(expression, i, parts, graph, answers, at, here);
    }
}

/// A function other than a cast ignores the parameters that it has no use for.
pub proof fn lemma_extra_parameters<E>(
    function: Function,
    parameters: Vec<Expression>,
    more: Vec<Expression>,
    graph: Slot,
    answers: Answers<E>,
    at: Progress,
)
    requires
        function !is Custom,
        most_parameters(function) == Some(parameters@.len()),
        begins_with(more@, parameters@),
    ensures
        expression_run(Expression::FunctionCall(function, parameters), graph, answers, at)
            == expression_run(Expression::FunctionCall(function, more), graph, answers, at),
{
    let d = Expression::FunctionCall(function, parameters);
    let e = Expression::FunctionCall(function, more);
    assert(operands(d) =~= operands(e));
    lemma_operands_are_a_list(d, graph, answers, at);
    lemma_operands_are_a_list(e, graph, answers, at);
}

/// The operator and the two operands of an expression that has two.
pub open spec fn binary(expression: Expression) -> Option<(Operator, Expression, Expression)> {
    match expression {
        Expression::Or(a, b) => Some((Operator::Or, *a, *b)),
        Expression::And(a, b) => Some((Operator::And, *a, *b)),
        Expression::Equal(a, b) => Some((Operator::Equal, *a, *b)),
        Expression::NotEqual(a, b) => Some((Operator::NotEqual, *a, *b)),
        Expression::Greater(a, b) => Some((Operator::Greater, *a, *b)),
        Expression::GreaterOrEq(a, b) => Some((Operator::GreaterOrEq, *a, *b)),
        Expression::Lower(a, b) => Some((Operator::Lower, *a, *b)),
        Expression::LowerOrEq(a, b) => Some((Operator::LowerOrEq, *a, *b)),
        Expression::Add(a, b) => Some((Operator::Add, *a, *b)),
        Expression::Sub(a, b) => Some((Operator::Sub, *a, *b)),
        Expression::Mul(a, b) => Some((Operator::Mul, *a, *b)),
        Expression::Div(a, b) => Some((Operator::Div, *a, *b)),
        _ => None,
    }
}

/// An expression with two operands is planned from left to right, under its own operator.
pub proof fn lemma_binary<E>(
    expression: Expression,
    graph: Slot,
    answers: Answers<E>,
    at: Progress,
)
    requires
        binary(expression) is Some,
    ensures
        ({
            let (operator, a, b) = binary(expression)->Some_0;
            let whole = expression_run(expression, graph, answers, at);
            match expression_run(a, graph, answers, at) {
                (Outcome::Done(x), at1) => match expression_run(b, graph, answers, at1) {
                    (Outcome::Done(y), at2) => whole == (
                        Outcome::<Formula, E>::Done(Formula::Apply(operator, seq![x, y])),
                        at2,
                    ),
                    (stop, at2) => whole == (stop, at2),
                },
                (stop, at1) => whole == (stop, at1),
            }
        }),
{
    let (operator, a, b) = binary(expression)->Some_0;
    let list = operands(expression);
    lemma_operands_are_a_list(expression, graph, answers, at);
    reveal_with_fuel(list_run, 3);
    assert(list =~= seq![a, b]);
    assert(list.drop_last() =~= seq![a]);
    assert(list.drop_last().drop_last() =~= seq![]);
    if let (Outcome::Done(x), at1) = expression_run(a, graph, answers, at) {
        assert(seq![].push(x) =~= seq![x]);
        if let (Outcome::Done(y), at2) = expression_run(b, graph, answers, at1) {
            assert(seq![x].push(y) =~= seq![x, y]);
        }
    }
}

/// A search in a list is planned from left to right: what is searched for, then the list.
pub proof fn lemma_in<E>(
    e: Box<Expression>,
    list: Vec<Expression>,
    graph: Slot,
    answers: Answers<E>,
    at: Progress,
)
    ensures
        ({
            let whole = expression_run(Expression::In(e, list), graph, answers, at);
            match expression_run(*e, graph, answers, at) {
                (Outcome::Done(x), at1) => match list_run(list@, graph, answers, at1) {
                    (Outcome::Done(parts), at2) => whole == (
                        Outcome::<Formula, E>::Done(Formula::Apply(Operator::In, seq![x] + parts)),
                        at2,
                    ),
                    (stop, at2) => whole == (stop.halt::<Formula>(), at2),
                },
                (stop, at1) => whole == (stop, at1),
            }
        }),
{
    let expression = Expression::In(e, list);
    lemma_operands_are_a_list(expression, graph, answers, at);
    assert(operands(expression) =~= seq![*e] + list@);
    lemma_list_in_two_parts(seq![*e], list@, graph, answers, at);
    reveal_with_fuel(list_run, 2);
    assert(seq![*e].drop_last() =~= seq![]);
    if let (Outcome::Done(x), at1) = expression_run(*e, graph, answers, at) {
        assert(seq![].push(x) =~= seq![x]);
    }
}

/// A search that is not to succeed is planned as the search and its negation, and fails as the
/// search fails.
pub proof fn lemma_not_in<E>(
    e: Box<Expression>,
    list: Vec<Expression>,
    graph: Slot,
    answers: Answers<E>,
    at: Progress,
)
    ensures
        ({
            let negated = expression_run(Expression::NotIn(e, list), graph, answers, at);
            match expression_run(Expression::In(e, list), graph, answers, at) {
                (Outcome::Done(x), next) => negated == (
                    Outcome::<Formula, E>::Done(Formula::Apply(Operator::UnaryNot, seq![x])),
                    next,
                ),
                (stop, next) => negated == (stop, next),
            }
        }),
{
    let search = Expression::In(e, list);
    let negation = Expression::NotIn(e, list);
    assert(operands(search) =~= operands(negation));
    lemma_operands_are_a_list(search, graph, answers, at);
    lemma_operands_are_a_list(negation, graph, answers, at);
}

/// The operator and the operand of an expression that has one operand.
pub open spec fn unary(expression: Expression) -> Option<(Operator, Expression)> {
    match expression {
        Expression::UnaryPlus(a) => Some((Operator::UnaryPlus, *a)),
        Expression::UnaryMinus(a) => Some((Operator::UnaryMinus, *a)),
        Expression::UnaryNot(a) => Some((Operator::UnaryNot, *a)),
        _ => None,
    }
}

/// An expression with one operand is planned as its own operator over the plan of that operand,
/// whatever that is.
pub proof fn lemma_unary<E>(
    expression: Expression,
    graph: Slot,
    answers: Answers<E>,
    at: Progress,
)
    requires
        unary(expression) is Some,
    ensures
        ({
            let (operator, a) = unary(expression)->Some_0;
            let whole = expression_run(expression, graph, answers, at);
            match expression_run(a, graph, answers, at) {
                (Outcome::Done(x), next) => whole == (
                    Outcome::<Formula, E>::Done(Formula::Apply(operator, seq![x])),
                    next,
                ),
                (stop, next) => whole == (stop, next),
            }
        }),
{
    let (operator, a) = unary(expression)->Some_0;
    let list = operands(expression);
    lemma_operands_are_a_list(expression, graph, answers, at);
    reveal_with_fuel(list_run, 2);
    assert(list =~= seq![a]);
    assert(list.drop_last() =~= seq![]);
    if let (Outcome::Done(x), next) = expression_run(a, graph, answers, at) {
        assert(seq![].push(x) =~= seq![x]);
    }
}

/// The IRI of a datatype that a value can be cast to.
pub open spec fn cast_iri(target: CastTarget) -> Seq<char> {
    match target {
        CastTarget::Boolean => "http://www.w3.org/2001/XMLSchema#boolean"@,
        CastTarget::Double => "http://www.w3.org/2001/XMLSchema#double"@,
        CastTarget::Float => "http://www.w3.org/2001/XMLSchema#float"@,
        CastTarget::Decimal => "http://www.w3.org/2001/XMLSchema#decimal"@,
        CastTarget::Integer => "http://www.w3.org/2001/XMLSchema#integer"@,
        CastTarget::Date => "http://www.w3.org/2001/XMLSchema#date"@,
        CastTarget::Time => "http://www.w3.org/2001/XMLSchema#time"@,
        CastTarget::DateTime => "http://www.w3.org/2001/XMLSchema#dateTime"@,
        CastTarget::String => "http://www.w3.org/2001/XMLSchema#string"@,
    }
}

/// Whether an operator casts to a datatype.
pub open spec fn casts_to(operator: Operator, target: CastTarget) -> bool {
    match operator {
        Operator::BooleanCast => target is Boolean,
        Operator::DoubleCast => target is Double,
        Operator::FloatCast => target is Float,
        Operator::DecimalCast => target is Decimal,
        Operator::IntegerCast => target is Integer,
        Operator::DateCast => target is Date,
        Operator::TimeCast => target is Time,
        Operator::DateTimeCast => target is DateTime,
        Operator::StringCast => target is String,
        _ => false,
    }
}

/// Whether an operator computes a function. A function that is called by the IRI of a datatype is
/// computed by the cast to that datatype.
pub open spec fn computes(operator: Operator, function: Function) -> bool {
    match operator {
        Operator::Str => function is Str,
        Operator::Lang => function is Lang,
        Operator::LangMatches => function is LangMatches,
        Operator::Datatype => function is Datatype,
        Operator::IRI => function is IRI,
        Operator::BNode => function is BNode,
        Operator::Rand => function is Rand,
        Operator::Abs => function is Abs,
        Operator::Ceil => function is Ceil,
        Operator::Floor => function is Floor,
        Operator::Round => function is Round,
        Operator::Concat => function is Concat,
        Operator::SubStr => function is SubStr,
        Operator::StrLen => function is StrLen,
        Operator::Replace => function is Replace,
        Operator::UCase => function is UCase,
        Operator::LCase => function is LCase,
        Operator::EncodeForURI => function is EncodeForURI,
        Operator::Contains => function is Contains,
        Operator::StrStarts => function is StrStarts,
        Operator::StrEnds => function is StrEnds,
        Operator::StrBefore => function is StrBefore,
        Operator::StrAfter => function is StrAfter,
        Operator::Year => function is Year,
        Operator::Month => function is Month,
        Operator::Day => function is Day,
        Operator::Hours => function is Hours,
        Operator::Minutes => function is Minutes,
        Operator::Seconds => function is Seconds,
        Operator::Timezone => function is Timezone,
        Operator::Tz => function is Tz,
        Operator::Now => function is Now,
        Operator::UUID => function is UUID,
        Operator::StrUUID => function is StrUUID,
        Operator::MD5 => function is MD5,
        Operator::SHA1 => function is SHA1,
        Operator::SHA256 => function is SHA256,
        Operator::SHA384 => function is SHA384,
        Operator::SHA512 => function is SHA512,
        Operator::Coalesce => function is Coalesce,
        Operator::If => function is If,
        Operator::StrLang => function is StrLang,
        Operator::StrDT => function is StrDT,
        Operator::SameTerm => function is SameTerm,
        Operator::IsIRI => function is IsIRI,
        Operator::IsBlank => function is IsBlank,
        Operator::IsLiteral => function is IsLiteral,
        Operator::IsNumeric => function is IsNumeric,
        Operator::Regex => function is Regex,
        _ => function matches Function::Custom(name) && exists|target: CastTarget|
            casts_to(operator, target) && name@ == #[trigger] cast_iri(target),
    }
}

/// The fewest operands that an operator takes, and the most where there is a most.
pub open spec fn bounds(operator: Operator) -> (nat, Option<nat>) {
    match operator {
        Operator::Rand | Operator::Now | Operator::UUID | Operator::StrUUID => (0, Some(0)),
        Operator::BNode => (0, Some(1)),
        Operator::Concat | Operator::Coalesce => (0, None),
        Operator::In => (1, None),
        Operator::Or
        | Operator::And
        | Operator::Equal
        | Operator::NotEqual
        | Operator::Greater
        | Operator::GreaterOrEq
        | Operator::Lower
        | Operator::LowerOrEq
        | Operator::Add
        | Operator::Sub
        | Operator::Mul
        | Operator::Div
        | Operator::LangMatches
        | Operator::Contains
        | Operator::StrStarts
        | Operator::StrEnds
        | Operator::StrBefore
        | Operator::StrAfter
        | Operator::StrLang
        | Operator::StrDT
        | Operator::SameTerm => (2, Some(2)),
        Operator::SubStr | Operator::Regex => (2, Some(3)),
        Operator::If => (3, Some(3)),
        Operator::Replace => (3, Some(4)),
        _ => (1, Some(1)),
    }
}

/// Whether an operator is given as many operands as it takes, out of those that there are.
pub open spec fn takes(operator: Operator, given: nat, available: nat) -> bool {
    let (least, most) = bounds(operator);
    &&& least <= given <= available
    &&& most matches Some(most) ==> given <= most
    &&& given < available ==> most == Some(given)
}

/// A function that is not called by an IRI is planned as the operator that computes it, over as
/// many of its parameters as that takes, from left to right. With too few parameters it has no
/// plan.
pub proof fn lemma_call<E>(
    function: Function,
    parameters: Vec<Expression>,
    graph: Slot,
    answers: Answers<E>,
    at: Progress,
) -> (operator: Operator)
    requires
        function !is Custom,
    ensures
        computes(operator, function),
        ({
            let call = Expression::FunctionCall(function, parameters);
            let whole = expression_run(call, graph, answers, at);
            let (least, most) = bounds(operator);
            let used = match most {
                Some(most) if most < parameters@.len() => parameters@.take(most as int),
                _ => parameters@,
            };
            match list_run(used, graph, answers, at) {
                (Outcome::Done(parts), next) => whole == if parameters@.len() < least {
                    (Outcome::<Formula, E>::Stuck, next)
                } else {
                    (Outcome::<Formula, E>::Done(Formula::Apply(operator, parts)), next)
                },
                (stop, next) => whole == (stop.halt::<Formula>(), next),
            }
        }),
{
    let call = Expression::FunctionCall(function, parameters);
    let operator = function_operator(function);
    let (least, most) = bounds(operator);
    lemma_operands_are_a_list(call, graph, answers, at);
    assert(parameters@.take(parameters@.len() as int) =~= parameters@);
    lemma_list_in_two_parts(operands(call), seq![], graph, answers, at);
    operator
}

/// The IRIs of two datatypes differ.
pub proof fn lemma_cast_iris_differ(a: CastTarget, b: CastTarget)
    requires
        cast_iri(a) == cast_iri(b),
    ensures
        a == b,
{
    reveal_strlit("http://www.w3.org/2001/XMLSchema#boolean");
    reveal_strlit("http://www.w3.org/2001/XMLSchema#double");
    reveal_strlit("http://www.w3.org/2001/XMLSchema#float");
    reveal_strlit("http://www.w3.org/2001/XMLSchema#decimal");
    reveal_strlit("http://www.w3.org/2001/XMLSchema#integer");
    reveal_strlit("http://www.w3.org/2001/XMLSchema#date");
    reveal_strlit("http://www.w3.org/2001/XMLSchema#time");
    reveal_strlit("http://www.w3.org/2001/XMLSchema#dateTime");
    reveal_strlit("http://www.w3.org/2001/XMLSchema#string");
    let (x, y) = (cast_iri(a), cast_iri(b));
    assert(x[33] == y[33]);
    assert(x.len() == y.len());
}

/// A function that is called by the IRI of a datatype casts its one parameter to that datatype.
/// With more or fewer parameters it is an error that names the datatype, whatever they are.
pub proof fn lemma_cast<E>(
    name: NamedNode,
    target: CastTarget,
    parameters: Vec<Expression>,
    graph: Slot,
    answers: Answers<E>,
    at: Progress,
) -> (operator: Operator)
    requires
        name@ == cast_iri(target),
    ensures
        casts_to(operator, target),
        ({
            let call = Expression::FunctionCall(Function::Custom(name), parameters);
            let whole = expression_run(call, graph, answers, at);
            if parameters@.len() == 1 {
                match expression_run(parameters@[0], graph, answers, at) {
                    (Outcome::Done(x), next) => whole == (
                        Outcome::<Formula, E>::Done(Formula::Apply(operator, seq![x])),
                        next,
                    ),
                    (stop, next) => whole == (stop, next),
                }
            } else {
                whole == (Outcome::<Formula, E>::Failed(Failure::CastArity(target)), at)
            }
        }),
{
    let call = Expression::FunctionCall(Function::Custom(name), parameters);
    let found = cast_target_of(name@);
    assert(found is Some && cast_iri(found->Some_0) == name@);
    lemma_cast_iris_differ(found->Some_0, target);
    if parameters@.len() == 1 {
        lemma_operands_are_a_list(call, graph, answers, at);
        reveal_with_fuel(list_run, 2);
        assert(operands(call) =~= seq![parameters@[0]]);
        assert(operands(call).drop_last() =~= seq![]);
        if let (Outcome::Done(x), next) = expression_run(parameters@[0], graph, answers, at) {
            assert(seq![].push(x) =~= seq![x]);
        }
    }
    function_operator(Function::Custom(name))
}

/// A function that is called by any other IRI is an error, whatever its parameters are.
pub proof fn lemma_unknown_function<E>(
    name: NamedNode,
    parameters: Vec<Expression>,
    graph: Slot,
    answers: Answers<E>,
    at: Progress,
)
    requires
        forall|target: CastTarget| name@ != #[trigger] cast_iri(target),
    ensures
        ({
            let call = Expression::FunctionCall(Function::Custom(name), parameters);
            expression_run(call, graph, answers, at) == (
                Outcome::<Formula, E>::Failed(Failure::UnsupportedFunction(call)),
                at,
            )
        }),
{
    if let Some(target) = cast_target_of(name@) {
        assert(name@ == cast_iri(target));
    }
}

/// Whether no pattern is looked for in an expression.
pub open spec fn has_no_exists(expression: Expression) -> bool
    decreases expression, operands(expression).len() + 1,
{
    match expression {
        Expression::Exists(_) => false,
        _ => operands_have_no_exists(expression, 0),
    }
}

/// Whether no pattern is looked for in the operands of an expression from the `i`-th on.
pub open spec fn operands_have_no_exists(expression: Expression, i: int) -> bool
    decreases expression, operands(expression).len() - i,
{
    if 0 <= i < operands(expression).len() {
        proof {
            lemma_operand_is_part(expression, i);
        }
        &&& has_no_exists(operands(expression)[i])
        &&& operands_have_no_exists(expression, i + 1)
    } else {
        true
    }
}

/// An expression in which no pattern is looked for is planned alike in every graph.
pub proof fn lemma_graph_is_irrelevant<E>(
    expression: Expression,
    graph: Slot,
    other: Slot,
    answers: Answers<E>,
    at: Progress,
)
    requires
        has_no_exists(expression),
    ensures
        expression_run(expression, graph, answers, at) == expression_run(
            expression,
            other,
            answers,
            at,
        ),
    decreases expression, operands(expression).len() + 1,
{
    match expression {
        Expression::Constant(_) => {},
        Expression::Bound(_) => {},
        Expression::Exists(_) => {},
        _ => {
            if rejection::<E>(expression) is None {
                lemma_operands_in_any_graph(expression, 0, seq![], graph, other, answers, at);
            }
        },
    }
}

proof fn lemma_operands_in_any_graph<E>(
    expression: Expression,
    i: int,
    parts: Seq<Formula>,
    graph: Slot,
    other: Slot,
    answers: Answers<E>,
    at: Progress,
)
    requires
        operands_have_no_exists(expression, i),
    ensures
        operands_run(expression, i, parts, graph, answers, at) == operands_run(
            expression,
            i,
            parts,
            other,
            answers,
            at,
        ),
    decreases expression, operands(expression).len() - i,
{
    if 0 <= i < operands(expression).len() {
        lemma_operand_is_part(expression, i);
        let operand = operands(expression)[i];
        lemma_graph_is_irrelevant(operand, graph, other, answers, at);
        let (outcome, next) = expression_run(operand, graph, answers, at);
        if let Outcome::Done(part) = outcome {
            let more = parts.push(part);
            lemma_operands_in_any_graph(expression, i + 1, more, graph, other, answers, next);
        }
    }
}

} // verus!
