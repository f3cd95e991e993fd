//! What an expression is made of.
use crate::algebra::{Expression, Function};
use crate::error::{Error, Failure};
use crate::plan::{expression_models, optional_model, Formula, Operator, PlanExpression};
use crate::xsd::{cast_target, cast_target_of, CastTarget};
use vstd::pervasive::unreached;
use vstd::prelude::*;

verus! {

/// The fewest parameters with which a function can be planned.
pub open spec fn least_parameters(function: Function) -> nat {
    match function {
        Function::BNode
        | Function::Rand
        | Function::Concat
        | Function::Now
        | Function::UUID
        | Function::StrUUID
        | Function::Coalesce => 0,
        Function::LangMatches
        | Function::SubStr
        | Function::Contains
        | Function::StrStarts
        | Function::StrEnds
        | Function::StrBefore
        | Function::StrAfter
        | Function::StrLang
        | Function::StrDT
        | Function::SameTerm
        | Function::Regex => 2,
        Function::Replace
        | Function::If => 3,
        _ => 1,
    }
}

/// The most parameters that a function uses. Some use all that they get.
pub open spec fn most_parameters(function: Function) -> Option<nat> {
    match function {
        Function::Concat
        | Function::Coalesce => None,
        Function::Rand
        | Function::Now
        | Function::UUID
        | Function::StrUUID => Some(0),
        Function::LangMatches
        | Function::Contains
        | Function::StrStarts
        | Function::StrEnds
        | Function::StrBefore
        | Function::StrAfter
        | Function::StrLang
        | Function::StrDT
        | Function::SameTerm => Some(2),
        Function::SubStr
        | Function::If
        | Function::Regex => Some(3),
        Function::Replace => Some(4),
        _ => Some(1),
    }
}

/// How many of its parameters a function uses. The others are ignored.
pub open spec fn used_parameters(function: Function, available: nat) -> nat {
    match most_parameters(function) {
        Some(most) if most < available => most,
        _ => available,
    }
}

/// The operator that computes a function. One named by an IRI is a cast.
pub open spec fn function_operator(function: Function) -> Operator {
    match function {
        Function::Str => Operator::Str,
        Function::Lang => Operator::Lang,
        Function::LangMatches => Operator::LangMatches,
        Function::Datatype => Operator::Datatype,
        Function::IRI => Operator::IRI,
        Function::BNode => Operator::BNode,
        Function::Rand => Operator::Rand,
        Function::Abs => Operator::Abs,
        Function::Ceil => Operator::Ceil,
        Function::Floor => Operator::Floor,
        Function::Round => Operator::Round,
        Function::Concat => Operator::Concat,
        Function::SubStr => Operator::SubStr,
        Function::StrLen => Operator::StrLen,
        Function::Replace => Operator::Replace,
        Function::UCase => Operator::UCase,
        Function::LCase => Operator::LCase,
        Function::EncodeForURI => Operator::EncodeForURI,
        Function::Contains => Operator::Contains,
        Function::StrStarts => Operator::StrStarts,
        Function::StrEnds => Operator::StrEnds,
        Function::StrBefore => Operator::StrBefore,
        Function::StrAfter => Operator::StrAfter,
        Function::Year => Operator::Year,
        Function::Month => Operator::Month,
        Function::Day => Operator::Day,
        Function::Hours => Operator::Hours,
        Function::Minutes => Operator::Minutes,
        Function::Seconds => Operator::Seconds,
        Function::Timezone => Operator::Timezone,
        Function::Tz => Operator::Tz,
        Function::Now => Operator::Now,
        Function::UUID => Operator::UUID,
        Function::StrUUID => Operator::StrUUID,
        Function::MD5 => Operator::MD5,
        Function::SHA1 => Operator::SHA1,
        Function::SHA256 => Operator::SHA256,
        Function::SHA384 => Operator::SHA384,
        Function::SHA512 => Operator::SHA512,
        Function::Coalesce => Operator::Coalesce,
        Function::If => Operator::If,
        Function::StrLang => Operator::StrLang,
        Function::StrDT => Operator::StrDT,
        Function::SameTerm => Operator::SameTerm,
        Function::IsIRI => Operator::IsIRI,
        Function::IsBlank => Operator::IsBlank,
        Function::IsLiteral => Operator::IsLiteral,
        Function::IsNumeric => Operator::IsNumeric,
        Function::Regex => Operator::Regex,
        Function::Custom(name) => match cast_target_of(name@) {
            Some(CastTarget::Boolean) => Operator::BooleanCast,
            Some(CastTarget::Double) => Operator::DoubleCast,
            Some(CastTarget::Float) => Operator::FloatCast,
            Some(CastTarget::Decimal) => Operator::DecimalCast,
            Some(CastTarget::Integer) => Operator::IntegerCast,
            Some(CastTarget::Date) => Operator::DateCast,
            Some(CastTarget::Time) => Operator::TimeCast,
            Some(CastTarget::DateTime) => Operator::DateTimeCast,
            _ => Operator::StringCast,
        },
    }
}

/// The operands of an expression, in the order in which they are planned.
pub open spec fn operands(expression: Expression) -> Seq<Expression> {
    match expression {
        Expression::Or(a, b)
        | Expression::And(a, b)
        | Expression::Equal(a, b)
        | Expression::NotEqual(a, b)
        | Expression::Greater(a, b)
        | Expression::GreaterOrEq(a, b)
        | Expression::Lower(a, b)
        | Expression::LowerOrEq(a, b)
        | Expression::Add(a, b)
        | Expression::Sub(a, b)
        | Expression::Mul(a, b)
        | Expression::Div(a, b) => seq![*a, *b],
        Expression::UnaryPlus(a)
        | Expression::UnaryMinus(a)
        | Expression::UnaryNot(a) => seq![*a],
        Expression::In(a, list)
        | Expression::NotIn(a, list) => seq![*a] + list@,
        Expression::FunctionCall(function, parameters) => parameters@.take(
            used_parameters(function, parameters@.len()) as int,
        ),
        _ => seq![],
    }
}

/// The fewest operands with which an expression can be planned.
pub open spec fn least_operands(expression: Expression) -> nat {
    match expression {
        Expression::FunctionCall(function, _) => least_parameters(function),
        _ => 0,
    }
}

/// Why an expression has no plan, whatever its operands are: it calls a function that is not
/// known, or casts more or less than one value.
pub open spec fn rejection<E>(expression: Expression) -> Option<Failure<E>> {
    match expression {
        Expression::FunctionCall(Function::Custom(name), parameters) => match cast_target_of(
            name@,
        ) {
            Some(target) => if parameters@.len() == 1 {
                None
            } else {
                Some(Failure::CastArity(target))
            },
            None => Some(Failure::UnsupportedFunction(expression)),
        },
        _ => None,
    }
}

/// The formula that an expression makes of its operands.
pub open spec fn applied(expression: Expression, parts: Seq<Formula>) -> Formula {
    match expression {
        Expression::Or(_, _) => Formula::Apply(Operator::Or, parts),
        Expression::And(_, _) => Formula::Apply(Operator::And, parts),
        Expression::Equal(_, _) => Formula::Apply(Operator::Equal, parts),
        Expression::NotEqual(_, _) => Formula::Apply(Operator::NotEqual, parts),
        Expression::Greater(_, _) => Formula::Apply(Operator::Greater, parts),
        Expression::GreaterOrEq(_, _) => Formula::Apply(Operator::GreaterOrEq, parts),
        Expression::Lower(_, _) => Formula::Apply(Operator::Lower, parts),
        Expression::LowerOrEq(_, _) => Formula::Apply(Operator::LowerOrEq, parts),
        Expression::Add(_, _) => Formula::Apply(Operator::Add, parts),
        Expression::Sub(_, _) => Formula::Apply(Operator::Sub, parts),
        Expression::Mul(_, _) => Formula::Apply(Operator::Mul, parts),
        Expression::Div(_, _) => Formula::Apply(Operator::Div, parts),
        Expression::In(_, _) => Formula::Apply(Operator::In, parts),
        Expression::UnaryPlus(_) => Formula::Apply(Operator::UnaryPlus, parts),
        Expression::UnaryMinus(_) => Formula::Apply(Operator::UnaryMinus, parts),
        Expression::UnaryNot(_) => Formula::Apply(Operator::UnaryNot, parts),
        Expression::NotIn(_, _) => Formula::Apply(
            Operator::UnaryNot,
            seq![Formula::Apply(Operator::In, parts)],
        ),
        Expression::FunctionCall(function, _) => Formula::Apply(function_operator(function), parts),
        _ => arbitrary(),
    }
}

/// An operand is a part of its expression.
pub proof fn lemma_operand_is_part(expression: Expression, i: int)
    requires
        0 <= i < operands(expression).len(),
    ensures
        decreases_to!(expression => operands(expression)[i]),
{
    match expression {
        Expression::FunctionCall(function, parameters) => {
            assert(operands(expression)[i] == parameters@[i]);
            assert(decreases_to!(expression => parameters));
            assert(decreases_to!(parameters@ => parameters@[i]));
        },
        Expression::In(a, list) | Expression::NotIn(a, list) => {
            if i > 0 {
                assert(operands(expression)[i] == list@[i - 1]);
                assert(decreases_to!(expression => list));
                assert(decreases_to!(list@ => list@[i - 1]));
            }
        },
        _ => {},
    }
}

/// The most parameters that a function uses.
fn parameter_limit(function: &Function) -> (limit: Option<usize>)
    ensures
        match limit {
            Some(most) => most_parameters(*function) == Some(most as nat),
            None => most_parameters(*function) is None,
        },
{
    match function {
        Function::Concat
        | Function::Coalesce => None,
        Function::Rand
        | Function::Now
        | Function::UUID
        | Function::StrUUID => Some(0),
        Function::LangMatches
        | Function::Contains
        | Function::StrStarts
        | Function::StrEnds
        | Function::StrBefore
        | Function::StrAfter
        | Function::StrLang
        | Function::StrDT
        | Function::SameTerm => Some(2),
        Function::SubStr
        | Function::If
        | Function::Regex => Some(3),
        Function::Replace => Some(4),
        _ => Some(1),
    }
}

/// The fewest parameters with which a function can be planned.
fn parameter_minimum(function: &Function) -> (least: usize)
    ensures
        least == least_parameters(*function),
{
    match function {
        Function::BNode
        | Function::Rand
        | Function::Concat
        | Function::Now
        | Function::UUID
        | Function::StrUUID
        | Function::Coalesce => 0,
        Function::LangMatches
        | Function::SubStr
        | Function::Contains
        | Function::StrStarts
        | Function::StrEnds
        | Function::StrBefore
        | Function::StrAfter
        | Function::StrLang
        | Function::StrDT
        | Function::SameTerm
        | Function::Regex => 2,
        Function::Replace
        | Function::If => 3,
        _ => 1,
    }
}

/// The fewest operands with which an expression can be planned.
pub fn operand_minimum(expression: &Expression) -> (least: usize)
    ensures
        least == least_operands(*expression),
{
    match expression {
        Expression::FunctionCall(function, _) => parameter_minimum(function),
        _ => 0,
    }
}

/// The operand at a place, where there is one.
pub fn operand<'p>(expression: &'p Expression, i: usize) -> (part: Option<&'p Expression>)
    ensures
        match part {
            Some(part) => i < operands(*expression).len() && *part == operands(
                *expression,
            )[i as int],
            None => i >= operands(*expression).len(),
        },
{
    match expression {
        Expression::Or(a, b)
        | Expression::And(a, b)
        | Expression::Equal(a, b)
        | Expression::NotEqual(a, b)
        | Expression::Greater(a, b)
        | Expression::GreaterOrEq(a, b)
        | Expression::Lower(a, b)
        | Expression::LowerOrEq(a, b)
        | Expression::Add(a, b)
        | Expression::Sub(a, b)
        | Expression::Mul(a, b)
        | Expression::Div(a, b) => if i == 0 {
            Some(&**a)
        } else if i == 1 {
            Some(&**b)
        } else {
            None
        },
        Expression::UnaryPlus(a)
        | Expression::UnaryMinus(a)
        | Expression::UnaryNot(a) => if i == 0 {
            Some(&**a)
        } else {
            None
        },
        Expression::In(a, list)
        | Expression::NotIn(a, list) => if i == 0 {
            Some(&**a)
        } else if i - 1 < list.len() {
            Some(&list[i - 1])
        } else {
            None
        },
        Expression::FunctionCall(function, parameters) => {
            let used = match parameter_limit(function) {
                Some(most) => i < most,
                None => true,
            };
            if used && i < parameters.len() {
                Some(&parameters[i])
            } else {
                None
            }
        },
        _ => None,
    }
}

/// Why an expression has no plan, whatever its operands are.
pub fn reject<'p, E>(expression: &'p Expression) -> (error: Option<Error<'p, E>>)
    ensures
        match error {
            Some(error) => rejection::<E>(*expression) == Some(error.model()),
            None => rejection::<E>(*expression) is None,
        },
{
    match expression {
        Expression::FunctionCall(Function::Custom(name), parameters) => match cast_target(name) {
            Some(target) => if parameters.len() == 1 {
                None
            } else {
                Some(Error::CastArity(target))
            },
            None => Some(Error::UnsupportedFunction(expression)),
        },
        _ => None,
    }
}

fn one(parts: Vec<PlanExpression>) -> (part: Box<PlanExpression>)
    requires
        parts@.len() == 1,
    ensures
        seq![part.model()] == expression_models(parts@),
{
    let mut parts = parts;
    let ghost all = expression_models(parts@);
    let a = Box::new(parts.remove(0));
    assert(seq![a.model()] =~= all);
    a
}

fn two(parts: Vec<PlanExpression>) -> (both: (Box<PlanExpression>, Box<PlanExpression>))
    requires
        parts@.len() == 2,
    ensures
        seq![both.0.model(), both.1.model()] == expression_models(parts@),
{
    let mut parts = parts;
    let ghost all = expression_models(parts@);
    let a = Box::new(parts.remove(0));
    let b = Box::new(parts.remove(0));
    assert(seq![a.model(), b.model()] =~= all);
    (a, b)
}

fn three(parts: Vec<PlanExpression>) -> (all: (
    Box<PlanExpression>,
    Box<PlanExpression>,
    Box<PlanExpression>,
))
    requires
        parts@.len() == 3,
    ensures
        seq![all.0.model(), all.1.model(), all.2.model()] == expression_models(parts@),
{
    let mut parts = parts;
    let ghost all = expression_models(parts@);
    let a = Box::new(parts.remove(0));
    let b = Box::new(parts.remove(0));
    let c = Box::new(parts.remove(0));
    assert(seq![a.model(), b.model(), c.model()] =~= all);
    (a, b, c)
}

fn perhaps_one(parts: Vec<PlanExpression>) -> (part: Option<Box<PlanExpression>>)
    requires
        parts@.len() <= 1,
    ensures
        optional_model(part) == expression_models(parts@),
{
    let ghost all = expression_models(parts@);
    if parts.len() == 0 {
        assert(all =~= seq![]);
        None
    } else {
        Some(one(parts))
    }
}

fn two_perhaps_three(parts: Vec<PlanExpression>) -> (all: (
    Box<PlanExpression>,
    Box<PlanExpression>,
    Option<Box<PlanExpression>>,
))
    requires
        2 <= parts@.len() <= 3,
    ensures
        seq![all.0.model(), all.1.model()] + optional_model(all.2) == expression_models(parts@),
{
    let mut parts = parts;
    let ghost all = expression_models(parts@);
    let a = Box::new(parts.remove(0));
    let b = Box::new(parts.remove(0));
    let ghost rest = expression_models(parts@);
    let c = perhaps_one(parts);
    assert(seq![a.model(), b.model()] + rest =~= all);
    (a, b, c)
}

fn three_perhaps_four(parts: Vec<PlanExpression>) -> (all: (
    Box<PlanExpression>,
    Box<PlanExpression>,
    Box<PlanExpression>,
    Option<Box<PlanExpression>>,
))
    requires
        3 <= parts@.len() <= 4,
    ensures
        seq![all.0.model(), all.1.model(), all.2.model()] + optional_model(all.3)
            == expression_models(parts@),
{
    let mut parts = parts;
    let ghost all = expression_models(parts@);
    let a = Box::new(parts.remove(0));
    let b = Box::new(parts.remove(0));
    let c = Box::new(parts.remove(0));
    let ghost rest = expression_models(parts@);
    let d = perhaps_one(parts);
    assert(seq![a.model(), b.model(), c.model()] + rest =~= all);
    (a, b, c, d)
}

fn first_and_rest(parts: Vec<PlanExpression>) -> (all: (Box<PlanExpression>, Vec<PlanExpression>))
    requires
        1 <= parts@.len(),
    ensures
        seq![all.0.model()] + expression_models(all.1@) == expression_models(parts@),
{
    let mut parts = parts;
    let ghost all = expression_models(parts@);
    let a = Box::new(parts.remove(0));
    assert(seq![a.model()] + expression_models(parts@) =~= all);
    (a, parts)
}

/// The expression that a function makes of its planned parameters.
fn assemble_call(function: &Function, parts: Vec<PlanExpression>) -> (planned: PlanExpression)
    requires
        least_parameters(*function) <= parts@.len(),
        most_parameters(*function) is Some ==> parts@.len() <= most_parameters(*function)->0,
    ensures
        planned.model() == Formula::Apply(function_operator(*function), expression_models(parts@)),
{
    assert(parts@.len() == 0 ==> expression_models(parts@) =~= seq![]);
    match function {
        Function::Str => PlanExpression::Str(one(parts)),
        Function::Lang => PlanExpression::Lang(one(parts)),
        Function::LangMatches => {
            let (a, b) = two(parts);
            PlanExpression::LangMatches(a, b)
        },
        Function::Datatype => PlanExpression::Datatype(one(parts)),
        Function::IRI => PlanExpression::IRI(one(parts)),
        Function::BNode => PlanExpression::BNode(perhaps_one(parts)),
        Function::Rand => PlanExpression::Rand,
        Function::Abs => PlanExpression::Abs(one(parts)),
        Function::Ceil => PlanExpression::Ceil(one(parts)),
        Function::Floor => PlanExpression::Floor(one(parts)),
        Function::Round => PlanExpression::Round(one(parts)),
        Function::Concat => PlanExpression::Concat(parts),
        Function::SubStr => {
            let (a, b, c) = two_perhaps_three(parts);
            PlanExpression::SubStr(a, b, c)
        },
        Function::StrLen => PlanExpression::StrLen(one(parts)),
        Function::Replace => {
            let (a, b, c, d) = three_perhaps_four(parts);
            PlanExpression::Replace(a, b, c, d)
        },
        Function::UCase => PlanExpression::UCase(one(parts)),
        Function::LCase => PlanExpression::LCase(one(parts)),
        Function::EncodeForURI => PlanExpression::EncodeForURI(one(parts)),
        Function::Contains => {
            let (a, b) = two(parts);
            PlanExpression::Contains(a, b)
        },
        Function::StrStarts => {
            let (a, b) = two(parts);
            PlanExpression::StrStarts(a, b)
        },
        Function::StrEnds => {
            let (a, b) = two(parts);
            PlanExpression::StrEnds(a, b)
        },
        Function::StrBefore => {
            let (a, b) = two(parts);
            PlanExpression::StrBefore(a, b)
        },
        Function::StrAfter => {
            let (a, b) = two(parts);
            PlanExpression::StrAfter(a, b)
        },
        Function::Year => PlanExpression::Year(one(parts)),
        Function::Month => PlanExpression::Month(one(parts)),
        Function::Day => PlanExpression::Day(one(parts)),
        Function::Hours => PlanExpression::Hours(one(parts)),
        Function::Minutes => PlanExpression::Minutes(one(parts)),
        Function::Seconds => PlanExpression::Seconds(one(parts)),
        Function::Timezone => PlanExpression::Timezone(one(parts)),
        Function::Tz => PlanExpression::Tz(one(parts)),
        Function::Now => PlanExpression::Now,
        Function::UUID => PlanExpression::UUID,
        Function::StrUUID => PlanExpression::StrUUID,
        Function::MD5 => PlanExpression::MD5(one(parts)),
        Function::SHA1 => PlanExpression::SHA1(one(parts)),
        Function::SHA256 => PlanExpression::SHA256(one(parts)),
        Function::SHA384 => PlanExpression::SHA384(one(parts)),
        Function::SHA512 => PlanExpression::SHA512(one(parts)),
        Function::Coalesce => PlanExpression::Coalesce(parts),
        Function::If => {
            let (a, b, c) = three(parts);
            PlanExpression::If(a, b, c)
        },
        Function::StrLang => {
            let (a, b) = two(parts);
            PlanExpression::StrLang(a, b)
        },
        Function::StrDT => {
            let (a, b) = two(parts);
            PlanExpression::StrDT(a, b)
        },
        Function::SameTerm => {
            let (a, b) = two(parts);
            PlanExpression::SameTerm(a, b)
        },
        Function::IsIRI => PlanExpression::IsIRI(one(parts)),
        Function::IsBlank => PlanExpression::IsBlank(one(parts)),
        Function::IsLiteral => PlanExpression::IsLiteral(one(parts)),
        Function::IsNumeric => PlanExpression::IsNumeric(one(parts)),
        Function::Regex => {
            let (a, b, c) = two_perhaps_three(parts);
            PlanExpression::Regex(a, b, c)
        },
        Function::Custom(name) => {
            let value = one(parts);
            match cast_target(name) {
                Some(CastTarget::Boolean) => PlanExpression::BooleanCast(value),
                Some(CastTarget::Double) => PlanExpression::DoubleCast(value),
                Some(CastTarget::Float) => PlanExpression::FloatCast(value),
                Some(CastTarget::Decimal) => PlanExpression::DecimalCast(value),
                Some(CastTarget::Integer) => PlanExpression::IntegerCast(value),
                Some(CastTarget::Date) => PlanExpression::DateCast(value),
                Some(CastTarget::Time) => PlanExpression::TimeCast(value),
                Some(CastTarget::DateTime) => PlanExpression::DateTimeCast(value),
                _ => PlanExpression::StringCast(value),
            }
        },
    }
}

/// Whether the expression is an operator with operands or a function with parameters.
pub open spec fn is_operation(expression: Expression) -> bool {
    match expression {
        Expression::Constant(_) => false,
        Expression::Bound(_) => false,
        Expression::Exists(_) => false,
        _ => true,
    }
}

/// The expression that an operation makes of its planned operands.
pub fn assemble(expression: &Expression, parts: Vec<PlanExpression>) -> (planned: PlanExpression)
    requires
        is_operation(*expression),
        parts@.len() == operands(*expression).len(),
        parts@.len() >= least_operands(*expression),
    ensures
        planned.model() == applied(*expression, expression_models(parts@)),
{
    match expression {
        Expression::Or(_, _) => {
            let (a, b) = two(parts);
            PlanExpression::Or(a, b)
        },
        Expression::And(_, _) => {
            let (a, b) = two(parts);
            PlanExpression::And(a, b)
        },
        Expression::Equal(_, _) => {
            let (a, b) = two(parts);
            PlanExpression::Equal(a, b)
        },
        Expression::NotEqual(_, _) => {
            let (a, b) = two(parts);
            PlanExpression::NotEqual(a, b)
        },
        Expression::Greater(_, _) => {
            let (a, b) = two(parts);
            PlanExpression::Greater(a, b)
        },
        Expression::GreaterOrEq(_, _) => {
            let (a, b) = two(parts);
            PlanExpression::GreaterOrEq(a, b)
        },
        Expression::Lower(_, _) => {
            let (a, b) = two(parts);
            PlanExpression::Lower(a, b)
        },
        Expression::LowerOrEq(_, _) => {
            let (a, b) = two(parts);
            PlanExpression::LowerOrEq(a, b)
        },
        Expression::Add(_, _) => {
            let (a, b) = two(parts);
            PlanExpression::Add(a, b)
        },
        Expression::Sub(_, _) => {
            let (a, b) = two(parts);
            PlanExpression::Sub(a, b)
        },
        Expression::Mul(_, _) => {
            let (a, b) = two(parts);
            PlanExpression::Mul(a, b)
        },
        Expression::Div(_, _) => {
            let (a, b) = two(parts);
            PlanExpression::Div(a, b)
        },
        Expression::UnaryPlus(_) => PlanExpression::UnaryPlus(one(parts)),
        Expression::UnaryMinus(_) => PlanExpression::UnaryMinus(one(parts)),
        Expression::UnaryNot(_) => PlanExpression::UnaryNot(one(parts)),
        Expression::In(_, _) => {
            let (a, list) = first_and_rest(parts);
            PlanExpression::In(a, list)
        },
        Expression::NotIn(_, _) => {
            let (a, list) = first_and_rest(parts);
            let member = PlanExpression::In(a, list);
            assert(member.model() == Formula::Apply(Operator::In, expression_models(parts@)));
            PlanExpression::UnaryNot(Box::new(member))
        },
        Expression::FunctionCall(function, _) => assemble_call(function, parts),
        _ => unreached(),
    }
}

} // verus!
