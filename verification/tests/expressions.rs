use sparql_planner::algebra::{Expression, Function, GraphPattern, TermOrVariable};
use sparql_planner::builder::PlanBuilder;
use sparql_planner::error::Error;
use sparql_planner::model::{Literal, NamedNode, Term, Variable};
use sparql_planner::plan::{PatternValue, PlanExpression, PlanNode};
use sparql_planner::store::{EncodedTerm, StoreConnection};
use sparql_planner::xsd::CastTarget;

/// Codes a literal by the number that it spells. Has no room for anything else.
struct Numbers;

impl StoreConnection for Numbers {
    type Error = String;

    fn encode_term(&self, term: &Term) -> Result<EncodedTerm, String> {
        match term {
            Term::Literal(Literal::Simple { value }) => match value.parse::<u64>() {
                Ok(number) => Ok(EncodedTerm::Stored(number)),
                Err(_) => Err(value.clone()),
            },
            _ => Err("not a number".to_string()),
        }
    }

    fn encode_named_node(&self, named_node: &NamedNode) -> Result<EncodedTerm, String> {
        Err(named_node.iri.clone())
    }
}

fn constant(value: &str) -> Expression {
    Expression::Constant(TermOrVariable::Term(Term::Literal(Literal::Simple {
        value: value.to_string(),
    })))
}

fn boxed(value: &str) -> Box<Expression> {
    Box::new(constant(value))
}

fn named(name: &str) -> Variable {
    Variable::Named { name: name.to_string() }
}

fn variable(name: &str) -> Expression {
    Expression::Constant(TermOrVariable::Variable(named(name)))
}

fn code(number: u64) -> PlanExpression {
    PlanExpression::Constant(EncodedTerm::Stored(number))
}

fn part(number: u64) -> Box<PlanExpression> {
    Box::new(code(number))
}

fn filter(expression: Expression) -> GraphPattern {
    GraphPattern::Filter(expression, Box::new(GraphPattern::BGP(Vec::new())))
}

fn planned(expression: Expression) -> PlanExpression {
    let pattern = filter(expression);
    let (plan, _) = PlanBuilder::build(&Numbers, &pattern).unwrap();
    match plan {
        PlanNode::Filter { expression, .. } => expression,
        _ => panic!("a filter has the plan of a filter"),
    }
}

fn call(function: Function, count: usize) -> Expression {
    let parameters = (1..count + 1).map(|number| constant(&format!("{}", number))).collect();
    Expression::FunctionCall(function, parameters)
}

fn cast(name: &str, count: usize) -> Expression {
    let iri = format!("http://www.w3.org/2001/XMLSchema#{}", name);
    call(Function::Custom(NamedNode { iri }), count)
}

#[test]
fn variables_and_bound_share_positions() {
    let expression = Expression::Or(
        Box::new(Expression::And(
            Box::new(variable("a")),
            Box::new(Expression::Bound(named("b"))),
        )),
        Box::new(Expression::Bound(named("a"))),
    );
    assert_eq!(
        planned(expression),
        PlanExpression::Or(
            Box::new(PlanExpression::And(
                Box::new(PlanExpression::Variable(0)),
                Box::new(PlanExpression::Bound(1)),
            )),
            Box::new(PlanExpression::Bound(0)),
        )
    );
}

#[test]
fn binary_operators_keep_their_operands_in_order() {
    let (a, b) = (|| boxed("1"), || boxed("2"));
    let (c, d) = (|| part(1), || part(2));
    assert_eq!(planned(Expression::Or(a(), b())), PlanExpression::Or(c(), d()));
    assert_eq!(planned(Expression::And(a(), b())), PlanExpression::And(c(), d()));
    assert_eq!(planned(Expression::Equal(a(), b())), PlanExpression::Equal(c(), d()));
    assert_eq!(planned(Expression::NotEqual(a(), b())), PlanExpression::NotEqual(c(), d()));
    assert_eq!(planned(Expression::Greater(a(), b())), PlanExpression::Greater(c(), d()));
    assert_eq!(planned(Expression::GreaterOrEq(a(), b())), PlanExpression::GreaterOrEq(c(), d()));
    assert_eq!(planned(Expression::Lower(a(), b())), PlanExpression::Lower(c(), d()));
    assert_eq!(planned(Expression::LowerOrEq(a(), b())), PlanExpression::LowerOrEq(c(), d()));
    assert_eq!(planned(Expression::Add(a(), b())), PlanExpression::Add(c(), d()));
    assert_eq!(planned(Expression::Sub(a(), b())), PlanExpression::Sub(c(), d()));
    assert_eq!(planned(Expression::Mul(a(), b())), PlanExpression::Mul(c(), d()));
    assert_eq!(planned(Expression::Div(a(), b())), PlanExpression::Div(c(), d()));
}

#[test]
fn unary_operators_keep_their_operand() {
    assert_eq!(planned(Expression::UnaryPlus(boxed("1"))), PlanExpression::UnaryPlus(part(1)));
    assert_eq!(planned(Expression::UnaryMinus(boxed("1"))), PlanExpression::UnaryMinus(part(1)));
    assert_eq!(planned(Expression::UnaryNot(boxed("1"))), PlanExpression::UnaryNot(part(1)));
}

#[test]
fn lists_are_searched_in_order() {
    let list = || vec![constant("2"), constant("3")];
    assert_eq!(
        planned(Expression::In(boxed("1"), list())),
        PlanExpression::In(part(1), vec![code(2), code(3)])
    );
    assert_eq!(
        planned(Expression::NotIn(boxed("1"), list())),
        PlanExpression::UnaryNot(Box::new(PlanExpression::In(part(1), vec![code(2), code(3)])))
    );
    assert_eq!(
        planned(Expression::In(boxed("1"), vec![])),
        PlanExpression::In(part(1), vec![])
    );
}

#[test]
fn exists_starts_afresh() {
    let inner = GraphPattern::Data(sparql_planner::algebra::StaticBindings {
        variables: vec![],
        values: vec![],
    });
    assert_eq!(
        planned(Expression::Exists(Box::new(inner))),
        PlanExpression::Exists(Box::new(PlanNode::StaticBindings { tuples: vec![] }))
    );
}

#[test]
fn functions_of_no_parameters() {
    assert_eq!(planned(call(Function::Rand, 0)), PlanExpression::Rand);
    assert_eq!(planned(call(Function::Now, 0)), PlanExpression::Now);
    assert_eq!(planned(call(Function::UUID, 0)), PlanExpression::UUID);
    assert_eq!(planned(call(Function::StrUUID, 0)), PlanExpression::StrUUID);
}

#[test]
fn functions_of_one_parameter() {
    assert_eq!(planned(call(Function::Str, 1)), PlanExpression::Str(part(1)));
    assert_eq!(planned(call(Function::Lang, 1)), PlanExpression::Lang(part(1)));
    assert_eq!(planned(call(Function::Datatype, 1)), PlanExpression::Datatype(part(1)));
    assert_eq!(planned(call(Function::IRI, 1)), PlanExpression::IRI(part(1)));
    assert_eq!(planned(call(Function::Abs, 1)), PlanExpression::Abs(part(1)));
    assert_eq!(planned(call(Function::Ceil, 1)), PlanExpression::Ceil(part(1)));
    assert_eq!(planned(call(Function::Floor, 1)), PlanExpression::Floor(part(1)));
    assert_eq!(planned(call(Function::Round, 1)), PlanExpression::Round(part(1)));
    assert_eq!(planned(call(Function::StrLen, 1)), PlanExpression::StrLen(part(1)));
    assert_eq!(planned(call(Function::UCase, 1)), PlanExpression::UCase(part(1)));
    assert_eq!(planned(call(Function::LCase, 1)), PlanExpression::LCase(part(1)));
    assert_eq!(planned(call(Function::EncodeForURI, 1)), PlanExpression::EncodeForURI(part(1)));
    assert_eq!(planned(call(Function::Year, 1)), PlanExpression::Year(part(1)));
    assert_eq!(planned(call(Function::Month, 1)), PlanExpression::Month(part(1)));
    assert_eq!(planned(call(Function::Day, 1)), PlanExpression::Day(part(1)));
    assert_eq!(planned(call(Function::Hours, 1)), PlanExpression::Hours(part(1)));
    assert_eq!(planned(call(Function::Minutes, 1)), PlanExpression::Minutes(part(1)));
    assert_eq!(planned(call(Function::Seconds, 1)), PlanExpression::Seconds(part(1)));
    assert_eq!(planned(call(Function::Timezone, 1)), PlanExpression::Timezone(part(1)));
    assert_eq!(planned(call(Function::Tz, 1)), PlanExpression::Tz(part(1)));
    assert_eq!(planned(call(Function::MD5, 1)), PlanExpression::MD5(part(1)));
    assert_eq!(planned(call(Function::SHA1, 1)), PlanExpression::SHA1(part(1)));
    assert_eq!(planned(call(Function::SHA256, 1)), PlanExpression::SHA256(part(1)));
    assert_eq!(planned(call(Function::SHA384, 1)), PlanExpression::SHA384(part(1)));
    assert_eq!(planned(call(Function::SHA512, 1)), PlanExpression::SHA512(part(1)));
    assert_eq!(planned(call(Function::IsIRI, 1)), PlanExpression::IsIRI(part(1)));
    assert_eq!(planned(call(Function::IsBlank, 1)), PlanExpression::IsBlank(part(1)));
    assert_eq!(planned(call(Function::IsLiteral, 1)), PlanExpression::IsLiteral(part(1)));
    assert_eq!(planned(call(Function::IsNumeric, 1)), PlanExpression::IsNumeric(part(1)));
}

#[test]
fn functions_of_two_parameters() {
    let (a, b) = (|| part(1), || part(2));
    assert_eq!(planned(call(Function::LangMatches, 2)), PlanExpression::LangMatches(a(), b()));
    assert_eq!(planned(call(Function::Contains, 2)), PlanExpression::Contains(a(), b()));
    assert_eq!(planned(call(Function::StrStarts, 2)), PlanExpression::StrStarts(a(), b()));
    assert_eq!(planned(call(Function::StrEnds, 2)), PlanExpression::StrEnds(a(), b()));
    assert_eq!(planned(call(Function::StrBefore, 2)), PlanExpression::StrBefore(a(), b()));
    assert_eq!(planned(call(Function::StrAfter, 2)), PlanExpression::StrAfter(a(), b()));
    assert_eq!(planned(call(Function::StrLang, 2)), PlanExpression::StrLang(a(), b()));
    assert_eq!(planned(call(Function::StrDT, 2)), PlanExpression::StrDT(a(), b()));
    assert_eq!(planned(call(Function::SameTerm, 2)), PlanExpression::SameTerm(a(), b()));
}

#[test]
fn functions_with_an_optional_parameter() {
    assert_eq!(planned(call(Function::BNode, 0)), PlanExpression::BNode(None));
    assert_eq!(planned(call(Function::BNode, 1)), PlanExpression::BNode(Some(part(1))));
    assert_eq!(
        planned(call(Function::SubStr, 2)),
        PlanExpression::SubStr(part(1), part(2), None)
    );
    assert_eq!(
        planned(call(Function::SubStr, 3)),
        PlanExpression::SubStr(part(1), part(2), Some(part(3)))
    );
    assert_eq!(planned(call(Function::Regex, 2)), PlanExpression::Regex(part(1), part(2), None));
    assert_eq!(
        planned(call(Function::Regex, 3)),
        PlanExpression::Regex(part(1), part(2), Some(part(3)))
    );
    assert_eq!(
        planned(call(Function::Replace, 3)),
        PlanExpression::Replace(part(1), part(2), part(3), None)
    );
    assert_eq!(
        planned(call(Function::Replace, 4)),
        PlanExpression::Replace(part(1), part(2), part(3), Some(part(4)))
    );
}

#[test]
fn functions_of_three_or_any_number_of_parameters() {
    assert_eq!(
        planned(call(Function::If, 3)),
        PlanExpression::If(part(1), part(2), part(3))
    );
    assert_eq!(planned(call(Function::Concat, 0)), PlanExpression::Concat(vec![]));
    assert_eq!(
        planned(call(Function::Concat, 3)),
        PlanExpression::Concat(vec![code(1), code(2), code(3)])
    );
    assert_eq!(
        planned(call(Function::Coalesce, 2)),
        PlanExpression::Coalesce(vec![code(1), code(2)])
    );
}

#[test]
fn casts_go_by_their_iri() {
    assert_eq!(planned(cast("boolean", 1)), PlanExpression::BooleanCast(part(1)));
    assert_eq!(planned(cast("double", 1)), PlanExpression::DoubleCast(part(1)));
    assert_eq!(planned(cast("float", 1)), PlanExpression::FloatCast(part(1)));
    assert_eq!(planned(cast("decimal", 1)), PlanExpression::DecimalCast(part(1)));
    assert_eq!(planned(cast("integer", 1)), PlanExpression::IntegerCast(part(1)));
    assert_eq!(planned(cast("date", 1)), PlanExpression::DateCast(part(1)));
    assert_eq!(planned(cast("time", 1)), PlanExpression::TimeCast(part(1)));
    assert_eq!(planned(cast("dateTime", 1)), PlanExpression::DateTimeCast(part(1)));
    assert_eq!(planned(cast("string", 1)), PlanExpression::StringCast(part(1)));
}

#[test]
fn extra_parameters_are_not_even_encoded() {
    let parameters = vec![constant("1"), constant("not a number")];
    assert_eq!(
        planned(Expression::FunctionCall(Function::Str, parameters)),
        PlanExpression::Str(part(1))
    );
    let parameters = vec![constant("not a number")];
    assert_eq!(planned(Expression::FunctionCall(Function::Rand, parameters)), PlanExpression::Rand);
    assert_eq!(planned(call(Function::BNode, 2)), PlanExpression::BNode(Some(part(1))));
}

#[test]
fn cast_of_none_or_of_two_is_an_error() {
    let names = [
        ("boolean", CastTarget::Boolean),
        ("double", CastTarget::Double),
        ("float", CastTarget::Float),
        ("decimal", CastTarget::Decimal),
        ("integer", CastTarget::Integer),
        ("date", CastTarget::Date),
        ("time", CastTarget::Time),
        ("dateTime", CastTarget::DateTime),
        ("string", CastTarget::String),
    ];
    for (name, target) in names {
        for count in [0, 2] {
            let pattern = filter(cast(name, count));
            let result = PlanBuilder::build(&Numbers, &pattern);
            match result {
                Err(Error::CastArity(found)) => {
                    assert_eq!(found, target);
                    assert_eq!(
                        Error::<String>::CastArity(found).message(""),
                        Some(format!("The xsd:{} casting takes only one parameter", name))
                    );
                }
                _ => panic!("a cast takes one parameter"),
            }
        }
    }
}

#[test]
fn cast_arity_is_checked_before_the_parameters() {
    let iri = "http://www.w3.org/2001/XMLSchema#date".to_string();
    let parameters = vec![constant("not a number"), constant("1")];
    let function = Function::Custom(NamedNode { iri });
    let pattern = filter(Expression::FunctionCall(function, parameters));
    let result = PlanBuilder::build(&Numbers, &pattern);
    assert!(matches!(result, Err(Error::CastArity(CastTarget::Date))));
}

#[test]
fn unknown_function_is_an_error() {
    let iri = "http://example.com/f".to_string();
    let pattern = filter(call(Function::Custom(NamedNode { iri }), 1));
    match PlanBuilder::build(&Numbers, &pattern) {
        Err(error) => {
            assert!(matches!(
                &error,
                Error::UnsupportedFunction(Expression::FunctionCall(Function::Custom(name), parameters))
                    if name.iri == "http://example.com/f" && parameters.len() == 1
            ));
            assert_eq!(
                error.message("<http://example.com/f>(1)"),
                Some("Not supported custom function <http://example.com/f>(1)".to_string())
            );
        }
        Ok(_) => panic!("the function is not known"),
    }
}

#[test]
fn store_error_has_no_message_of_the_planner() {
    let pattern = filter(constant("x"));
    match PlanBuilder::build(&Numbers, &pattern) {
        Err(error) => {
            assert!(matches!(&error, Error::Store(value) if value == "x"));
            assert_eq!(error.message(""), None);
        }
        Ok(_) => panic!("the store has no room"),
    }
}

#[test]
fn too_few_parameters_have_no_plan() {
    let calls = vec![
        call(Function::Str, 0),
        call(Function::Contains, 1),
        call(Function::SubStr, 1),
        call(Function::Regex, 0),
        call(Function::Replace, 2),
        call(Function::If, 2),
    ];
    for expression in calls {
        let pattern = filter(expression);
        assert!(PlanBuilder::try_build(&Numbers, &pattern).is_none());
    }
}

#[test]
fn error_in_a_parameter_comes_before_a_missing_one() {
    let parameters = vec![constant("x")];
    let pattern = filter(Expression::FunctionCall(Function::Contains, parameters));
    let result = PlanBuilder::try_build(&Numbers, &pattern);
    assert!(matches!(&result, Some(Err(Error::Store(value))) if value == "x"));
}

#[test]
fn copies_of_plans_are_equal() {
    let pattern = filter(Expression::NotIn(
        Box::new(call(Function::Replace, 4)),
        vec![call(Function::If, 3), cast("date", 1), Expression::Bound(named("b"))],
    ));
    let (plan, _) = PlanBuilder::build(&Numbers, &pattern).unwrap();
    assert_eq!(plan.clone(), plan);
    let joined = PlanNode::LeftJoin {
        left: Box::new(plan.clone()),
        right: Box::new(PlanNode::Init),
        possible_problem_vars: vec![1, 2],
    };
    assert_eq!(joined.clone(), joined);
}

#[test]
fn plans_mention_their_positions() {
    let pattern = filter(Expression::And(
        Box::new(variable("a")),
        Box::new(Expression::Bound(named("b"))),
    ));
    let (plan, _) = PlanBuilder::build(&Numbers, &pattern).unwrap();
    assert!(plan.mentions(0));
    assert!(plan.mentions(1));
    assert!(!plan.mentions(2));
    assert!(PatternValue::Variable(3).is_at(3));
    assert!(!PatternValue::Variable(3).is_at(2));
}

#[test]
fn not_in_fails_as_in_fails() {
    let list = || vec![constant("2"), constant("x"), constant("y")];
    let search = filter(Expression::In(boxed("1"), list()));
    let negation = filter(Expression::NotIn(boxed("1"), list()));
    for pattern in [search, negation] {
        let result = PlanBuilder::build(&Numbers, &pattern);
        assert!(matches!(&result, Err(Error::Store(value)) if value == "x"));
    }
}
