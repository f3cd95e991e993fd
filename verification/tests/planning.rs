use sparql_planner::algebra::{
    Expression, Function, GraphPattern, GroupPattern, NamedNodeOrVariable, OrderComparator,
    PathPattern, PropertyPath, StaticBindings, TermOrVariable, TripleOrPathPattern, TriplePattern,
};
use sparql_planner::builder::PlanBuilder;
use sparql_planner::error::Error;
use sparql_planner::model::{Literal, NamedNode, Term, Variable};
use sparql_planner::plan::{Comparator, PatternValue, PlanExpression, PlanNode};
use sparql_planner::store::{EncodedTerm, StoreConnection};
use std::cell::RefCell;

/// Numbers terms in the order in which it first meets them, and remembers all that it was asked.
struct Memory {
    known: RefCell<Vec<String>>,
    asked: RefCell<Vec<String>>,
    refused: Vec<String>,
}

impl Memory {
    fn new() -> Memory {
        Memory::refusing(&[])
    }

    fn refusing(refused: &[&str]) -> Memory {
        Memory {
            known: RefCell::new(Vec::new()),
            asked: RefCell::new(Vec::new()),
            refused: refused.iter().map(|text| text.to_string()).collect(),
        }
    }

    fn encode(&self, text: String) -> Result<EncodedTerm, String> {
        self.asked.borrow_mut().push(text.clone());
        if self.refused.contains(&text) {
            return Err(format!("no room for {}", text));
        }
        let mut known = self.known.borrow_mut();
        let place = match known.iter().position(|other| *other == text) {
            Some(place) => place,
            None => {
                known.push(text);
                known.len() - 1
            }
        };
        Ok(EncodedTerm::Stored(place as u64))
    }

    fn questions(&self) -> Vec<String> {
        self.asked.borrow().clone()
    }
}

fn written(term: &Term) -> String {
    match term {
        Term::NamedNode(node) => node.iri.clone(),
        Term::BlankNode(node) => format!("_:{}", node.id),
        Term::Literal(Literal::Simple { value }) => value.clone(),
        Term::Literal(Literal::LanguageTagged { value, language }) => {
            format!("{}@{}", value, language)
        }
        Term::Literal(Literal::Typed { value, datatype }) => {
            format!("{}^^{}", value, datatype.iri)
        }
    }
}

impl StoreConnection for Memory {
    type Error = String;

    fn encode_term(&self, term: &Term) -> Result<EncodedTerm, String> {
        self.encode(written(term))
    }

    fn encode_named_node(&self, named_node: &NamedNode) -> Result<EncodedTerm, String> {
        self.encode(named_node.iri.clone())
    }
}

fn node(iri: &str) -> NamedNode {
    NamedNode { iri: iri.to_string() }
}

fn named(name: &str) -> Variable {
    Variable::Named { name: name.to_string() }
}

fn text(value: &str) -> Term {
    Term::Literal(Literal::Simple { value: value.to_string() })
}

/// `?name` is a variable, anything else an IRI.
fn end(written: &str) -> TermOrVariable {
    match written.strip_prefix('?') {
        Some(name) => TermOrVariable::Variable(named(name)),
        None => TermOrVariable::Term(Term::NamedNode(node(written))),
    }
}

fn middle(written: &str) -> NamedNodeOrVariable {
    match written.strip_prefix('?') {
        Some(name) => NamedNodeOrVariable::Variable(named(name)),
        None => NamedNodeOrVariable::NamedNode(node(written)),
    }
}

fn triple(subject: &str, predicate: &str, object: &str) -> TripleOrPathPattern {
    TripleOrPathPattern::Triple(TriplePattern {
        subject: end(subject),
        predicate: middle(predicate),
        object: end(object),
    })
}

fn path(subject: &str, object: &str) -> TripleOrPathPattern {
    TripleOrPathPattern::Path(PathPattern {
        subject: end(subject),
        path: PropertyPath::Predicate(node("p")),
        object: end(object),
    })
}

fn one(subject: &str, predicate: &str, object: &str) -> Box<GraphPattern> {
    Box::new(GraphPattern::BGP(vec![triple(subject, predicate, object)]))
}

fn nothing() -> Box<GraphPattern> {
    Box::new(GraphPattern::BGP(Vec::new()))
}

fn variable(name: &str) -> Expression {
    Expression::Constant(TermOrVariable::Variable(named(name)))
}

fn constant(value: &str) -> Expression {
    Expression::Constant(TermOrVariable::Term(text(value)))
}

fn literal_true() -> Expression {
    Expression::Constant(TermOrVariable::Term(Term::Literal(Literal::Typed {
        value: "true".to_string(),
        datatype: node("http://www.w3.org/2001/XMLSchema#boolean"),
    })))
}

fn code(place: u64) -> PatternValue {
    PatternValue::Constant(EncodedTerm::Stored(place))
}

fn at(position: usize) -> PatternValue {
    PatternValue::Variable(position)
}

fn default_graph() -> PatternValue {
    PatternValue::Constant(EncodedTerm::DefaultGraph)
}

fn quad(
    child: PlanNode,
    subject: PatternValue,
    predicate: PatternValue,
    object: PatternValue,
) -> PlanNode {
    quad_in(child, subject, predicate, object, default_graph())
}

fn quad_in(
    child: PlanNode,
    subject: PatternValue,
    predicate: PatternValue,
    object: PatternValue,
    graph_name: PatternValue,
) -> PlanNode {
    PlanNode::QuadPatternJoin { child: Box::new(child), subject, predicate, object, graph_name }
}

fn plan_of(pattern: &GraphPattern) -> (PlanNode, Vec<Variable>) {
    let store = Memory::new();
    PlanBuilder::build(&store, pattern).unwrap()
}

#[test]
fn empty_pattern_is_init() {
    let (plan, variables) = plan_of(&GraphPattern::BGP(Vec::new()));
    assert_eq!(plan, PlanNode::Init);
    assert!(variables.is_empty());
}

#[test]
fn triple_is_a_quad_pattern_in_the_default_graph() {
    let store = Memory::new();
    let pattern = GraphPattern::BGP(vec![triple("?s", "knows", "bob")]);
    let (plan, variables) = PlanBuilder::build(&store, &pattern).unwrap();
    assert_eq!(plan, quad(PlanNode::Init, at(0), code(0), code(1)));
    assert!(variables == vec![named("s")]);
    assert_eq!(store.questions(), vec!["knows", "bob"]);
}

#[test]
fn one_variable_has_one_position() {
    let (plan, variables) = plan_of(&GraphPattern::BGP(vec![triple("?a", "?b", "?a")]));
    assert_eq!(plan, quad(PlanNode::Init, at(0), at(1), at(0)));
    assert!(variables == vec![named("a"), named("b")]);
}

#[test]
fn triples_are_joined_by_what_is_known() {
    // Most is known of the last triple; then ?x is known, and the first one is best.
    let pattern = GraphPattern::BGP(vec![
        triple("?x", "p", "?y"),
        triple("?z", "q", "?w"),
        triple("?x", "r", "c"),
    ]);
    let (plan, variables) = plan_of(&pattern);
    let first = quad(PlanNode::Init, at(0), code(0), code(1));
    let second = quad(first, at(0), code(2), at(1));
    let third = quad(second, at(2), code(3), at(3));
    assert_eq!(plan, third);
    assert!(variables == vec![named("x"), named("y"), named("z"), named("w")]);
}

#[test]
fn triples_of_one_rank_stay_in_order() {
    let pattern = GraphPattern::BGP(vec![triple("?a", "p", "?b"), triple("?c", "q", "?d")]);
    let (plan, _) = plan_of(&pattern);
    let first = quad(PlanNode::Init, at(0), code(0), at(1));
    assert_eq!(plan, quad(first, at(2), code(1), at(3)));
}

#[test]
fn join_plans_the_left_side_first() {
    let (plan, variables) = plan_of(&GraphPattern::Join(one("?a", "p", "?b"), one("?b", "q", "?c")));
    assert_eq!(
        plan,
        PlanNode::Join {
            left: Box::new(quad(PlanNode::Init, at(0), code(0), at(1))),
            right: Box::new(quad(PlanNode::Init, at(1), code(1), at(2))),
        }
    );
    assert!(variables == vec![named("a"), named("b"), named("c")]);
}

#[test]
fn minus_is_an_anti_join() {
    let (plan, _) = plan_of(&GraphPattern::Minus(one("?a", "p", "?b"), one("?a", "q", "?c")));
    assert_eq!(
        plan,
        PlanNode::AntiJoin {
            left: Box::new(quad(PlanNode::Init, at(0), code(0), at(1))),
            right: Box::new(quad(PlanNode::Init, at(0), code(1), at(2))),
        }
    );
}

#[test]
fn left_join_on_true_has_no_filter() {
    let store = Memory::new();
    let pattern =
        GraphPattern::LeftJoin(one("?a", "p", "?b"), one("?b", "q", "?c"), literal_true());
    let (plan, _) = PlanBuilder::build(&store, &pattern).unwrap();
    assert_eq!(
        plan,
        PlanNode::LeftJoin {
            left: Box::new(quad(PlanNode::Init, at(0), code(0), at(1))),
            right: Box::new(quad(PlanNode::Init, at(1), code(1), at(2))),
            possible_problem_vars: vec![2],
        }
    );
    assert_eq!(store.questions(), vec!["p", "q"]);
}

#[test]
fn left_join_on_plain_text_true_has_a_filter() {
    let pattern = GraphPattern::LeftJoin(nothing(), nothing(), constant("true"));
    let (plan, _) = plan_of(&pattern);
    assert_eq!(
        plan,
        PlanNode::LeftJoin {
            left: Box::new(PlanNode::Init),
            right: Box::new(PlanNode::Filter {
                child: Box::new(PlanNode::Init),
                expression: PlanExpression::Constant(EncodedTerm::Stored(0)),
            }),
            possible_problem_vars: vec![],
        }
    );
}

#[test]
fn left_join_condition_can_make_problem_variables() {
    let condition = Expression::And(Box::new(variable("d")), Box::new(variable("a")));
    let pattern = GraphPattern::LeftJoin(one("?a", "p", "?b"), one("?c", "?b", "?c"), condition);
    let (plan, variables) = plan_of(&pattern);
    assert_eq!(
        plan,
        PlanNode::LeftJoin {
            left: Box::new(quad(PlanNode::Init, at(0), code(0), at(1))),
            right: Box::new(PlanNode::Filter {
                child: Box::new(quad(PlanNode::Init, at(2), at(1), at(2))),
                expression: PlanExpression::And(
                    Box::new(PlanExpression::Variable(3)),
                    Box::new(PlanExpression::Variable(0)),
                ),
            }),
            possible_problem_vars: vec![2, 3],
        }
    );
    assert!(variables == vec![named("a"), named("b"), named("c"), named("d")]);
}

#[test]
fn filter_plans_its_pattern_first() {
    let store = Memory::new();
    let pattern = GraphPattern::Filter(constant("yes"), one("?a", "p", "?b"));
    let (plan, _) = PlanBuilder::build(&store, &pattern).unwrap();
    assert_eq!(
        plan,
        PlanNode::Filter {
            child: Box::new(quad(PlanNode::Init, at(0), code(0), at(1))),
            expression: PlanExpression::Constant(EncodedTerm::Stored(1)),
        }
    );
    assert_eq!(store.questions(), vec!["p", "yes"]);
}

#[test]
fn unions_are_flat_and_run_backwards() {
    let pattern = GraphPattern::Union(
        Box::new(GraphPattern::Union(one("?a", "p", "?a"), one("?b", "q", "?b"))),
        one("?c", "r", "?c"),
    );
    let (plan, variables) = plan_of(&pattern);
    assert_eq!(
        plan,
        PlanNode::Union {
            entry: Box::new(PlanNode::Init),
            children: vec![
                quad(PlanNode::Init, at(0), code(0), at(0)),
                quad(PlanNode::Init, at(1), code(1), at(1)),
                quad(PlanNode::Init, at(2), code(2), at(2)),
            ],
        }
    );
    assert!(variables == vec![named("c"), named("b"), named("a")]);
}

#[test]
fn nesting_of_unions_is_irrelevant() {
    let left = GraphPattern::Union(
        Box::new(GraphPattern::Union(one("?a", "p", "?a"), one("?b", "q", "?b"))),
        one("?c", "r", "?c"),
    );
    let right = GraphPattern::Union(
        one("?a", "p", "?a"),
        Box::new(GraphPattern::Union(one("?b", "q", "?b"), one("?c", "r", "?c"))),
    );
    let (left_plan, left_variables) = plan_of(&left);
    let (right_plan, right_variables) = plan_of(&right);
    assert_eq!(left_plan, right_plan);
    assert!(left_variables == right_variables);
}

#[test]
fn graph_clause_names_the_graph() {
    let (plan, _) = plan_of(&GraphPattern::Graph(middle("g"), one("?a", "p", "?b")));
    assert_eq!(plan, quad_in(PlanNode::Init, at(0), code(1), at(1), code(0)));
}

#[test]
fn graph_variable_is_numbered_first() {
    let pattern = GraphPattern::Join(
        Box::new(GraphPattern::Graph(middle("?g"), one("?a", "p", "?b"))),
        one("?a", "p", "?g"),
    );
    let (plan, variables) = plan_of(&pattern);
    assert_eq!(
        plan,
        PlanNode::Join {
            left: Box::new(quad_in(PlanNode::Init, at(1), code(0), at(2), at(0))),
            right: Box::new(quad(PlanNode::Init, at(1), code(0), at(0))),
        }
    );
    assert!(variables == vec![named("g"), named("a"), named("b")]);
}

#[test]
fn graph_clause_reaches_into_exists() {
    let exists = Expression::Exists(one("?a", "p", "?b"));
    let pattern = GraphPattern::Graph(middle("g"), Box::new(GraphPattern::Filter(exists, nothing())));
    let (plan, _) = plan_of(&pattern);
    assert_eq!(
        plan,
        PlanNode::Filter {
            child: Box::new(PlanNode::Init),
            expression: PlanExpression::Exists(Box::new(quad_in(
                PlanNode::Init,
                at(0),
                code(1),
                at(1),
                code(0),
            ))),
        }
    );
}

#[test]
fn extend_numbers_its_variable_before_its_expression() {
    let pattern = GraphPattern::Extend(one("?a", "p", "?b"), named("c"), variable("d"));
    let (plan, variables) = plan_of(&pattern);
    assert_eq!(
        plan,
        PlanNode::Extend {
            child: Box::new(quad(PlanNode::Init, at(0), code(0), at(1))),
            position: 2,
            expression: PlanExpression::Variable(3),
        }
    );
    assert!(variables == vec![named("a"), named("b"), named("c"), named("d")]);
}

#[test]
fn bindings_fill_the_places_of_their_variables() {
    let bindings = StaticBindings {
        variables: vec![named("y"), named("x")],
        values: vec![
            vec![Some(text("1")), Some(text("2"))],
            vec![None, Some(text("1"))],
            vec![Some(text("3"))],
            vec![],
        ],
    };
    let pattern = GraphPattern::Project(
        Box::new(GraphPattern::Data(bindings)),
        vec![named("x"), named("y"), named("z")],
    );
    let (plan, variables) = plan_of(&pattern);
    let stored = |place: u64| Some(EncodedTerm::Stored(place));
    assert_eq!(
        plan,
        PlanNode::Project {
            child: Box::new(PlanNode::StaticBindings {
                tuples: vec![
                    vec![stored(1), stored(0), None],
                    vec![stored(0), None, None],
                    vec![None, stored(2), None],
                    vec![None, None, None],
                ],
            }),
            mapping: vec![0, 1, 2],
        }
    );
    assert!(variables == vec![named("x"), named("y"), named("z")]);
}

#[test]
fn bindings_without_values_need_no_variables() {
    let bindings = StaticBindings { variables: vec![named("x")], values: vec![vec![None]] };
    let (plan, variables) = plan_of(&GraphPattern::Data(bindings));
    assert_eq!(plan, PlanNode::StaticBindings { tuples: vec![vec![]] });
    assert!(variables.is_empty());
}

#[test]
fn bindings_of_known_variables_follow_a_pattern() {
    let bindings =
        StaticBindings { variables: vec![named("b")], values: vec![vec![Some(text("1"))]] };
    let pattern =
        GraphPattern::Join(one("?a", "p", "?b"), Box::new(GraphPattern::Data(bindings)));
    let (plan, _) = plan_of(&pattern);
    assert_eq!(
        plan,
        PlanNode::Join {
            left: Box::new(quad(PlanNode::Init, at(0), code(0), at(1))),
            right: Box::new(PlanNode::StaticBindings {
                tuples: vec![vec![None, Some(EncodedTerm::Stored(1))]],
            }),
        }
    );
}

#[test]
fn sort_keys_come_before_their_pattern() {
    let store = Memory::new();
    let order = vec![OrderComparator::Desc(variable("b")), OrderComparator::Asc(constant("k"))];
    let pattern = GraphPattern::OrderBy(one("?a", "p", "?b"), order);
    let (plan, variables) = PlanBuilder::build(&store, &pattern).unwrap();
    assert_eq!(
        plan,
        PlanNode::Sort {
            child: Box::new(quad(PlanNode::Init, at(1), code(1), at(0))),
            by: vec![
                Comparator::Desc(PlanExpression::Variable(0)),
                Comparator::Asc(PlanExpression::Constant(EncodedTerm::Stored(0))),
            ],
        }
    );
    assert!(variables == vec![named("b"), named("a")]);
    assert_eq!(store.questions(), vec!["k", "p"]);
}

#[test]
fn failed_sort_key_stops_the_keys_but_not_the_pattern() {
    let store = Memory::refusing(&["k"]);
    let order = vec![OrderComparator::Asc(constant("k")), OrderComparator::Asc(constant("l"))];
    let pattern = GraphPattern::OrderBy(one("?a", "p", "?b"), order);
    let result = PlanBuilder::build(&store, &pattern);
    assert!(matches!(&result, Err(Error::Store(message)) if message == "no room for k"));
    assert_eq!(store.questions(), vec!["k", "p"]);
}

#[test]
fn failed_pattern_comes_before_its_sort_keys() {
    let store = Memory::refusing(&["k", "p"]);
    let order = vec![OrderComparator::Asc(constant("k"))];
    let pattern = GraphPattern::OrderBy(one("?a", "p", "?b"), order);
    let result = PlanBuilder::build(&store, &pattern);
    assert!(matches!(&result, Err(Error::Store(message)) if message == "no room for p"));
}

#[test]
fn top_projection_sets_the_order_of_the_variables() {
    let pattern = GraphPattern::Project(one("?a", "p", "?b"), vec![named("b"), named("a")]);
    let (plan, variables) = plan_of(&pattern);
    assert_eq!(
        plan,
        PlanNode::Project {
            child: Box::new(quad(PlanNode::Init, at(1), code(0), at(0))),
            mapping: vec![0, 1],
        }
    );
    assert!(variables == vec![named("b"), named("a")]);
}

#[test]
fn inner_variables_stay_inside_a_projection() {
    let inner = GraphPattern::Project(one("?hidden", "q", "?b"), vec![named("c"), named("b")]);
    let pattern = GraphPattern::Join(one("?a", "p", "?b"), Box::new(inner));
    let (plan, variables) = plan_of(&pattern);
    assert_eq!(
        plan,
        PlanNode::Join {
            left: Box::new(quad(PlanNode::Init, at(0), code(0), at(1))),
            right: Box::new(PlanNode::Project {
                child: Box::new(quad(PlanNode::Init, at(2), code(1), at(1))),
                mapping: vec![2, 1],
            }),
        }
    );
    assert!(variables == vec![named("a"), named("b"), named("c")]);
}

#[test]
fn variable_projected_twice_has_one_position() {
    let pattern = GraphPattern::Project(nothing(), vec![named("a"), named("a")]);
    let (plan, variables) = plan_of(&pattern);
    assert_eq!(plan, PlanNode::Project { child: Box::new(PlanNode::Init), mapping: vec![0, 0] });
    assert!(variables == vec![named("a")]);
}

#[test]
fn projection_counts_its_own_positions_in_a_left_join() {
    let inner = GraphPattern::Project(one("?hidden", "q", "?c"), vec![named("c")]);
    let pattern = GraphPattern::LeftJoin(one("?a", "p", "?b"), Box::new(inner), literal_true());
    let (plan, variables) = plan_of(&pattern);
    assert_eq!(
        plan,
        PlanNode::LeftJoin {
            left: Box::new(quad(PlanNode::Init, at(0), code(0), at(1))),
            right: Box::new(PlanNode::Project {
                child: Box::new(quad(PlanNode::Init, at(1), code(1), at(0))),
                mapping: vec![2],
            }),
            possible_problem_vars: vec![2],
        }
    );
    assert!(variables == vec![named("a"), named("b"), named("c")]);
}

#[test]
fn distinct_removes_duplicates() {
    let (plan, _) = plan_of(&GraphPattern::Distinct(nothing()));
    assert_eq!(plan, PlanNode::HashDeduplicate { child: Box::new(PlanNode::Init) });
}

#[test]
fn reduced_leaves_its_pattern_as_it_is() {
    let (plan, _) = plan_of(&GraphPattern::Reduced(one("?a", "p", "?b")));
    assert_eq!(plan, quad(PlanNode::Init, at(0), code(0), at(1)));
}

#[test]
fn slice_skips_and_then_limits() {
    let (plan, _) = plan_of(&GraphPattern::Slice(nothing(), 2, Some(5)));
    let rest = PlanNode::Skip { child: Box::new(PlanNode::Init), count: 2 };
    assert_eq!(plan, PlanNode::Limit { child: Box::new(rest), count: 5 });
}

#[test]
fn slice_leaves_out_what_it_does_not_need() {
    let (plan, _) = plan_of(&GraphPattern::Slice(nothing(), 0, None));
    assert_eq!(plan, PlanNode::Init);
    let (plan, _) = plan_of(&GraphPattern::Slice(nothing(), 3, None));
    assert_eq!(plan, PlanNode::Skip { child: Box::new(PlanNode::Init), count: 3 });
    let (plan, _) = plan_of(&GraphPattern::Slice(nothing(), 0, Some(0)));
    assert_eq!(plan, PlanNode::Limit { child: Box::new(PlanNode::Init), count: 0 });
}

#[test]
fn store_errors_are_passed_on() {
    let store = Memory::refusing(&["bob"]);
    let pattern = GraphPattern::Join(one("?a", "knows", "bob"), one("?a", "likes", "tea"));
    let result = PlanBuilder::build(&store, &pattern);
    assert!(matches!(&result, Err(Error::Store(message)) if message == "no room for bob"));
    assert_eq!(store.questions(), vec!["knows", "bob"]);
}

#[test]
fn query_has_a_plan_if_and_only_if_its_constants_have_codes() {
    let union = GraphPattern::Union(one("?a", "p", "x"), one("?a", "q", "y"));
    let filter = GraphPattern::Filter(constant("f"), Box::new(union));
    let order = vec![OrderComparator::Asc(constant("k"))];
    let pattern = GraphPattern::OrderBy(Box::new(filter), order);
    let constants = ["k", "q", "y", "p", "x", "f"];

    let store = Memory::new();
    assert!(PlanBuilder::build(&store, &pattern).is_ok());
    assert_eq!(store.questions(), constants);

    for refused in constants {
        let store = Memory::refusing(&[refused]);
        let result = PlanBuilder::build(&store, &pattern);
        let expected = format!("no room for {}", refused);
        assert!(matches!(&result, Err(Error::Store(message)) if *message == expected));
    }

    let store = Memory::refusing(&["z"]);
    assert!(PlanBuilder::build(&store, &pattern).is_ok());
}

#[test]
fn rejected_call_has_no_plan_though_every_constant_has_a_code() {
    let store = Memory::new();
    let function = Function::Custom(node("unknown"));
    let call = Expression::FunctionCall(function, vec![constant("1")]);
    let negated = Expression::UnaryNot(Box::new(call));
    let pattern = GraphPattern::Filter(negated, one("?a", "p", "?b"));
    let result = PlanBuilder::build(&store, &pattern);
    assert!(matches!(&result, Err(Error::UnsupportedFunction(_))));
    assert_eq!(store.questions(), vec!["p"]);
}

#[test]
fn planning_again_gives_the_same_plan() {
    let store = Memory::new();
    let pattern = GraphPattern::Join(one("?a", "p", "x"), one("?b", "q", "y"));
    let (first, first_variables) = PlanBuilder::build(&store, &pattern).unwrap();
    let (second, second_variables) = PlanBuilder::build(&store, &pattern).unwrap();
    assert_eq!(first, second);
    assert!(first_variables == second_variables);
}

#[test]
fn try_build_agrees_with_build() {
    let pattern = GraphPattern::Filter(variable("a"), one("?a", "p", "?b"));
    let store = Memory::new();
    let (plan, variables) = PlanBuilder::try_build(&store, &pattern).unwrap().unwrap();
    let (same_plan, same_variables) = plan_of(&pattern);
    assert_eq!(plan, same_plan);
    assert!(variables == same_variables);
}

#[test]
fn property_path_has_no_plan() {
    let store = Memory::new();
    let pattern = GraphPattern::BGP(vec![path("?a", "?b"), triple("?a", "q", "c")]);
    assert!(PlanBuilder::try_build(&store, &pattern).is_none());
    assert_eq!(store.questions(), vec!["q", "c"]);
}

#[test]
fn error_before_a_property_path_is_reported() {
    let store = Memory::refusing(&["q"]);
    let pattern = GraphPattern::BGP(vec![path("?a", "?b"), triple("?a", "q", "c")]);
    let result = PlanBuilder::try_build(&store, &pattern);
    assert!(matches!(&result, Some(Err(Error::Store(message))) if message == "no room for q"));
}

#[test]
fn service_has_no_plan() {
    let store = Memory::new();
    let pattern = GraphPattern::Service(middle("s"), nothing(), true);
    assert!(PlanBuilder::try_build(&store, &pattern).is_none());
}

#[test]
fn aggregation_has_no_plan() {
    let store = Memory::new();
    let group = GroupPattern(vec![variable("a")], nothing());
    let pattern = GraphPattern::AggregateJoin(group, vec![named("n")]);
    assert!(PlanBuilder::try_build(&store, &pattern).is_none());
}

#[test]
fn bindings_of_unknown_variables_have_no_plan() {
    let store = Memory::new();
    let bindings =
        StaticBindings { variables: vec![named("x")], values: vec![vec![Some(text("1"))]] };
    assert!(PlanBuilder::try_build(&store, &GraphPattern::Data(bindings)).is_none());
    assert_eq!(store.questions(), vec!["1"]);
}

#[test]
fn bindings_with_more_values_than_variables_have_no_plan() {
    let store = Memory::new();
    let bindings = StaticBindings {
        variables: vec![named("x")],
        values: vec![vec![Some(text("1")), Some(text("2"))]],
    };
    let pattern =
        GraphPattern::Project(Box::new(GraphPattern::Data(bindings)), vec![named("x")]);
    assert!(PlanBuilder::try_build(&store, &pattern).is_none());
}

#[test]
fn trailing_gaps_in_bindings_do_no_harm() {
    let bindings = StaticBindings {
        variables: vec![named("x")],
        values: vec![vec![Some(text("1")), None]],
    };
    let pattern =
        GraphPattern::Project(Box::new(GraphPattern::Data(bindings)), vec![named("x")]);
    let (plan, _) = plan_of(&pattern);
    assert_eq!(
        plan,
        PlanNode::Project {
            child: Box::new(PlanNode::StaticBindings {
                tuples: vec![vec![Some(EncodedTerm::Stored(0))]],
            }),
            mapping: vec![0],
        }
    );
}

#[test]
fn unnamed_variables_are_variables_of_a_pattern() {
    let pattern = GraphPattern::BGP(vec![TripleOrPathPattern::Triple(TriplePattern {
        subject: TermOrVariable::Variable(Variable::Unnamed { id: 7 }),
        predicate: middle("p"),
        object: TermOrVariable::Variable(Variable::Unnamed { id: 8 }),
    })]);
    let (plan, variables) = plan_of(&pattern);
    assert_eq!(plan, quad(PlanNode::Init, at(0), code(0), at(1)));
    assert!(variables == vec![Variable::Unnamed { id: 7 }, Variable::Unnamed { id: 8 }]);
}

#[test]
fn graph_named_outside_a_projection_can_be_a_problem_variable() {
    // Inside the projection ?x and ?y are 0 and 1; the graph is at 2, where ?g is outside.
    let left_join = GraphPattern::LeftJoin(nothing(), one("?x", "p", "?y"), literal_true());
    let inner = GraphPattern::Project(Box::new(left_join), vec![named("x")]);
    let pattern = GraphPattern::Join(
        one("?a", "q", "?b"),
        Box::new(GraphPattern::Graph(middle("?g"), Box::new(inner))),
    );
    let (plan, variables) = plan_of(&pattern);
    assert_eq!(
        plan,
        PlanNode::Join {
            left: Box::new(quad(PlanNode::Init, at(0), code(0), at(1))),
            right: Box::new(PlanNode::Project {
                child: Box::new(PlanNode::LeftJoin {
                    left: Box::new(PlanNode::Init),
                    right: Box::new(quad_in(PlanNode::Init, at(0), code(1), at(1), at(2))),
                    possible_problem_vars: vec![0, 1, 2],
                }),
                mapping: vec![3],
            }),
        }
    );
    assert!(variables == vec![named("a"), named("b"), named("g"), named("x")]);
}

#[test]
fn renaming_leaves_the_plan_as_it_is() {
    let query = |a: &str, b: &str, c: &str| {
        let (x, y, z) = (format!("?{}", a), format!("?{}", b), format!("?{}", c));
        GraphPattern::LeftJoin(
            Box::new(GraphPattern::BGP(vec![triple(&x, "p", &y), triple(&y, "q", "o")])),
            Box::new(GraphPattern::Graph(middle(&z), one(&z, "r", &x))),
            Expression::And(
                Box::new(Expression::Bound(named(c))),
                Box::new(Expression::Equal(Box::new(variable(a)), Box::new(variable(b)))),
            ),
        )
    };
    let (plan, variables) = plan_of(&query("a", "b", "c"));
    let (same_plan, other_variables) = plan_of(&query("b", "c", "a"));
    assert_eq!(plan, same_plan);
    assert!(variables == vec![named("b"), named("a"), named("c")]);
    assert!(other_variables == vec![named("c"), named("b"), named("a")]);
}

#[test]
fn values_after_a_union_need_only_one_side_of_it() {
    // The right side of a union is planned first, and numbers ?b for the left side.
    let bindings =
        StaticBindings { variables: vec![named("b")], values: vec![vec![Some(text("1"))]] };
    let pattern =
        GraphPattern::Union(Box::new(GraphPattern::Data(bindings)), one("?a", "p", "?b"));
    let (plan, variables) = plan_of(&pattern);
    assert_eq!(
        plan,
        PlanNode::Union {
            entry: Box::new(PlanNode::Init),
            children: vec![
                quad(PlanNode::Init, at(0), code(0), at(1)),
                PlanNode::StaticBindings {
                    tuples: vec![vec![None, Some(EncodedTerm::Stored(1))]],
                },
            ],
        }
    );
    assert!(variables == vec![named("a"), named("b")]);
}
