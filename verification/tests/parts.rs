use sparql_planner::algebra::{
    NamedNodeOrVariable, PathPattern, PropertyPath, TermOrVariable, TripleOrPathPattern,
    TriplePattern,
};
use sparql_planner::model::{NamedNode, Term, Variable};
use sparql_planner::numbering::{slice_key, variable_key};
use sparql_planner::ordering::{add_pattern_variables, count_pattern_binds, sort_bgp};
use sparql_planner::xsd::{cast_target, CastTarget};

fn node(iri: &str) -> NamedNode {
    NamedNode { iri: iri.to_string() }
}

fn named(name: &str) -> Variable {
    Variable::Named { name: name.to_string() }
}

fn end(written: &str) -> TermOrVariable {
    match written.strip_prefix('?') {
        Some(name) => TermOrVariable::Variable(named(name)),
        None => TermOrVariable::Term(Term::NamedNode(node(written))),
    }
}

fn triple(subject: &str, predicate: &str, object: &str) -> TripleOrPathPattern {
    let predicate = match predicate.strip_prefix('?') {
        Some(name) => NamedNodeOrVariable::Variable(named(name)),
        None => NamedNodeOrVariable::NamedNode(node(predicate)),
    };
    TripleOrPathPattern::Triple(TriplePattern {
        subject: end(subject),
        predicate,
        object: end(object),
    })
}

fn path(subject: &str, object: &str) -> TripleOrPathPattern {
    TripleOrPathPattern::Path(PathPattern {
        subject: end(subject),
        path: PropertyPath::ZeroOrMore(Box::new(PropertyPath::Predicate(node("p")))),
        object: end(object),
    })
}

/// The places of the sorted patterns in the list that they come from.
fn places(patterns: &[TripleOrPathPattern]) -> Vec<usize> {
    sort_bgp(patterns)
        .iter()
        .map(|sorted| patterns.iter().position(|given| std::ptr::eq(*sorted, given)).unwrap())
        .collect()
}

#[test]
fn slice_key_is_the_first_place() {
    assert_eq!(slice_key(&[5u8, 6, 7, 6], &6), Some(1));
    assert_eq!(slice_key(&[5u8, 6, 7], &8), None);
    assert_eq!(slice_key::<u8>(&[], &8), None);
}

#[test]
fn variable_key_numbers_each_variable_once() {
    let mut variables = Vec::new();
    assert_eq!(variable_key(&mut variables, &named("a")), 0);
    assert_eq!(variable_key(&mut variables, &named("b")), 1);
    assert_eq!(variable_key(&mut variables, &named("a")), 0);
    assert_eq!(variable_key(&mut variables, &Variable::Unnamed { id: 1 }), 2);
    assert!(variables == vec![named("a"), named("b"), Variable::Unnamed { id: 1 }]);
}

#[test]
fn variables_differ_by_name_or_identifier() {
    assert!(named("a") == named("a"));
    assert!(named("a") != named("b"));
    assert!(Variable::Unnamed { id: 1 } == Variable::Unnamed { id: 1 });
    assert!(Variable::Unnamed { id: 1 } != Variable::Unnamed { id: 2 });
    assert!(named("1") != Variable::Unnamed { id: 1 });
    assert!(named("a").has_name());
    assert!(!Variable::Unnamed { id: 1 }.has_name());
}

#[test]
fn binds_are_constants_and_assigned_variables() {
    let x = named("x");
    let none = Vec::new();
    let assigned = vec![&x];
    assert_eq!(count_pattern_binds(&triple("?x", "?y", "?z"), &none), 0);
    assert_eq!(count_pattern_binds(&triple("?x", "?y", "?z"), &assigned), 1);
    assert_eq!(count_pattern_binds(&triple("?x", "?x", "?x"), &assigned), 3);
    assert_eq!(count_pattern_binds(&triple("a", "p", "?z"), &none), 2);
    assert_eq!(count_pattern_binds(&triple("a", "p", "b"), &none), 3);
    assert_eq!(count_pattern_binds(&path("a", "b"), &none), 2);
    assert_eq!(count_pattern_binds(&path("?x", "?y"), &none), 0);
    assert_eq!(count_pattern_binds(&path("?x", "?y"), &assigned), 1);
}

#[test]
fn pattern_assigns_its_variables() {
    let first = triple("?a", "?b", "c");
    let second = path("?d", "e");
    let mut variables = Vec::new();
    add_pattern_variables(&first, &mut variables);
    add_pattern_variables(&second, &mut variables);
    assert_eq!(count_pattern_binds(&triple("?a", "?b", "?d"), &variables), 3);
    assert_eq!(count_pattern_binds(&triple("?e", "?c", "?f"), &variables), 0);
}

#[test]
fn sorting_keeps_every_pattern() {
    let patterns = vec![
        triple("?a", "?b", "?c"),
        path("?c", "d"),
        triple("?a", "?b", "?c"),
        triple("x", "y", "z"),
    ];
    let mut sorted = places(&patterns);
    sorted.sort();
    assert_eq!(sorted, vec![0, 1, 2, 3]);
    assert!(sort_bgp(&[]).is_empty());
}

#[test]
fn sorting_is_greedy() {
    // After the last one ?x is known, which lifts the first one over the second.
    let patterns =
        vec![triple("?x", "p", "?y"), triple("?z", "q", "?w"), triple("?x", "r", "c")];
    assert_eq!(places(&patterns), vec![2, 0, 1]);
}

#[test]
fn sorting_is_stable_from_one_round_to_the_next() {
    // The first round already puts the third pattern before the first two; the second round
    // starts from there.
    let patterns = vec![
        triple("?a", "?b", "?c"),
        triple("?d", "?e", "?f"),
        triple("?g", "p", "?h"),
        triple("i", "q", "?j"),
    ];
    assert_eq!(places(&patterns), vec![3, 2, 0, 1]);
}

#[test]
fn sorting_ranks_a_path_below_a_triple_with_as_many_ends() {
    let patterns = vec![path("?a", "b"), triple("?c", "p", "d")];
    assert_eq!(places(&patterns), vec![1, 0]);
}

#[test]
fn cast_targets_are_xml_schema_datatypes() {
    let target = |name: &str| cast_target(&node(&format!("http://www.w3.org/2001/XMLSchema#{}", name)));
    assert_eq!(target("boolean"), Some(CastTarget::Boolean));
    assert_eq!(target("dateTime"), Some(CastTarget::DateTime));
    assert_eq!(target("datetime"), None);
    assert_eq!(target(""), None);
    assert_eq!(cast_target(&node("boolean")), None);
    assert_eq!(CastTarget::DateTime.name(), "dateTime");
}

#[test]
fn no_variable_is_assigned_twice() {
    let first = triple("?a", "?b", "?a");
    let second = triple("?b", "p", "?a");
    let mut variables = Vec::new();
    add_pattern_variables(&first, &mut variables);
    add_pattern_variables(&second, &mut variables);
    assert!(variables == vec![&named("a"), &named("b")]);
}

#[test]
fn sorted_patterns_stay_sorted() {
    let patterns = vec![triple("?x", "r", "c"), triple("?x", "p", "?y"), triple("?z", "q", "?w")];
    assert_eq!(places(&patterns), vec![0, 1, 2]);
}

#[test]
fn pattern_that_never_has_the_lower_count_stays_earlier() {
    let patterns = vec![
        triple("?a", "p", "?b"),
        triple("?c", "q", "d"),
        triple("?a", "?e", "?b"),
        triple("?a", "p", "?b"),
    ];
    assert_eq!(places(&patterns), vec![1, 0, 3, 2]);
}
