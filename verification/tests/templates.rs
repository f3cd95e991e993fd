use sparql_planner::algebra::{NamedNodeOrVariable, TermOrVariable, TriplePattern};
use sparql_planner::builder::PlanBuilder;
use sparql_planner::error::Error;
use sparql_planner::model::{BlankNode, NamedNode, Term, Variable};
use sparql_planner::plan::{TripleTemplate, TripleTemplateValue};
use sparql_planner::store::{EncodedTerm, StoreConnection};

/// Codes an IRI by its length. Has no room for the IRI `full`.
struct Lengths;

impl StoreConnection for Lengths {
    type Error = String;

    fn encode_term(&self, term: &Term) -> Result<EncodedTerm, String> {
        match term {
            Term::NamedNode(node) => self.encode_named_node(node),
            _ => Err("not an IRI".to_string()),
        }
    }

    fn encode_named_node(&self, named_node: &NamedNode) -> Result<EncodedTerm, String> {
        if named_node.iri == "full" {
            Err("no room".to_string())
        } else {
            Ok(EncodedTerm::Stored(named_node.iri.len() as u64))
        }
    }
}

fn node(iri: &str) -> NamedNode {
    NamedNode { iri: iri.to_string() }
}

fn named(name: &str) -> Variable {
    Variable::Named { name: name.to_string() }
}

fn term(iri: &str) -> TermOrVariable {
    TermOrVariable::Term(Term::NamedNode(node(iri)))
}

fn variable(name: &str) -> TermOrVariable {
    TermOrVariable::Variable(named(name))
}

fn blank(id: u128) -> TermOrVariable {
    TermOrVariable::Variable(Variable::Unnamed { id })
}

fn predicate(iri: &str) -> NamedNodeOrVariable {
    NamedNodeOrVariable::NamedNode(node(iri))
}

fn stored(code: u64) -> TripleTemplateValue {
    TripleTemplateValue::Constant(EncodedTerm::Stored(code))
}

#[test]
fn empty_template_makes_nothing() {
    let result = PlanBuilder::build_graph_template(&Lengths, &[], vec![named("a")]).unwrap();
    assert_eq!(result, vec![]);
}

#[test]
fn template_takes_values_from_their_positions() {
    let template = vec![TriplePattern {
        subject: variable("b"),
        predicate: predicate("knows"),
        object: term("bob"),
    }];
    let variables = vec![named("a"), named("b")];
    let result = PlanBuilder::build_graph_template(&Lengths, &template, variables).unwrap();
    assert_eq!(
        result,
        vec![TripleTemplate {
            subject: TripleTemplateValue::Variable(1),
            predicate: stored(5),
            object: stored(3),
        }]
    );
}

#[test]
fn template_variable_without_a_position_gets_the_next_one() {
    let template = vec![TriplePattern {
        subject: variable("c"),
        predicate: NamedNodeOrVariable::Variable(named("d")),
        object: variable("c"),
    }];
    let result =
        PlanBuilder::build_graph_template(&Lengths, &template, vec![named("a")]).unwrap();
    assert_eq!(
        result,
        vec![TripleTemplate {
            subject: TripleTemplateValue::Variable(1),
            predicate: TripleTemplateValue::Variable(2),
            object: TripleTemplateValue::Variable(1),
        }]
    );
}

#[test]
fn unnamed_variables_are_blank_nodes() {
    let template = vec![
        TriplePattern { subject: blank(9), predicate: predicate("p"), object: blank(4) },
        TriplePattern { subject: blank(4), predicate: predicate("qq"), object: variable("a") },
    ];
    let result =
        PlanBuilder::build_graph_template(&Lengths, &template, vec![named("a")]).unwrap();
    assert_eq!(
        result,
        vec![
            TripleTemplate {
                subject: TripleTemplateValue::BlankNode(0),
                predicate: stored(1),
                object: TripleTemplateValue::BlankNode(1),
            },
            TripleTemplate {
                subject: TripleTemplateValue::BlankNode(1),
                predicate: stored(2),
                object: TripleTemplateValue::Variable(0),
            },
        ]
    );
}

#[test]
fn unnamed_variable_among_the_given_ones_is_a_blank_node_all_the_same() {
    let template = vec![TriplePattern {
        subject: blank(1),
        predicate: NamedNodeOrVariable::Variable(Variable::Unnamed { id: 2 }),
        object: blank(1),
    }];
    let variables = vec![Variable::Unnamed { id: 2 }, Variable::Unnamed { id: 1 }];
    let result = PlanBuilder::build_graph_template(&Lengths, &template, variables).unwrap();
    assert_eq!(
        result,
        vec![TripleTemplate {
            subject: TripleTemplateValue::BlankNode(0),
            predicate: TripleTemplateValue::BlankNode(1),
            object: TripleTemplateValue::BlankNode(0),
        }]
    );
}

#[test]
fn template_variable_is_planned_alike_in_every_position() {
    for (v, expected) in [
        (named("b"), TripleTemplateValue::Variable(1)),
        (named("c"), TripleTemplateValue::Variable(2)),
        (Variable::Unnamed { id: 7 }, TripleTemplateValue::BlankNode(0)),
    ] {
        let template = vec![
            TriplePattern {
                subject: TermOrVariable::Variable(v.clone()),
                predicate: NamedNodeOrVariable::Variable(v.clone()),
                object: TermOrVariable::Variable(v.clone()),
            },
            TriplePattern { subject: variable("d"), predicate: predicate("p"), object: blank(8) },
        ];
        let variables = vec![named("a"), named("b")];
        let result = PlanBuilder::build_graph_template(&Lengths, &template, variables).unwrap();
        assert_eq!(result[0].subject, expected);
        assert_eq!(result[0].predicate, expected);
        assert_eq!(result[0].object, expected);
        // Only one of the two lists has grown, and by no more than one.
        let (next, next_blank) = match expected {
            TripleTemplateValue::Variable(k) => (if k < 2 { 2 } else { 3 }, 0),
            _ => (2, 1),
        };
        assert_eq!(result[1].subject, TripleTemplateValue::Variable(next));
        assert_eq!(result[1].object, TripleTemplateValue::BlankNode(next_blank));
    }
}

#[test]
fn template_is_planned_if_and_only_if_its_constants_have_codes() {
    for (subject, middle, object) in
        [("a", "b", "c"), ("full", "b", "c"), ("a", "full", "c"), ("a", "b", "full")]
    {
        let template = vec![TriplePattern {
            subject: term(subject),
            predicate: predicate(middle),
            object: term(object),
        }];
        let result = PlanBuilder::build_graph_template(&Lengths, &template, vec![]);
        if [subject, middle, object].contains(&"full") {
            assert!(matches!(&result, Err(Error::Store(message)) if message == "no room"));
        } else {
            assert!(result.is_ok());
        }
    }
}

#[test]
fn template_passes_on_the_first_store_error() {
    let template = vec![
        TriplePattern { subject: term("ok"), predicate: predicate("full"), object: term("full") },
        TriplePattern {
            subject: TermOrVariable::Term(Term::BlankNode(BlankNode { id: 3 })),
            predicate: predicate("p"),
            object: term("ok"),
        },
    ];
    let result = PlanBuilder::build_graph_template(&Lengths, &template, vec![]);
    assert!(matches!(&result, Err(Error::Store(message)) if message == "no room"));
    let result = PlanBuilder::build_graph_template(&Lengths, &template[1..], vec![]);
    assert!(matches!(&result, Err(Error::Store(message)) if message == "not an IRI"));
}
