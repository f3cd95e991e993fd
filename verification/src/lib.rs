//! Query planning for SPARQL.
//!
//! A query arrives as a [`algebra::GraphPattern`]. [`builder::PlanBuilder`] turns it into a
//! [`plan::PlanNode`], in which every variable is a position in a tuple and every RDF term is the
//! code under which a store keeps it.
//!
//! [`semantics`] says what planning does, as a function of the query and of the store's answers;
//! the planner is proved to do that. [`laws`] says what follows.
pub mod algebra;
pub mod builder;
pub mod error;
pub mod expression;
pub mod laws;
pub mod model;
pub mod numbering;
pub mod ordering;
pub mod plan;
pub mod record;
pub mod semantics;
pub mod store;
pub mod xsd;
