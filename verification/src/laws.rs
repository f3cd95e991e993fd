//! What holds of planning, beyond what each function states of itself.
//!
//! - [`growth`]: the numbering and the questions only grow.
//! - [`answers`]: the store's errors are passed on, and no others are made up.
//! - [`asking`]: the store is asked for the constants of a query, in order, and for nothing else.
//! - [`bindings`]: a tuple of bindings holds each value at the position of its variable.
//! - [`dialogue`]: two runs part only where the store answers one question in two ways.
//! - [`scope`], [`scoping`]: the positions in a plan are those of numbered variables.
//! - [`faithful`], [`constructing`]: a plan says what its query says, with the codes that the store
//!   gave for its constants, and a planned template says what the template says.
//! - [`models`]: what the model of a plan tells of the plan.
//! - [`calling`]: what the functions of the library return.
//! - [`standing`]: each position in a plan stands for the variable that was planned there.
//! - [`graphs`]: quads are looked for in the graph of the nearest graph clause.
//! - [`expressions`]: the plan of an expression is made of those of its operands, in order.
//! - [`parts`]: the plan of a pattern is made of those of its parts.
//! - [`failing`]: planning fails if a constant has no code or a call is rejected, and only then.
//! - [`fragment`]: queries that have a plan or an error whatever the store answers.
//! - [`joining`]: the join order of a basic graph pattern is a greedy permutation.
//! - [`stability`]: it is stable, and settled once it is reached.
//! - [`mentioned`]: the variables that are numbered are those that a query mentions.
//! - [`renaming`]: a plan depends on variables only up to renaming.
//! - [`templates`]: each variable of a template has a place of its own.
//! - [`results`]: what follows for the results of the planner.
pub mod answers;
pub mod asking;
pub mod bindings;
pub mod calling;
pub mod constructing;
pub mod dialogue;
pub mod expressions;
pub mod failing;
pub mod faithful;
pub mod fragment;
pub mod graphs;
pub mod growth;
pub mod joining;
pub mod mentioned;
pub mod models;
pub mod parts;
pub mod renaming;
pub mod results;
pub mod scope;
pub mod scoping;
pub mod stability;
pub mod standing;
pub mod templates;
