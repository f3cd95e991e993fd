//! What the planner needs of a store: codes for RDF terms.
use crate::model::{NamedNode, Term};
use vstd::prelude::*;

verus! {

/// The code under which a store keeps a term, or the mark of the default graph.
#[derive(Clone, Copy, Debug, PartialEq, Eq, Structural)]
pub enum EncodedTerm {
    DefaultGraph,
    Stored(u64),
}

/// A connection to a store. Encoding a term may add it to the store, and may fail.
pub trait StoreConnection {
    /// Why the store could not encode a term.
    type Error;

    /// The code of a term.
    fn encode_term(&self, term: &Term) -> Result<EncodedTerm, Self::Error>;

    /// The code of an IRI.
    fn encode_named_node(&self, named_node: &NamedNode) -> Result<EncodedTerm, Self::Error>;
}

/// What a store is asked to encode.
pub enum Question {
    Term(Term),
    NamedNode(NamedNode),
}

/// The answers of a store, in the order of the questions.
pub type Answers<E> = spec_fn(int) -> Result<EncodedTerm, E>;

/// Whether a store may give this answer to this question.
pub open spec fn may_answer<S: StoreConnection>(
    store: S,
    question: Question,
    answer: Result<EncodedTerm, S::Error>,
) -> bool {
    match question {
        Question::Term(term) => call_ensures(S::encode_term, (&store, &term), answer),
        Question::NamedNode(node) => call_ensures(S::encode_named_node, (&store, &node), answer),
    }
}

/// Whether a store may give these answers to these questions.
pub open spec fn may_answer_all<S: StoreConnection>(
    store: S,
    questions: Seq<Question>,
    answers: Answers<S::Error>,
) -> bool {
    forall|i: int|
        #![trigger questions[i]]
        #![trigger answers(i)]
        0 <= i < questions.len() ==> may_answer(store, questions[i], answers(i))
}

/// Whether the answers from the `from`-th to before the `to`-th are codes.
#[verifier::opaque]
pub open spec fn all_codes<E>(answers: Answers<E>, from: nat, to: nat) -> bool {
    forall|i: int| from <= i < to ==> (#[trigger] answers(i)) is Ok
}

/// Whether one of the answers from the `from`-th to before the `to`-th is this error.
#[verifier::opaque]
pub open spec fn has_error<E>(answers: Answers<E>, from: nat, to: nat, error: E) -> bool {
    exists|i: int| from <= i < to && #[trigger] answers(i) == Err::<EncodedTerm, E>(error)
}

/// Of no answers all are codes.
pub broadcast proof fn lemma_no_answer<E>(answers: Answers<E>, from: nat, to: nat)
    requires
        to <= from,
    ensures
        #[trigger] all_codes(answers, from, to),
{
    reveal(all_codes);
}

/// Codes after codes are codes.
pub broadcast proof fn lemma_codes_join<E>(answers: Answers<E>, from: nat, middle: nat, to: nat)
    requires
        #[trigger] all_codes(answers, from, middle),
        #[trigger] all_codes(answers, middle, to),
    ensures
        all_codes(answers, from, to),
{
    reveal(all_codes);
}

/// An error among some answers is an error among more.
pub broadcast proof fn lemma_error_stays<E>(
    answers: Answers<E>,
    from: nat,
    to: nat,
    earlier: nat,
    later: nat,
    error: E,
)
    requires
        #[trigger] has_error(answers, from, to, error),
        earlier <= from,
        to <= later,
    ensures
        #[trigger] has_error(answers, earlier, later, error),
{
    reveal(has_error);
}

pub broadcast group group_answers {
    lemma_no_answer,
    lemma_codes_join,
    lemma_error_stays,
}

} // verus!
