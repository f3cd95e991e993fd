//! A record of the questions that a store was asked, with its answers.
use crate::store::{may_answer, Answers, EncodedTerm, Question, StoreConnection};
use vstd::prelude::*;

verus! {

/// Questions with their answers, in order.
pub type Record<E> = Seq<(Question, Result<EncodedTerm, E>)>;

/// The questions of a record.
pub open spec fn questions<E>(record: Record<E>) -> Seq<Question> {
    Seq::new(record.len(), |i: int| record[i].0)
}

/// Whether the answers begin as the record says.
#[verifier::opaque]
pub open spec fn replays<E>(answers: Answers<E>, record: Record<E>) -> bool {
    forall|i: int| 0 <= i < record.len() ==> answers(i) == (#[trigger] record[i]).1
}

/// Whether `after` is `before` and then answers that the store may give.
#[verifier::opaque]
pub open spec fn continues<S: StoreConnection>(
    store: S,
    before: Record<S::Error>,
    after: Record<S::Error>,
) -> bool {
    &&& before.len() <= after.len()
    &&& forall|i: int| 0 <= i < before.len() ==> before[i] == #[trigger] after[i]
    &&& forall|i: int|
        before.len() <= i < after.len() ==> may_answer(
            store,
            (#[trigger] after[i]).0,
            after[i].1,
        )
}

/// A record continues itself.
pub broadcast proof fn lemma_continues_itself<S: StoreConnection>(
    store: S,
    before: Record<S::Error>,
    after: Record<S::Error>,
)
    requires
        before == after,
    ensures
        #[trigger] continues(store, before, after),
{
    reveal(continues);
}

/// What continues a continuation continues the first.
pub broadcast proof fn lemma_continues_further<S: StoreConnection>(
    store: S,
    first: Record<S::Error>,
    second: Record<S::Error>,
    third: Record<S::Error>,
)
    requires
        #[trigger] continues(store, first, second),
        #[trigger] continues(store, second, third),
    ensures
        continues(store, first, third),
{
    reveal(continues);
    assert forall|i: int| first.len() <= i < third.len() implies may_answer(
        store,
        (#[trigger] third[i]).0,
        third[i].1,
    ) by {
        if i < second.len() {
            assert(third[i] == second[i]);
        }
    }
    assert forall|i: int| 0 <= i < first.len() implies first[i] == #[trigger] third[i] by {
        assert(first[i] == second[i]);
    }
}

/// Answers that replay a record replay what it continues.
pub broadcast proof fn lemma_replays_less<S: StoreConnection>(
    store: S,
    answers: Answers<S::Error>,
    before: Record<S::Error>,
    after: Record<S::Error>,
)
    requires
        #[trigger] replays(answers, after),
        #[trigger] continues(store, before, after),
    ensures
        replays(answers, before),
{
    reveal(replays);
    reveal(continues);
    assert forall|i: int| 0 <= i < before.len() implies answers(i) == (#[trigger] before[i]).1 by {
        assert(before[i] == after[i]);
    }
}

pub broadcast group group_record {
    lemma_continues_itself,
    lemma_continues_further,
    lemma_replays_less,
}

/// One question more.
pub proof fn lemma_asked_once<S: StoreConnection>(
    store: S,
    before: Record<S::Error>,
    question: Question,
    answer: Result<EncodedTerm, S::Error>,
)
    requires
        may_answer(store, question, answer),
    ensures
        continues(store, before, before.push((question, answer))),
        questions(before.push((question, answer))) == questions(before).push(question),
        forall|answers: Answers<S::Error>| #[trigger]
            replays(answers, before.push((question, answer))) ==> answers(
                questions(before).len() as int,
            ) == answer,
{
    let after = before.push((question, answer));
    reveal(continues);
    assert(questions(after) =~= questions(before).push(question));
    assert forall|answers: Answers<S::Error>| #[trigger] replays(answers, after) implies answers(
        questions(before).len() as int,
    ) == answer by {
        reveal(replays);
        assert(after[before.len() as int].1 == answer);
    }
}

} // verus!
