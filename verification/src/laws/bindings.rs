//! What a table of bindings comes to.
use crate::algebra::{GraphPattern, StaticBindings};
use crate::error::Outcome;
use crate::model::{names, Name, Term, Variable};
use crate::numbering::{key_of, lemma_key_is_first_place};
use crate::plan::{Plan, Slot};
use crate::semantics::{ask, blank_tuple, pattern_run, row_run, rows_run, Progress};
use crate::store::{Answers, EncodedTerm, Question};
use vstd::prelude::*;

verus! {

/// How many of the first `count` places of a row hold a value.
pub open spec fn values_among(row: Seq<Option<Term>>, count: nat) -> nat
    decreases count,
{
    if count == 0 {
        0
    } else {
        let fewer = values_among(row, (count - 1) as nat);
        if row[count - 1] is Some {
            fewer + 1
        } else {
            fewer
        }
    }
}

/// How many values there are in the first `count` rows.
pub open spec fn values_in_rows(rows: Seq<Vec<Option<Term>>>, count: nat) -> nat
    decreases count,
{
    if count == 0 {
        0
    } else {
        let row = rows[count - 1]@;
        values_in_rows(rows, (count - 1) as nat) + values_among(row, row.len())
    }
}

/// Whether a tuple holds the first `count` places of a row and nothing else. Each value is where
/// its variable is in the table, by the code that the store answered to it; the answers to the
/// row begin with that to the question `from`.
pub open spec fn tuple_holds<E>(
    tuple: Seq<Option<EncodedTerm>>,
    variables: Seq<Variable>,
    row: Seq<Option<Term>>,
    count: int,
    table: Seq<Name>,
    answers: Answers<E>,
    from: nat,
) -> bool {
    &&& tuple.len() == table.len()
    &&& forall|c: int|
        0 <= c < count && (#[trigger] row[c]) is Some ==> {
            let k = key_of(table, variables[c]@);
            &&& c < variables.len()
            &&& k < table.len()
            &&& answers((from + values_among(row, c as nat)) as int) matches Ok(code)
            &&& tuple[k as int] == Some(code)
        }
    &&& forall|k: int|
        0 <= k < tuple.len() && (#[trigger] tuple[k]) is Some ==> exists|c: int|
            {
                &&& 0 <= c < count
                &&& (#[trigger] row[c]) is Some
                &&& key_of(table, variables[c]@) == k
            }
}

proof fn lemma_row_holds<E>(
    variables: Seq<Variable>,
    row: Seq<Option<Term>>,
    i: int,
    tuple: Seq<Option<EncodedTerm>>,
    answers: Answers<E>,
    at: Progress,
    from: nat,
)
    requires
        0 <= i <= row.len(),
        names(variables).no_duplicates(),
        at.asked.len() == from + values_among(row, i as nat),
        tuple_holds(tuple, variables, row, i, at.variables, answers, from),
    ensures
        match row_run(variables, row, i, tuple, answers, at) {
            (Outcome::Done(made), next) => {
                &&& tuple_holds(
                    made,
                    variables,
                    row,
                    row.len() as int,
                    at.variables,
                    answers,
                    from,
                )
                &&& next.variables == at.variables
                &&& next.asked.len() == from + values_among(row, row.len())
            },
            _ => true,
        },
    decreases row.len() - i,
{
    if i < row.len() {
        match row[i] {
            Some(term) => {
                let (outcome, next) = ask(Question::Term(term), answers, at);
                if outcome is Done && i < variables.len() {
                    let table = at.variables;
                    let key = next.key(variables[i]);
                    lemma_key_is_first_place(table, variables[i]@);
                    if key < tuple.len() {
                        let filled = tuple.update(key as int, Some(outcome->Done_0));
                        assert(next.met(variables[i]) == next);
                        assert forall|c: int|
                            0 <= c < i + 1 && (#[trigger] row[c]) is Some implies {
                            let k = key_of(table, variables[c]@);
                            &&& c < variables.len()
                            &&& k < table.len()
                            &&& answers((from + values_among(row, c as nat)) as int) matches Ok(
                                code,
                            )
                            &&& filled[k as int] == Some(code)
                        } by {
                            if c < i {
                                lemma_key_is_first_place(table, variables[c]@);
                                assert(names(variables)[c] != names(variables)[i]);
                            }
                        }
                        assert forall|k: int|
                            0 <= k < filled.len() && (#[trigger] filled[k]) is Some implies
                            exists|c: int|
                            {
                                &&& 0 <= c < i + 1
                                &&& (#[trigger] row[c]) is Some
                                &&& key_of(table, variables[c]@) == k
                            } by {
                            if k == key {
                                assert(row[i] is Some);
                            } else {
                                assert(tuple[k] is Some);
                                let c = choose|c: int|
                                    {
                                        &&& 0 <= c < i
                                        &&& (#[trigger] row[c]) is Some
                                        &&& key_of(table, variables[c]@) == k
                                    };
                                assert(row[c] is Some);
                            }
                        }
                        lemma_row_holds(variables, row, i + 1, filled, answers, next, from);
                    }
                }
            },
            None => {
                assert forall|k: int|
                    0 <= k < tuple.len() && (#[trigger] tuple[k]) is Some implies exists|c: int|
                    {
                        &&& 0 <= c < i + 1
                        &&& (#[trigger] row[c]) is Some
                        &&& key_of(at.variables, variables[c]@) == k
                    } by {
                    let c = choose|c: int|
                        {
                            &&& 0 <= c < i
                            &&& (#[trigger] row[c]) is Some
                            &&& key_of(at.variables, variables[c]@) == k
                        };
                    assert(row[c] is Some);
                }
                lemma_row_holds(variables, row, i + 1, tuple, answers, at, from);
            },
        }
    }
}

proof fn lemma_rows_hold<E>(
    bindings: StaticBindings,
    i: int,
    tuples: Seq<Seq<Option<EncodedTerm>>>,
    answers: Answers<E>,
    at: Progress,
    from: nat,
)
    requires
        0 <= i <= bindings.values@.len(),
        names(bindings.variables@).no_duplicates(),
        at.asked.len() == from + values_in_rows(bindings.values@, i as nat),
        tuples.len() == i,
        forall|j: int|
            0 <= j < i ==> tuple_holds(
                #[trigger] tuples[j],
                bindings.variables@,
                bindings.values@[j]@,
                bindings.values@[j]@.len() as int,
                at.variables,
                answers,
                from + values_in_rows(bindings.values@, j as nat),
            ),
    ensures
        match rows_run(bindings, i, tuples, answers, at) {
            (Outcome::Done(made), next) => {
                &&& next.variables == at.variables
                &&& made.len() == bindings.values@.len()
                &&& forall|j: int|
                    0 <= j < made.len() ==> tuple_holds(
                        #[trigger] made[j],
                        bindings.variables@,
                        bindings.values@[j]@,
                        bindings.values@[j]@.len() as int,
                        at.variables,
                        answers,
                        from + values_in_rows(bindings.values@, j as nat),
                    )
            },
            _ => true,
        },
    decreases bindings.values@.len() - i,
{
    if i < bindings.values@.len() {
        let blank = blank_tuple(at.variables.len());
        let row = bindings.values@[i]@;
        let here = from + values_in_rows(bindings.values@, i as nat);
        lemma_row_holds(bindings.variables@, row, 0, blank, answers, at, here);
        let (outcome, next) = row_run(bindings.variables@, row, 0, blank, answers, at);
        if let Outcome::Done(tuple) = outcome {
            lemma_rows_hold(bindings, i + 1, tuples.push(tuple), answers, next, from);
        }
    }
}

/// The tuples of a table of bindings of different variables hold its rows, in order: each value at
/// the position of its variable, and nothing at the others. No variable is numbered.
pub proof fn lemma_bindings<E>(
    bindings: StaticBindings,
    input: Plan,
    graph: Slot,
    answers: Answers<E>,
    at: Progress,
)
    requires
        names(bindings.variables@).no_duplicates(),
    ensures
        match pattern_run(GraphPattern::Data(bindings), input, graph, answers, at) {
            (Outcome::Done(plan), next) => {
                &&& next.variables == at.variables
                &&& plan matches Plan::StaticBindings { tuples }
                &&& tuples.len() == bindings.values@.len()
                &&& forall|i: int|
                    0 <= i < tuples.len() ==> tuple_holds(
                        #[trigger] tuples[i],
                        bindings.variables@,
                        bindings.values@[i]@,
                        bindings.values@[i]@.len() as int,
                        at.variables,
                        answers,
                        at.asked.len() + values_in_rows(bindings.values@, i as nat),
                    )
            },
            _ => true,
        },
{
    lemma_rows_hold(bindings, 0, seq![], answers, at, at.asked.len());
}

} // verus!
