//! A planned template says what the template says.
use crate::algebra::{NamedNodeOrVariable, TermOrVariable, TriplePattern};
use crate::builder::template_built;
use crate::error::{Error, Outcome};
use crate::laws::asking::template_questions;
use crate::laws::failing::lemma_template_ends;
use crate::laws::faithful::{
    are_codes_of, codes_given, is_position_of, lemma_codes_are_given, Codes,
};
use crate::laws::growth::begins_with;
use crate::laws::parts::{
    is_template_constant, is_template_end, is_template_middle, is_template_variable, lemma_meeting,
    lemma_template_triple,
};
use crate::model::{Name, Variable};
use crate::plan::{template_models, TemplateSlot, TemplateTriple, TripleTemplate};
use crate::semantics::{
    outset, template_end_run, template_middle_run, template_run, template_triple_run, Progress,
};
use crate::store::{Answers, EncodedTerm, Question, StoreConnection};
use vstd::prelude::*;

verus! {

/// Whether a place of a planned triple says what a variable of a template says: the position of the
/// variable if the query names it, its place among the blank nodes if it does not.
pub open spec fn template_variable_says(
    slot: TemplateSlot,
    v: Variable,
    variables: Seq<Name>,
    blanks: Seq<Name>,
) -> bool {
    match v {
        Variable::Named { .. } => {
            slot matches TemplateSlot::Variable(k) && is_position_of(k, v, variables)
        },
        Variable::Unnamed { .. } => {
            slot matches TemplateSlot::BlankNode(k) && is_position_of(k, v, blanks)
        },
    }
}

/// Whether a place of a planned triple says what a subject or an object of a template says.
pub open spec fn template_end_says(
    slot: TemplateSlot,
    end: TermOrVariable,
    variables: Seq<Name>,
    blanks: Seq<Name>,
    codes: Codes,
) -> bool {
    match end {
        TermOrVariable::Term(term) => {
            slot matches TemplateSlot::Constant(code) && codes(Question::Term(term), code)
        },
        TermOrVariable::Variable(v) => template_variable_says(slot, v, variables, blanks),
    }
}

/// Whether a place of a planned triple says what a predicate of a template says.
pub open spec fn template_middle_says(
    slot: TemplateSlot,
    middle: NamedNodeOrVariable,
    variables: Seq<Name>,
    blanks: Seq<Name>,
    codes: Codes,
) -> bool {
    match middle {
        NamedNodeOrVariable::NamedNode(node) => {
            slot matches TemplateSlot::Constant(code) && codes(Question::NamedNode(node), code)
        },
        NamedNodeOrVariable::Variable(v) => template_variable_says(slot, v, variables, blanks),
    }
}

/// Whether a planned triple says what a triple of a template says, place by place.
pub open spec fn template_triple_says(
    made: TemplateTriple,
    triple: TriplePattern,
    variables: Seq<Name>,
    blanks: Seq<Name>,
    codes: Codes,
) -> bool {
    &&& template_end_says(made.subject, triple.subject, variables, blanks, codes)
    &&& template_middle_says(made.predicate, triple.predicate, variables, blanks, codes)
    &&& template_end_says(made.object, triple.object, variables, blanks, codes)
}

/// Whether what is numbered and asked stays so.
spec fn all_stay(
    at: Progress,
    blanks: Seq<Name>,
    next: Progress,
    next_blanks: Seq<Name>,
) -> bool {
    &&& begins_with(next.variables, at.variables)
    &&& begins_with(next.asked, at.asked)
    &&& begins_with(next_blanks, blanks)
}

/// What stays and stays again, stays.
proof fn lemma_all_stay_on(
    at: Progress,
    blanks: Seq<Name>,
    at1: Progress,
    blanks1: Seq<Name>,
    at2: Progress,
    blanks2: Seq<Name>,
)
    requires
        all_stay(at, blanks, at1, blanks1),
        all_stay(at1, blanks1, at2, blanks2),
    ensures
        all_stay(at, blanks, at2, blanks2),
{
    assert forall|i: int| 0 <= i < at.variables.len() implies at.variables[i]
        == #[trigger] at2.variables[i] by {
        assert(at1.variables[i] == at2.variables[i]);
    }
    assert forall|i: int| 0 <= i < at.asked.len() implies at.asked[i]
        == #[trigger] at2.asked[i] by {
        assert(at1.asked[i] == at2.asked[i]);
    }
    assert forall|i: int| 0 <= i < blanks.len() implies blanks[i] == #[trigger] blanks2[i] by {
        assert(blanks1[i] == blanks2[i]);
    }
}

proof fn lemma_variable_stays(
    slot: TemplateSlot,
    v: Variable,
    at: Progress,
    blanks: Seq<Name>,
    next: Progress,
    next_blanks: Seq<Name>,
)
    requires
        all_stay(at, blanks, next, next_blanks),
        template_variable_says(slot, v, at.variables, blanks),
    ensures
        template_variable_says(slot, v, next.variables, next_blanks),
{
    match slot {
        TemplateSlot::Variable(k) => {
            assert(at.variables[k as int] == next.variables[k as int]);
            assert forall|j: int| 0 <= j < k implies next.variables[j] != v@ by {
                assert(at.variables[j] == next.variables[j]);
            }
        },
        TemplateSlot::BlankNode(k) => {
            assert(blanks[k as int] == next_blanks[k as int]);
            assert forall|j: int| 0 <= j < k implies next_blanks[j] != v@ by {
                assert(blanks[j] == next_blanks[j]);
            }
        },
        TemplateSlot::Constant(_) => {},
    }
}

proof fn lemma_code_stays<E>(
    question: Question,
    code: EncodedTerm,
    answers: Answers<E>,
    asked: Seq<Question>,
    longer: Seq<Question>,
)
    requires
        begins_with(longer, asked),
        codes_given(asked, answers)(question, code),
    ensures
        codes_given(longer, answers)(question, code),
{
    let i = choose|i: int|
        {
            &&& 0 <= i < asked.len()
            &&& asked[i] == question
            &&& #[trigger] answers(i) == Ok::<EncodedTerm, E>(code)
        };
    assert(asked[i] == longer[i]);
}

proof fn lemma_end_stays<E>(
    slot: TemplateSlot,
    end: TermOrVariable,
    answers: Answers<E>,
    at: Progress,
    blanks: Seq<Name>,
    next: Progress,
    next_blanks: Seq<Name>,
)
    requires
        all_stay(at, blanks, next, next_blanks),
        template_end_says(slot, end, at.variables, blanks, codes_given(at.asked, answers)),
    ensures
        template_end_says(
            slot,
            end,
            next.variables,
            next_blanks,
            codes_given(next.asked, answers),
        ),
{
    match end {
        TermOrVariable::Term(term) => {
            let code = slot->Constant_0;
            lemma_code_stays(Question::Term(term), code, answers, at.asked, next.asked);
        },
        TermOrVariable::Variable(v) => {
            lemma_variable_stays(slot, v, at, blanks, next, next_blanks);
        },
    }
}

proof fn lemma_middle_stays<E>(
    slot: TemplateSlot,
    middle: NamedNodeOrVariable,
    answers: Answers<E>,
    at: Progress,
    blanks: Seq<Name>,
    next: Progress,
    next_blanks: Seq<Name>,
)
    requires
        all_stay(at, blanks, next, next_blanks),
        template_middle_says(slot, middle, at.variables, blanks, codes_given(at.asked, answers)),
    ensures
        template_middle_says(
            slot,
            middle,
            next.variables,
            next_blanks,
            codes_given(next.asked, answers),
        ),
{
    match middle {
        NamedNodeOrVariable::NamedNode(node) => {
            let code = slot->Constant_0;
            lemma_code_stays(Question::NamedNode(node), code, answers, at.asked, next.asked);
        },
        NamedNodeOrVariable::Variable(v) => {
            lemma_variable_stays(slot, v, at, blanks, next, next_blanks);
        },
    }
}

proof fn lemma_variable_says(
    slot: TemplateSlot,
    v: Variable,
    at: Progress,
    blanks: Seq<Name>,
    next: Progress,
    next_blanks: Seq<Name>,
)
    requires
        is_template_variable(slot, v, at, blanks, next, next_blanks),
    ensures
        template_variable_says(slot, v, next.variables, next_blanks),
        all_stay(at, blanks, next, next_blanks),
{
    lemma_meeting(at, v);
}

proof fn lemma_constant_says<E>(
    slot: TemplateSlot,
    question: Question,
    answers: Answers<E>,
    at: Progress,
    blanks: Seq<Name>,
    next: Progress,
    next_blanks: Seq<Name>,
)
    requires
        is_template_constant(slot, question, answers, at, blanks, next, next_blanks),
    ensures
        codes_given(next.asked, answers)(question, slot->Constant_0),
        all_stay(at, blanks, next, next_blanks),
{
    let n = at.asked.len() as int;
    assert(next.asked[n] == question);
    assert(answers(n) == Ok::<EncodedTerm, E>(slot->Constant_0));
}

proof fn lemma_end_says<E>(
    slot: TemplateSlot,
    end: TermOrVariable,
    answers: Answers<E>,
    at: Progress,
    blanks: Seq<Name>,
    next: Progress,
    next_blanks: Seq<Name>,
)
    requires
        is_template_end(slot, end, answers, at, blanks, next, next_blanks),
    ensures
        template_end_says(
            slot,
            end,
            next.variables,
            next_blanks,
            codes_given(next.asked, answers),
        ),
        all_stay(at, blanks, next, next_blanks),
{
    match end {
        TermOrVariable::Term(term) => {
            let question = Question::Term(term);
            lemma_constant_says(slot, question, answers, at, blanks, next, next_blanks);
        },
        TermOrVariable::Variable(v) => {
            lemma_variable_says(slot, v, at, blanks, next, next_blanks);
        },
    }
}

proof fn lemma_middle_says<E>(
    slot: TemplateSlot,
    middle: NamedNodeOrVariable,
    answers: Answers<E>,
    at: Progress,
    blanks: Seq<Name>,
    next: Progress,
    next_blanks: Seq<Name>,
)
    requires
        is_template_middle(slot, middle, answers, at, blanks, next, next_blanks),
    ensures
        template_middle_says(
            slot,
            middle,
            next.variables,
            next_blanks,
            codes_given(next.asked, answers),
        ),
        all_stay(at, blanks, next, next_blanks),
{
    match middle {
        NamedNodeOrVariable::NamedNode(node) => {
            let question = Question::NamedNode(node);
            lemma_constant_says(slot, question, answers, at, blanks, next, next_blanks);
        },
        NamedNodeOrVariable::Variable(v) => {
            lemma_variable_says(slot, v, at, blanks, next, next_blanks);
        },
    }
}

proof fn lemma_template_triple_says<E>(
    triple: TriplePattern,
    answers: Answers<E>,
    at: Progress,
    blanks: Seq<Name>,
)
    ensures
        match template_triple_run(triple, answers, at, blanks) {
            (Outcome::Done(made), next, next_blanks) => {
                &&& template_triple_says(
                    made,
                    triple,
                    next.variables,
                    next_blanks,
                    codes_given(next.asked, answers),
                )
                &&& all_stay(at, blanks, next, next_blanks)
            },
            _ => true,
        },
{
    lemma_template_triple(triple, answers, at, blanks);
    if let (Outcome::Done(made), at3, blanks3) = template_triple_run(triple, answers, at, blanks) {
        let (_, at1, blanks1) = template_end_run(triple.subject, answers, at, blanks);
        let (_, at2, blanks2) = template_middle_run(triple.predicate, answers, at1, blanks1);
        let (s, p, o) = (made.subject, made.predicate, made.object);
        lemma_end_says(s, triple.subject, answers, at, blanks, at1, blanks1);
        lemma_middle_says(p, triple.predicate, answers, at1, blanks1, at2, blanks2);
        lemma_end_says(o, triple.object, answers, at2, blanks2, at3, blanks3);
        lemma_middle_stays(p, triple.predicate, answers, at2, blanks2, at3, blanks3);
        lemma_all_stay_on(at1, blanks1, at2, blanks2, at3, blanks3);
        lemma_end_stays(s, triple.subject, answers, at1, blanks1, at3, blanks3);
        lemma_all_stay_on(at, blanks, at1, blanks1, at3, blanks3);
    }
}

/// The triples that a template comes to say what the triples of the template say, each what the one
/// at its place says.
pub proof fn lemma_template_says<E>(
    template: Seq<TriplePattern>,
    i: int,
    made: Seq<TemplateTriple>,
    answers: Answers<E>,
    at: Progress,
    blanks: Seq<Name>,
)
    requires
        0 <= i <= template.len(),
        made.len() == i,
        forall|j: int|
            0 <= j < i ==> template_triple_says(
                #[trigger] made[j],
                template[j],
                at.variables,
                blanks,
                codes_given(at.asked, answers),
            ),
    ensures
        match template_run(template, i, made, answers, at, blanks) {
            (Outcome::Done(all), next, next_blanks) => {
                &&& all.len() == template.len()
                &&& forall|j: int|
                    0 <= j < all.len() ==> template_triple_says(
                        #[trigger] all[j],
                        template[j],
                        next.variables,
                        next_blanks,
                        codes_given(next.asked, answers),
                    )
                &&& begins_with(next.variables, at.variables)
                &&& begins_with(next_blanks, blanks)
            },
            _ => true,
        },
    decreases template.len() - i,
{
    if i < template.len() {
        lemma_template_triple_says(template[i], answers, at, blanks);
        let (outcome, at1, blanks1) = template_triple_run(template[i], answers, at, blanks);
        if let Outcome::Done(triple) = outcome {
            let more = made.push(triple);
            assert forall|j: int| 0 <= j < i + 1 implies template_triple_says(
                #[trigger] more[j],
                template[j],
                at1.variables,
                blanks1,
                codes_given(at1.asked, answers),
            ) by {
                if j < i {
                    let (m, t) = (made[j], template[j]);
                    lemma_end_stays(m.subject, t.subject, answers, at, blanks, at1, blanks1);
                    lemma_middle_stays(
                        m.predicate,
                        t.predicate,
                        answers,
                        at,
                        blanks,
                        at1,
                        blanks1,
                    );
                    lemma_end_stays(m.object, t.object, answers, at, blanks, at1, blanks1);
                }
            }
            lemma_template_says(template, i + 1, more, answers, at1, blanks1);
            let (all, at2, blanks2) = template_run(template, i + 1, more, answers, at1, blanks1);
            if all is Done {
                assert forall|k: int| 0 <= k < at.variables.len() implies at.variables[k]
                    == #[trigger] at2.variables[k] by {
                    assert(at1.variables[k] == at2.variables[k]);
                }
                assert forall|k: int| 0 <= k < blanks.len() implies blanks[k]
                    == #[trigger] blanks2[k] by {
                    assert(blanks1[k] == blanks2[k]);
                }
            }
        }
    }
}

/// A template that is planned says what it said: there is one triple for each of its own, with the
/// code that the store gave for each constant in the place of that constant, and each variable at
/// the position that it was given, if it was given one.
pub proof fn lemma_template_built_says<'p, S: StoreConnection>(
    store: S,
    template: Seq<TriplePattern>,
    variables: Seq<Name>,
    answers: Answers<S::Error>,
    triples: Vec<TripleTemplate>,
) -> (numbering: (Seq<Name>, Seq<Name>))
    requires
        template_built(
            store,
            template,
            variables,
            answers,
            Ok::<_, Error<'p, S::Error>>(triples),
        ),
    ensures
        triples@.len() == template.len(),
        begins_with(numbering.0, variables),
        forall|i: int|
            0 <= i < template.len() ==> template_triple_says(
                (#[trigger] triples@[i]).model(),
                template[i],
                numbering.0,
                numbering.1,
                codes_given(template_questions(template, 0), answers),
            ),
        are_codes_of(codes_given(template_questions(template, 0), answers), store),
{
    let at = outset(variables);
    let result = Ok::<_, Error<'p, S::Error>>(triples);
    lemma_template_ends(store, template, variables, answers, result);
    lemma_template_says(template, 0, seq![], answers, at, seq![]);
    let (outcome, end, blanks) = template_run(template, 0, seq![], answers, at, seq![]);
    assert(template_models(triples@).len() == triples@.len());
    assert forall|i: int| 0 <= i < template.len() implies template_triple_says(
        (#[trigger] triples@[i]).model(),
        template[i],
        end.variables,
        blanks,
        codes_given(template_questions(template, 0), answers),
    ) by {
        assert(template_models(triples@)[i] == triples@[i].model());
    }
    lemma_codes_are_given(store, template_questions(template, 0), answers);
    (end.variables, blanks)
}

} // verus!
