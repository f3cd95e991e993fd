//! What planning a template guarantees.
use crate::algebra::{NamedNodeOrVariable, TermOrVariable, TriplePattern};
use crate::error::{Failure, Outcome};
use crate::laws::answers::passes_on;
use crate::laws::dialogue::{lemma_ask_parts, lemma_parted_later, parted};
use crate::laws::growth::{group_growth, grows};
use crate::model::{Name, Variable};
use crate::numbering::{enter, lemma_key_is_first_place};
use crate::plan::{TemplateSlot, TemplateTriple};
use crate::semantics::{
    ask, outset, template_end_run, template_middle_run, template_run, template_triple_run,
    template_variable, Progress,
};
use crate::store::{all_codes, group_answers, has_error, Answers, Question};
use vstd::prelude::*;

verus! {

broadcast use {group_answers, group_growth};

/// Whether a place of a planned template is where a variable is numbered: among the variables
/// where the query names it, among the blank nodes otherwise.
pub open spec fn slot_is_variable(
    slot: TemplateSlot,
    v: Variable,
    variables: Seq<Name>,
    blanks: Seq<Name>,
) -> bool {
    if v@ is Named {
        slot matches TemplateSlot::Variable(k) && k < variables.len() && variables[k as int] == v@
    } else {
        slot matches TemplateSlot::BlankNode(k) && k < blanks.len() && blanks[k as int] == v@
    }
}

/// Whether a place of a planned template stands for a subject or an object.
pub open spec fn slot_is_end(
    slot: TemplateSlot,
    end: TermOrVariable,
    variables: Seq<Name>,
    blanks: Seq<Name>,
) -> bool {
    match end {
        TermOrVariable::Term(_) => slot is Constant,
        TermOrVariable::Variable(v) => slot_is_variable(slot, v, variables, blanks),
    }
}

/// Whether a place of a planned template stands for a predicate.
pub open spec fn slot_is_middle(
    slot: TemplateSlot,
    middle: NamedNodeOrVariable,
    variables: Seq<Name>,
    blanks: Seq<Name>,
) -> bool {
    match middle {
        NamedNodeOrVariable::NamedNode(_) => slot is Constant,
        NamedNodeOrVariable::Variable(v) => slot_is_variable(slot, v, variables, blanks),
    }
}

/// Whether a planned triple stands for a triple of a template.
pub open spec fn triple_stands_for(
    made: TemplateTriple,
    triple: TriplePattern,
    variables: Seq<Name>,
    blanks: Seq<Name>,
) -> bool {
    &&& slot_is_end(made.subject, triple.subject, variables, blanks)
    &&& slot_is_middle(made.predicate, triple.predicate, variables, blanks)
    &&& slot_is_end(made.object, triple.object, variables, blanks)
}

/// Whether the variables and the blank nodes of a template grow, none of them moving.
pub open spec fn both_grow(
    at: Progress,
    blanks: Seq<Name>,
    next: Progress,
    next_blanks: Seq<Name>,
) -> bool {
    grows(at, next) && grows(outset(blanks), outset(next_blanks))
}

/// Whether blank nodes stand for variables without a name only, and what was numbered with the
/// variables since `at` has one.
pub open spec fn names_are_apart(at: Progress, next: Progress, blanks: Seq<Name>) -> bool {
    &&& forall|i: int| 0 <= i < blanks.len() ==> (#[trigger] blanks[i]) is Unnamed
    &&& forall|i: int|
        at.variables.len() <= i < next.variables.len() ==> (#[trigger] next.variables[i]) is Named
}

/// What holds of planning a part of a template, however it ends.
pub open spec fn part_is_sound<T, E>(
    outcome: Outcome<T, E>,
    answers: Answers<E>,
    at: Progress,
    blanks: Seq<Name>,
    next: Progress,
    next_blanks: Seq<Name>,
) -> bool {
    &&& both_grow(at, blanks, next, next_blanks)
    &&& names_are_apart(at, next, next_blanks)
    &&& passes_on(outcome, answers, at, next)
    &&& outcome is Done || outcome matches Outcome::Failed(Failure::Store(_))
}

proof fn lemma_ask_is_sound<E>(
    question: Question,
    answers: Answers<E>,
    at: Progress,
    blanks: Seq<Name>,
)
    requires
        forall|i: int| 0 <= i < blanks.len() ==> (#[trigger] blanks[i]) is Unnamed,
    ensures
        ({
            let (outcome, next) = ask(question, answers, at);
            part_is_sound(outcome, answers, at, blanks, next, blanks)
        }),
{
    reveal(all_codes);
    reveal(has_error);
    assert(grows(at, at.asking(question)));
}

proof fn lemma_variable_is_sound<E>(
    v: Variable,
    answers: Answers<E>,
    at: Progress,
    blanks: Seq<Name>,
)
    requires
        forall|i: int| 0 <= i < blanks.len() ==> (#[trigger] blanks[i]) is Unnamed,
    ensures
        ({
            let (slot, next, next_blanks) = template_variable(v, at, blanks);
            &&& part_is_sound(
                Outcome::<TemplateSlot, E>::Done(slot),
                answers,
                at,
                blanks,
                next,
                next_blanks,
            )
            &&& slot_is_variable(slot, v, next.variables, next_blanks)
        }),
{
    lemma_key_is_first_place(at.variables, v@);
    lemma_key_is_first_place(blanks, v@);
    assert(grows(at, at.met(v)));
    assert(grows(outset(blanks), outset(blanks).met(v)));
    assert(outset(blanks).met(v) == outset(enter(blanks, v@)));
}

proof fn lemma_end_is_sound<E>(
    end: TermOrVariable,
    answers: Answers<E>,
    at: Progress,
    blanks: Seq<Name>,
)
    requires
        forall|i: int| 0 <= i < blanks.len() ==> (#[trigger] blanks[i]) is Unnamed,
    ensures
        ({
            let (outcome, next, next_blanks) = template_end_run(end, answers, at, blanks);
            &&& part_is_sound(outcome, answers, at, blanks, next, next_blanks)
            &&& outcome matches Outcome::Done(slot) ==> slot_is_end(
                slot,
                end,
                next.variables,
                next_blanks,
            )
        }),
{
    match end {
        TermOrVariable::Term(term) => {
            lemma_ask_is_sound(Question::Term(term), answers, at, blanks);
        },
        TermOrVariable::Variable(v) => {
            lemma_variable_is_sound(v, answers, at, blanks);
        },
    }
}

proof fn lemma_middle_is_sound<E>(
    middle: NamedNodeOrVariable,
    answers: Answers<E>,
    at: Progress,
    blanks: Seq<Name>,
)
    requires
        forall|i: int| 0 <= i < blanks.len() ==> (#[trigger] blanks[i]) is Unnamed,
    ensures
        ({
            let (outcome, next, next_blanks) = template_middle_run(middle, answers, at, blanks);
            &&& part_is_sound(outcome, answers, at, blanks, next, next_blanks)
            &&& outcome matches Outcome::Done(slot) ==> slot_is_middle(
                slot,
                middle,
                next.variables,
                next_blanks,
            )
        }),
{
    match middle {
        NamedNodeOrVariable::NamedNode(node) => {
            lemma_ask_is_sound(Question::NamedNode(node), answers, at, blanks);
        },
        NamedNodeOrVariable::Variable(v) => {
            lemma_variable_is_sound(v, answers, at, blanks);
        },
    }
}

/// A part that ends well can be followed by another.
proof fn lemma_parts_compose<T, U, E>(
    first: Outcome<T, E>,
    second: Outcome<U, E>,
    answers: Answers<E>,
    at: Progress,
    blanks: Seq<Name>,
    at1: Progress,
    blanks1: Seq<Name>,
    at2: Progress,
    blanks2: Seq<Name>,
)
    requires
        first is Done,
        part_is_sound(first, answers, at, blanks, at1, blanks1),
        part_is_sound(second, answers, at1, blanks1, at2, blanks2),
    ensures
        part_is_sound(second, answers, at, blanks, at2, blanks2),
{
    assert forall|i: int| at.variables.len() <= i < at2.variables.len() implies (
    #[trigger] at2.variables[i]) is Named by {
        if i < at1.variables.len() {
            reveal(grows);
            assert(at1.variables[i] is Named);
            assert(at1.variables[i] == at2.variables[i]);
        }
    }
}

/// A place stays where it is when more is numbered.
proof fn lemma_slot_stays(
    slot: TemplateSlot,
    v: Variable,
    at: Progress,
    blanks: Seq<Name>,
    next: Progress,
    next_blanks: Seq<Name>,
)
    requires
        both_grow(at, blanks, next, next_blanks),
    ensures
        slot_is_variable(slot, v, at.variables, blanks) ==> slot_is_variable(
            slot,
            v,
            next.variables,
            next_blanks,
        ),
{
    reveal(grows);
    match slot {
        TemplateSlot::Variable(k) => {
            if k < at.variables.len() {
                assert(at.variables[k as int] == next.variables[k as int]);
            }
        },
        TemplateSlot::BlankNode(k) => {
            if k < blanks.len() {
                assert(outset(blanks).variables[k as int] == outset(
                    next_blanks,
                ).variables[k as int]);
            }
        },
        TemplateSlot::Constant(_) => {},
    }
}

proof fn lemma_end_stays(
    slot: TemplateSlot,
    end: TermOrVariable,
    at: Progress,
    blanks: Seq<Name>,
    next: Progress,
    next_blanks: Seq<Name>,
)
    requires
        both_grow(at, blanks, next, next_blanks),
        slot_is_end(slot, end, at.variables, blanks),
    ensures
        slot_is_end(slot, end, next.variables, next_blanks),
{
    if let TermOrVariable::Variable(v) = end {
        lemma_slot_stays(slot, v, at, blanks, next, next_blanks);
    }
}

proof fn lemma_middle_stays(
    slot: TemplateSlot,
    middle: NamedNodeOrVariable,
    at: Progress,
    blanks: Seq<Name>,
    next: Progress,
    next_blanks: Seq<Name>,
)
    requires
        both_grow(at, blanks, next, next_blanks),
        slot_is_middle(slot, middle, at.variables, blanks),
    ensures
        slot_is_middle(slot, middle, next.variables, next_blanks),
{
    if let NamedNodeOrVariable::Variable(v) = middle {
        lemma_slot_stays(slot, v, at, blanks, next, next_blanks);
    }
}

proof fn lemma_triple_is_sound<E>(
    triple: TriplePattern,
    answers: Answers<E>,
    at: Progress,
    blanks: Seq<Name>,
)
    requires
        forall|i: int| 0 <= i < blanks.len() ==> (#[trigger] blanks[i]) is Unnamed,
    ensures
        ({
            let (outcome, next, next_blanks) = template_triple_run(triple, answers, at, blanks);
            &&& part_is_sound(outcome, answers, at, blanks, next, next_blanks)
            &&& outcome matches Outcome::Done(made) ==> triple_stands_for(
                made,
                triple,
                next.variables,
                next_blanks,
            )
        }),
{
    lemma_end_is_sound(triple.subject, answers, at, blanks);
    let (subject, at1, blanks1) = template_end_run(triple.subject, answers, at, blanks);
    if let Outcome::Done(s) = subject {
        lemma_middle_is_sound(triple.predicate, answers, at1, blanks1);
        let (predicate, at2, blanks2) = template_middle_run(
            triple.predicate,
            answers,
            at1,
            blanks1,
        );
        lemma_parts_compose(subject, predicate, answers, at, blanks, at1, blanks1, at2, blanks2);
        if let Outcome::Done(p) = predicate {
            lemma_end_is_sound(triple.object, answers, at2, blanks2);
            let (object, at3, blanks3) = template_end_run(triple.object, answers, at2, blanks2);
            lemma_parts_compose(predicate, object, answers, at, blanks, at2, blanks2, at3, blanks3);
            lemma_end_stays(s, triple.subject, at1, blanks1, at2, blanks2);
            lemma_end_stays(s, triple.subject, at2, blanks2, at3, blanks3);
            lemma_middle_stays(p, triple.predicate, at2, blanks2, at3, blanks3);
        }
    }
}

/// A template has one planned triple for each of its own, with every variable in its place: a
/// variable that the query names among the variables, any other among the blank nodes, where no
/// two have the same place. Planning it fails with an error of the store or not at all.
pub proof fn lemma_template_is_sound<E>(
    template: Seq<TriplePattern>,
    i: int,
    made: Seq<TemplateTriple>,
    answers: Answers<E>,
    at: Progress,
    blanks: Seq<Name>,
)
    requires
        0 <= i <= template.len(),
        made.len() == i,
        forall|j: int| 0 <= j < i ==> triple_stands_for(
            #[trigger] made[j],
            template[j],
            at.variables,
            blanks,
        ),
        forall|j: int| 0 <= j < blanks.len() ==> (#[trigger] blanks[j]) is Unnamed,
    ensures
        ({
            let (outcome, next, next_blanks) = template_run(
                template,
                i,
                made,
                answers,
                at,
                blanks,
            );
            &&& part_is_sound(outcome, answers, at, blanks, next, next_blanks)
            &&& outcome matches Outcome::Done(all) ==> {
                &&& all.len() == template.len()
                &&& forall|j: int|
                    0 <= j < template.len() ==> triple_stands_for(
                        #[trigger] all[j],
                        template[j],
                        next.variables,
                        next_blanks,
                    )
            }
        }),
    decreases template.len() - i,
{
    if i < template.len() {
        lemma_triple_is_sound(template[i], answers, at, blanks);
        let (outcome, at1, blanks1) = template_triple_run(template[i], answers, at, blanks);
        if let Outcome::Done(triple) = outcome {
            let more = made.push(triple);
            assert forall|j: int| 0 <= j < i + 1 implies triple_stands_for(
                #[trigger] more[j],
                template[j],
                at1.variables,
                blanks1,
            ) by {
                if j < i {
                    assert(triple_stands_for(made[j], template[j], at.variables, blanks));
                    lemma_end_stays(
                        made[j].subject,
                        template[j].subject,
                        at,
                        blanks,
                        at1,
                        blanks1,
                    );
                    lemma_middle_stays(
                        made[j].predicate,
                        template[j].predicate,
                        at,
                        blanks,
                        at1,
                        blanks1,
                    );
                    lemma_end_stays(made[j].object, template[j].object, at, blanks, at1, blanks1);
                }
            }
            lemma_template_is_sound(template, i + 1, more, answers, at1, blanks1);
            let (rest, at2, blanks2) = template_run(template, i + 1, more, answers, at1, blanks1);
            lemma_parts_compose(outcome, rest, answers, at, blanks, at1, blanks1, at2, blanks2);
        }
    } else {
        assert(grows(at, at));
        assert(grows(outset(blanks), outset(blanks)));
    }
}

proof fn lemma_template_end_parts<E>(
    end: TermOrVariable,
    a: Answers<E>,
    b: Answers<E>,
    at: Progress,
    blanks: Seq<Name>,
)
    ensures
        ({
            let (a_outcome, a_end, a_blanks) = template_end_run(end, a, at, blanks);
            let (b_outcome, b_end, b_blanks) = template_end_run(end, b, at, blanks);
            ||| a_outcome == b_outcome && a_end == b_end && a_blanks == b_blanks
            ||| parted(a, b, a_end, b_end)
        }),
{
    if let TermOrVariable::Term(term) = end {
        lemma_ask_parts(Question::Term(term), a, b, at);
    }
}

proof fn lemma_template_middle_parts<E>(
    middle: NamedNodeOrVariable,
    a: Answers<E>,
    b: Answers<E>,
    at: Progress,
    blanks: Seq<Name>,
)
    ensures
        ({
            let (a_outcome, a_end, a_blanks) = template_middle_run(middle, a, at, blanks);
            let (b_outcome, b_end, b_blanks) = template_middle_run(middle, b, at, blanks);
            ||| a_outcome == b_outcome && a_end == b_end && a_blanks == b_blanks
            ||| parted(a, b, a_end, b_end)
        }),
{
    if let NamedNodeOrVariable::NamedNode(node) = middle {
        lemma_ask_parts(Question::NamedNode(node), a, b, at);
    }
}

/// Planning a triple of a template goes on from where its subject and its predicate end.
proof fn lemma_triple_steps<E>(
    triple: TriplePattern,
    answers: Answers<E>,
    at: Progress,
    blanks: Seq<Name>,
)
    requires
        forall|j: int| 0 <= j < blanks.len() ==> (#[trigger] blanks[j]) is Unnamed,
    ensures
        ({
            let end = template_triple_run(triple, answers, at, blanks).1;
            let (subject, at1, blanks1) = template_end_run(triple.subject, answers, at, blanks);
            let at2 = template_middle_run(triple.predicate, answers, at1, blanks1).1;
            grows(at1, end) && (subject is Done ==> grows(at2, end))
        }),
{
    lemma_end_is_sound(triple.subject, answers, at, blanks);
    let (subject, at1, blanks1) = template_end_run(triple.subject, answers, at, blanks);
    lemma_middle_is_sound(triple.predicate, answers, at1, blanks1);
    let (predicate, at2, blanks2) = template_middle_run(triple.predicate, answers, at1, blanks1);
    lemma_end_is_sound(triple.object, answers, at2, blanks2);
    assert(grows(at1, at1));
    assert(grows(at2, at2));
}

proof fn lemma_template_triple_parts<E>(
    triple: TriplePattern,
    a: Answers<E>,
    b: Answers<E>,
    at: Progress,
    blanks: Seq<Name>,
)
    requires
        forall|j: int| 0 <= j < blanks.len() ==> (#[trigger] blanks[j]) is Unnamed,
    ensures
        ({
            let (a_outcome, a_end, a_blanks) = template_triple_run(triple, a, at, blanks);
            let (b_outcome, b_end, b_blanks) = template_triple_run(triple, b, at, blanks);
            ||| a_outcome == b_outcome && a_end == b_end && a_blanks == b_blanks
            ||| parted(a, b, a_end, b_end)
        }),
{
    let a_end = template_triple_run(triple, a, at, blanks).1;
    let b_end = template_triple_run(triple, b, at, blanks).1;
    lemma_triple_steps(triple, a, at, blanks);
    lemma_triple_steps(triple, b, at, blanks);
    lemma_template_end_parts(triple.subject, a, b, at, blanks);
    let (outcome, a1, blanks1) = template_end_run(triple.subject, a, at, blanks);
    let b1 = template_end_run(triple.subject, b, at, blanks).1;
    lemma_parted_later(a, b, a1, b1, a_end, b_end);
    if !parted(a, b, a1, b1) && outcome is Done {
        lemma_template_middle_parts(triple.predicate, a, b, a1, blanks1);
        let (_, a2, blanks2) = template_middle_run(triple.predicate, a, a1, blanks1);
        let b2 = template_middle_run(triple.predicate, b, a1, blanks1).1;
        lemma_parted_later(a, b, a2, b2, a_end, b_end);
        lemma_template_end_parts(triple.object, a, b, a2, blanks2);
    }
}

/// Planning a template goes on from where its next triple ends.
proof fn lemma_template_steps<E>(
    template: Seq<TriplePattern>,
    i: int,
    made: Seq<TemplateTriple>,
    answers: Answers<E>,
    at: Progress,
    blanks: Seq<Name>,
)
    requires
        forall|j: int| 0 <= j < blanks.len() ==> (#[trigger] blanks[j]) is Unnamed,
        0 <= i,
    ensures
        grows(at, template_run(template, i, made, answers, at, blanks).1),
        i < template.len() ==> grows(
            template_triple_run(template[i], answers, at, blanks).1,
            template_run(template, i, made, answers, at, blanks).1,
        ),
    decreases template.len() - i,
{
    if i < template.len() {
        lemma_triple_is_sound(template[i], answers, at, blanks);
        let (outcome, at1, blanks1) = template_triple_run(template[i], answers, at, blanks);
        assert(grows(at1, at1));
        if let Outcome::Done(triple) = outcome {
            lemma_template_steps(template, i + 1, made.push(triple), answers, at1, blanks1);
        }
    } else {
        assert(grows(at, at));
    }
}

/// Planning a template twice comes to the same, or the store answered differently.
pub proof fn lemma_template_parts<E>(
    template: Seq<TriplePattern>,
    i: int,
    made: Seq<TemplateTriple>,
    a: Answers<E>,
    b: Answers<E>,
    at: Progress,
    blanks: Seq<Name>,
)
    requires
        forall|j: int| 0 <= j < blanks.len() ==> (#[trigger] blanks[j]) is Unnamed,
        0 <= i,
    ensures
        ({
            let (a_outcome, a_end, a_blanks) = template_run(template, i, made, a, at, blanks);
            let (b_outcome, b_end, b_blanks) = template_run(template, i, made, b, at, blanks);
            ||| a_outcome == b_outcome && a_end == b_end && a_blanks == b_blanks
            ||| parted(a, b, a_end, b_end)
        }),
    decreases template.len() - i,
{
    if i < template.len() {
        lemma_triple_is_sound(template[i], a, at, blanks);
        lemma_template_steps(template, i, made, a, at, blanks);
        lemma_template_steps(template, i, made, b, at, blanks);
        lemma_template_triple_parts(template[i], a, b, at, blanks);
        let (outcome, at1, blanks1) = template_triple_run(template[i], a, at, blanks);
        lemma_parted_later(
            a,
            b,
            at1,
            template_triple_run(template[i], b, at, blanks).1,
            template_run(template, i, made, a, at, blanks).1,
            template_run(template, i, made, b, at, blanks).1,
        );
        if let Outcome::Done(triple) = outcome {
            lemma_template_parts(template, i + 1, made.push(triple), a, b, at1, blanks1);
        }
    }
}

} // verus!
