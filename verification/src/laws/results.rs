//! What holds of planning as a whole.
use crate::algebra::{Expression, GraphPattern, NamedNodeOrVariable, TermOrVariable, TriplePattern};
use crate::builder::{built, not_built, template_built};
use crate::error::{Error, Failure, Outcome};
use crate::laws::dialogue::{lemma_pattern_parts, parted};
use crate::laws::growth::{begins_with, grows, lemma_keys_grow, lemma_pattern_grows};
use crate::laws::scope::first_positions;
use crate::laws::scoping::lemma_pattern_in_scope;
use crate::laws::templates::{lemma_template_is_sound, lemma_template_parts, triple_stands_for};
use crate::model::{names, Name, NamedNode, Term, Variable};
use crate::numbering::{enter, key_of, lemma_key_is_first_place};
use crate::plan::{template_models, Plan, PlanNode, Slot, TemplateSlot, TripleTemplate};
use crate::semantics::{
    branches, branches_run, end_run, keys_run, middle_run, outset, pattern_run, query_run,
    template_end_run, template_middle_run, template_run, Progress,
};
use crate::store::{may_answer, may_answer_all, Answers, EncodedTerm, Question, StoreConnection};
use vstd::prelude::*;

verus! {

/// A name keeps its key when the table grows.
pub proof fn lemma_key_is_kept(earlier: Seq<Name>, later: Seq<Name>, name: Name)
    requires
        begins_with(later, earlier),
        earlier.contains(name),
    ensures
        key_of(later, name) == key_of(earlier, name),
{
    lemma_key_is_first_place(earlier, name);
    lemma_key_is_first_place(later, name);
    let k = key_of(earlier, name) as int;
    assert(later[k] == name);
    if key_of(later, name) < k {
        assert(earlier[key_of(later, name) as int] == later[key_of(later, name) as int]);
    }
}

/// Numbering a name a second time changes nothing: it has the key that it was given.
pub proof fn lemma_entering_twice(table: Seq<Name>, name: Name)
    ensures
        enter(enter(table, name), name) == enter(table, name),
        key_of(enter(table, name), name) == key_of(table, name),
        enter(table, name)[key_of(table, name) as int] == name,
        key_of(table, name) < enter(table, name).len(),
{
    let longer = enter(table, name);
    lemma_key_is_first_place(table, name);
    lemma_key_is_first_place(longer, name);
    if !table.contains(name) {
        assert(longer[table.len() as int] == name);
    }
    let k = key_of(longer, name) as int;
    if k < key_of(table, name) {
        assert(table[k] == longer[k]);
    }
}

/// Names that differ have keys that differ.
pub proof fn lemma_keys_differ(table: Seq<Name>, a: Name, b: Name)
    requires
        table.contains(a),
        table.contains(b),
        a != b,
    ensures
        key_of(table, a) != key_of(table, b),
{
    lemma_key_is_first_place(table, a);
    lemma_key_is_first_place(table, b);
}

/// The positions of a plan that is built are those of the variables that come with it, and those
/// are all different.
pub proof fn lemma_built_in_scope<'p, S: StoreConnection>(
    store: S,
    pattern: GraphPattern,
    answers: Answers<S::Error>,
    plan: PlanNode,
    variables: Vec<Variable>,
)
    requires
        built(store, pattern, answers, Ok::<_, Error<'p, S::Error>>((plan, variables))),
    ensures
        plan.model().within(first_positions(variables@.len())),
        names(variables@).no_duplicates(),
{
    let at = outset(seq![]);
    let graph = Slot::Constant(EncodedTerm::DefaultGraph);
    let end = query_run(pattern, answers).1;
    let scope = first_positions(end.variables.len());
    lemma_pattern_in_scope(pattern, Plan::Init, graph, answers, at, scope);
    lemma_pattern_grows(pattern, Plan::Init, graph, answers, at);
    reveal(grows);
    assert(names(variables@).len() == variables@.len());
}

/// Whether a store has at most one answer to each question.
pub open spec fn answers_one_way<S: StoreConnection>(store: S) -> bool {
    forall|question: Question, x: Result<EncodedTerm, S::Error>, y: Result<EncodedTerm, S::Error>|
        #[trigger] may_answer(store, question, x) && #[trigger] may_answer(store, question, y) ==> x
            == y
}

/// Whether two results hold the same plan and the same variables, or the same error.
pub open spec fn same_result<'p, 'q, E>(
    first: Result<(PlanNode, Vec<Variable>), Error<'p, E>>,
    second: Result<(PlanNode, Vec<Variable>), Error<'q, E>>,
) -> bool {
    match (first, second) {
        (Ok((plan, variables)), Ok((other_plan, other_variables))) => {
            &&& plan.model() == other_plan.model()
            &&& names(variables@) == names(other_variables@)
        },
        (Err(error), Err(other_error)) => error.model() == other_error.model(),
        _ => false,
    }
}

/// Runs do not part over a store that has one answer to each question.
pub proof fn lemma_one_way<S: StoreConnection>(
    store: S,
    a: Answers<S::Error>,
    b: Answers<S::Error>,
    a_end: Progress,
    b_end: Progress,
)
    requires
        answers_one_way(store),
        may_answer_all(store, a_end.asked, a),
        may_answer_all(store, b_end.asked, b),
    ensures
        !parted(a, b, a_end, b_end),
{
    reveal(parted);
    assert forall|i: int|
        0 <= i < a_end.asked.len() && i < b_end.asked.len() && a_end.asked[i]
            == b_end.asked[i] implies #[trigger] a(i) == b(i) by {
        assert(may_answer(store, a_end.asked[i], a(i)));
        assert(may_answer(store, b_end.asked[i], b(i)));
    }
}

/// Over a store that has one answer to each question, a query has one result.
pub proof fn lemma_build_is_determined<'p, 'q, S: StoreConnection>(
    store: S,
    pattern: GraphPattern,
    a: Answers<S::Error>,
    b: Answers<S::Error>,
    first: Result<(PlanNode, Vec<Variable>), Error<'p, S::Error>>,
    second: Result<(PlanNode, Vec<Variable>), Error<'q, S::Error>>,
)
    requires
        answers_one_way(store),
        built(store, pattern, a, first),
    ensures
        built(store, pattern, b, second) ==> same_result(first, second),
        !not_built(store, pattern, b),
{
    let at = outset(seq![]);
    let graph = Slot::Constant(EncodedTerm::DefaultGraph);
    lemma_pattern_parts(pattern, Plan::Init, graph, a, b, at);
    let a_end = query_run(pattern, a).1;
    let b_end = query_run(pattern, b).1;
    if may_answer_all(store, b_end.asked, b) {
        lemma_one_way(store, a, b, a_end, b_end);
    }
}

proof fn lemma_branches_alike<E>(
    p: GraphPattern,
    q: GraphPattern,
    i: int,
    children: Seq<Plan>,
    graph: Slot,
    answers: Answers<E>,
    at: Progress,
)
    requires
        p is Union,
        q is Union,
        branches(p) == branches(q),
        0 <= i,
    ensures
        branches_run(p, i, children, graph, answers, at) == branches_run(
            q,
            i,
            children,
            graph,
            answers,
            at,
        ),
    decreases branches(p).len() - i,
{
    if i < branches(p).len() {
        let (outcome, next) = pattern_run(branches(p)[i], Plan::Init, graph, answers, at);
        if let Outcome::Done(plan) = outcome {
            lemma_branches_alike(p, q, i + 1, children.push(plan), graph, answers, next);
        }
    }
}

/// How unions are nested makes no difference: what counts is their alternatives and the order in
/// which these come.
pub proof fn lemma_nesting_is_irrelevant<E>(
    p: GraphPattern,
    q: GraphPattern,
    input: Plan,
    graph: Slot,
    answers: Answers<E>,
    at: Progress,
)
    requires
        p is Union,
        q is Union,
        branches(p) == branches(q),
    ensures
        pattern_run(p, input, graph, answers, at) == pattern_run(q, input, graph, answers, at),
{
    lemma_branches_alike(p, q, 0, seq![], graph, answers, at);
}

/// Union is associative.
pub proof fn lemma_union_is_associative<E>(
    a: Box<GraphPattern>,
    b: Box<GraphPattern>,
    c: Box<GraphPattern>,
    input: Plan,
    graph: Slot,
    answers: Answers<E>,
    at: Progress,
)
    ensures
        pattern_run(
            GraphPattern::Union(Box::new(GraphPattern::Union(a, b)), c),
            input,
            graph,
            answers,
            at,
        ) == pattern_run(
            GraphPattern::Union(a, Box::new(GraphPattern::Union(b, c))),
            input,
            graph,
            answers,
            at,
        ),
{
    let left = GraphPattern::Union(a, b);
    let right = GraphPattern::Union(b, c);
    let p = GraphPattern::Union(Box::new(left), c);
    let q = GraphPattern::Union(a, Box::new(right));
    assert(branches(left) == branches(*b) + branches(*a));
    assert(branches(right) == branches(*c) + branches(*b));
    assert(branches(p) == branches(*c) + branches(left));
    assert(branches(q) == branches(right) + branches(*a));
    assert(branches(p) =~= branches(q));
    lemma_nesting_is_irrelevant(p, q, input, graph, answers, at);
}

/// No alternative of a union is itself a union.
pub proof fn lemma_branches_are_flat(pattern: GraphPattern)
    ensures
        branches(pattern).len() > 0,
        forall|i: int|
            0 <= i < branches(pattern).len() ==> (#[trigger] branches(pattern)[i]) !is Union,
    decreases pattern,
{
    if let GraphPattern::Union(a, b) = pattern {
        lemma_branches_are_flat(*a);
        lemma_branches_are_flat(*b);
        let second = branches(*b).len();
        assert forall|i: int| 0 <= i < branches(pattern).len() implies (
        #[trigger] branches(pattern)[i]) !is Union by {
            if i < second {
                assert(branches(pattern)[i] == branches(*b)[i]);
            } else {
                assert(branches(pattern)[i] == branches(*a)[i - second]);
            }
        }
    }
}

/// What the plan of a union is made of, given the alternatives that have plans already.
proof fn lemma_branch_plans<E>(
    pattern: GraphPattern,
    i: int,
    children: Seq<Plan>,
    graph: Slot,
    answers: Answers<E>,
    at: Progress,
)
    requires
        pattern is Union,
        0 <= i <= branches(pattern).len(),
        children.len() == i,
        forall|j: int|
            0 <= j < i ==> is_plan_of(#[trigger] children[j], branches(pattern)[j], graph, answers),
    ensures
        match branches_run(pattern, i, children, graph, answers, at).0 {
            Outcome::Done(made) => {
                &&& made.len() == branches(pattern).len()
                &&& forall|j: int|
                    0 <= j < made.len() ==> is_plan_of(
                        #[trigger] made[j],
                        branches(pattern)[j],
                        graph,
                        answers,
                    )
            },
            _ => true,
        },
    decreases branches(pattern).len() - i,
{
    if i < branches(pattern).len() {
        let (outcome, next) = pattern_run(branches(pattern)[i], Plan::Init, graph, answers, at);
        if let Outcome::Done(plan) = outcome {
            lemma_branch_plans(pattern, i + 1, children.push(plan), graph, answers, next);
        }
    }
}

/// Whether a pattern has this plan, planned afresh from some progress on.
pub open spec fn is_plan_of<E>(
    plan: Plan,
    pattern: GraphPattern,
    graph: Slot,
    answers: Answers<E>,
) -> bool {
    exists|at: Progress|
        (#[trigger] pattern_run(pattern, Plan::Init, graph, answers, at)).0 == Outcome::<
            Plan,
            E,
        >::Done(plan)
}

/// The plan of a union has one child for each alternative, planned afresh, and enters them from
/// what the union starts from.
pub proof fn lemma_union_plan<E>(
    pattern: GraphPattern,
    input: Plan,
    graph: Slot,
    answers: Answers<E>,
    at: Progress,
)
    requires
        pattern is Union,
    ensures
        match pattern_run(pattern, input, graph, answers, at).0 {
            Outcome::Done(plan) => {
                &&& plan matches Plan::Union { entry, children }
                &&& *entry == input
                &&& children.len() == branches(pattern).len()
                &&& forall|i: int|
                    0 <= i < children.len() ==> is_plan_of(
                        #[trigger] children[i],
                        branches(pattern)[i],
                        graph,
                        answers,
                    )
            },
            _ => true,
        },
{
    lemma_branch_plans(pattern, 0, seq![], graph, answers, at);
}

/// The sides of a join, and of a difference, both start from what it starts from. They share one
/// numbering, left side first.
pub proof fn lemma_two_sides<E>(
    a: Box<GraphPattern>,
    b: Box<GraphPattern>,
    input: Plan,
    graph: Slot,
    answers: Answers<E>,
    at: Progress,
)
    ensures
        ({
            let join = pattern_run(GraphPattern::Join(a, b), input, graph, answers, at);
            let minus = pattern_run(GraphPattern::Minus(a, b), input, graph, answers, at);
            match pattern_run(*a, input, graph, answers, at) {
                (Outcome::Done(l), at1) => match pattern_run(*b, input, graph, answers, at1) {
                    (Outcome::Done(r), at2) => {
                        let left = Box::new(l);
                        let right = Box::new(r);
                        &&& join == (Outcome::<Plan, E>::Done(Plan::Join { left, right }), at2)
                        &&& minus == (Outcome::<Plan, E>::Done(Plan::AntiJoin { left, right }), at2)
                    },
                    (stop, at2) => join == (stop, at2) && minus == (stop, at2),
                },
                (stop, at1) => join == (stop, at1) && minus == (stop, at1),
            }
        }),
{
}

/// A variable has one position, as a subject, a predicate, an object or the name of a graph, and
/// planning it again numbers nothing.
pub proof fn lemma_one_position<E>(v: Variable, answers: Answers<E>, at: Progress)
    ensures
        ({
            let end = end_run(TermOrVariable::Variable(v), answers, at);
            let middle = middle_run(NamedNodeOrVariable::Variable(v), answers, at);
            let next = end.1;
            &&& end.0 is Done
            &&& end == middle
            &&& end_run(TermOrVariable::Variable(v), answers, next) == end
            &&& middle_run(NamedNodeOrVariable::Variable(v), answers, next) == end
        }),
{
    lemma_entering_twice(at.variables, v@);
}

/// A variable of a template is planned alike as a subject, a predicate or an object. One that the
/// query names is numbered among the variables, and the blank nodes stay as they are. Any other
/// is numbered among the blank nodes, and the variables stay as they are. Planning it again
/// numbers nothing. A constant numbers nothing either.
pub proof fn lemma_template_one_position<E>(
    v: Variable,
    node: NamedNode,
    term: Term,
    answers: Answers<E>,
    at: Progress,
    blanks: Seq<Name>,
)
    ensures
        ({
            let end = template_end_run(TermOrVariable::Variable(v), answers, at, blanks);
            let middle = template_middle_run(NamedNodeOrVariable::Variable(v), answers, at, blanks);
            let (outcome, next, next_blanks) = end;
            &&& end == middle
            &&& next.asked == at.asked
            &&& if v@ is Named {
                &&& outcome == Outcome::<TemplateSlot, E>::Done(TemplateSlot::Variable(at.key(v)))
                &&& next.variables == enter(at.variables, v@)
                &&& next_blanks == blanks
            } else {
                &&& outcome == Outcome::<TemplateSlot, E>::Done(
                    TemplateSlot::BlankNode(key_of(blanks, v@)),
                )
                &&& next.variables == at.variables
                &&& next_blanks == enter(blanks, v@)
            }
            &&& template_end_run(
                TermOrVariable::Variable(v),
                answers,
                next,
                next_blanks,
            ) == end
            &&& template_middle_run(
                NamedNodeOrVariable::Variable(v),
                answers,
                next,
                next_blanks,
            ) == end
        }),
        ({
            let (outcome, next, next_blanks) = template_middle_run(
                NamedNodeOrVariable::NamedNode(node),
                answers,
                at,
                blanks,
            );
            &&& outcome == match answers(at.asked.len() as int) {
                Ok(code) => Outcome::<TemplateSlot, E>::Done(TemplateSlot::Constant(code)),
                Err(error) => Outcome::Failed(Failure::Store(error)),
            }
            &&& next == at.asking(Question::NamedNode(node))
            &&& next_blanks == blanks
        }),
        ({
            let (outcome, next, next_blanks) = template_end_run(
                TermOrVariable::Term(term),
                answers,
                at,
                blanks,
            );
            &&& outcome == match answers(at.asked.len() as int) {
                Ok(code) => Outcome::<TemplateSlot, E>::Done(TemplateSlot::Constant(code)),
                Err(error) => Outcome::Failed(Failure::Store(error)),
            }
            &&& next == at.asking(Question::Term(term))
            &&& next_blanks == blanks
        }),
{
    lemma_entering_twice(at.variables, v@);
    lemma_entering_twice(blanks, v@);
}

/// What numbering variables in turn comes to.
proof fn lemma_keys_are_places(variables: Seq<Variable>, i: int, keys: Seq<nat>, at: Progress)
    requires
        0 <= i <= variables.len(),
        keys.len() == i,
        forall|j: int|
            0 <= j < i ==> #[trigger] keys[j] < at.variables.len() && at.variables[keys[j] as int]
                == variables[j]@,
    ensures
        ({
            let (made, next) = keys_run(variables, i, keys, at);
            &&& made.len() == variables.len()
            &&& forall|j: int|
                0 <= j < variables.len() ==> #[trigger] made[j] < next.variables.len()
                    && next.variables[made[j] as int] == variables[j]@
            &&& forall|name: Name| #[trigger]
                next.variables.contains(name) ==> at.variables.contains(name) || names(
                    variables,
                ).contains(name)
        }),
    decreases variables.len() - i,
{
    if i < variables.len() {
        let v = variables[i];
        let met = at.met(v);
        lemma_entering_twice(at.variables, v@);
        let more = keys.push(at.key(v));
        assert forall|j: int| 0 <= j < i + 1 implies #[trigger] more[j] < met.variables.len()
            && met.variables[more[j] as int] == variables[j]@ by {
            if j < i {
                assert(keys[j] < at.variables.len());
            }
        }
        lemma_keys_are_places(variables, i + 1, more, met);
        assert forall|name: Name| #[trigger]
            met.variables.contains(name) implies at.variables.contains(name) || names(
            variables,
        ).contains(name) by {
            if !at.variables.contains(v@) {
                let k = choose|k: int| 0 <= k < met.variables.len() && met.variables[k] == name;
                if k < at.variables.len() {
                    assert(at.variables[k] == name);
                } else {
                    assert(names(variables)[i] == name);
                }
            }
        }
    }
}

/// A projection maps each of its variables to that variable's position, and numbers these
/// variables alone: those inside it stay inside.
pub proof fn lemma_projection<E>(
    p: Box<GraphPattern>,
    variables: Vec<Variable>,
    input: Plan,
    graph: Slot,
    answers: Answers<E>,
    at: Progress,
)
    ensures
        match pattern_run(GraphPattern::Project(p, variables), input, graph, answers, at) {
            (Outcome::Done(plan), next) => {
                &&& plan matches Plan::Project { mapping, .. }
                &&& mapping.len() == variables@.len()
                &&& forall|i: int|
                    0 <= i < mapping.len() ==> #[trigger] mapping[i] < next.variables.len()
                        && next.variables[mapping[i] as int] == variables@[i]@
                &&& forall|name: Name| #[trigger]
                    next.variables.contains(name) <==> at.variables.contains(name) || names(
                        variables@,
                    ).contains(name)
            },
            (_, next) => next.variables == at.variables,
        },
{
    let pattern = GraphPattern::Project(p, variables);
    let inside = at.with_variables(names(variables@));
    let (child, inner) = pattern_run(*p, input, graph, answers, inside);
    let back = inner.with_variables(at.variables);
    lemma_keys_are_places(variables@, 0, seq![], back);
    lemma_keys_grow(variables@, 0, seq![], back);
    let (mapping, next) = keys_run(variables@, 0, seq![], back);
    assert forall|name: Name| #[trigger] next.variables.contains(name) <==> at.variables.contains(
        name,
    ) || names(variables@).contains(name) by {
        reveal(grows);
        if at.variables.contains(name) {
            let k = choose|k: int| 0 <= k < at.variables.len() && at.variables[k] == name;
            assert(next.variables[k] == name);
        }
        if names(variables@).contains(name) {
            let i = choose|i: int| 0 <= i < names(variables@).len() && names(variables@)[i] == name;
            assert(next.variables[mapping[i] as int] == variables@[i]@);
        }
    }
}

proof fn lemma_distinct_keys(variables: Seq<Variable>, i: int, keys: Seq<nat>, at: Progress)
    requires
        0 <= i <= variables.len(),
        names(variables).no_duplicates(),
        at.variables == names(variables).take(i),
        keys == Seq::new(i as nat, |j: int| j as nat),
    ensures
        keys_run(variables, i, keys, at).0 == Seq::new(variables.len(), |j: int| j as nat),
        keys_run(variables, i, keys, at).1.variables == names(variables),
    decreases variables.len() - i,
{
    if i < variables.len() {
        let v = variables[i];
        lemma_key_is_first_place(at.variables, v@);
        if at.variables.contains(v@) {
            let k = choose|k: int| 0 <= k < i && at.variables[k] == v@;
            assert(names(variables)[k] == names(variables)[i]);
        }
        let more = keys.push(at.key(v));
        assert(more =~= Seq::new((i + 1) as nat, |j: int| j as nat));
        assert(at.met(v).variables =~= names(variables).take(i + 1));
        lemma_distinct_keys(variables, i + 1, more, at.met(v));
    } else {
        assert(names(variables).take(i) =~= names(variables));
    }
}

/// The variables of a query that projects different variables are these, in their order, and its
/// tuples are not permuted.
pub proof fn lemma_top_projection<E>(
    p: Box<GraphPattern>,
    variables: Vec<Variable>,
    answers: Answers<E>,
)
    requires
        names(variables@).no_duplicates(),
    ensures
        match query_run(GraphPattern::Project(p, variables), answers) {
            (Outcome::Done(plan), end) => {
                &&& end.variables == names(variables@)
                &&& plan matches Plan::Project { mapping, .. }
                &&& mapping == Seq::new(variables@.len(), |i: int| i as nat)
            },
            _ => true,
        },
{
    let at = outset(seq![]);
    let graph = Slot::Constant(EncodedTerm::DefaultGraph);
    let inside = at.with_variables(names(variables@));
    let inner = pattern_run(*p, Plan::Init, graph, answers, inside).1;
    let back = inner.with_variables(at.variables);
    assert(back.variables =~= names(variables@).take(0));
    assert(Seq::<nat>::empty() =~= Seq::new(0, |j: int| j as nat));
    lemma_distinct_keys(variables@, 0, seq![], back);
}

/// A query that asks for all its solutions has the plan of what it holds, as has one that lets
/// duplicates go.
pub proof fn lemma_nothing_to_do<E>(
    p: Box<GraphPattern>,
    input: Plan,
    graph: Slot,
    answers: Answers<E>,
    at: Progress,
)
    ensures
        pattern_run(GraphPattern::Slice(p, 0, None), input, graph, answers, at) == pattern_run(
            *p,
            input,
            graph,
            answers,
            at,
        ),
        pattern_run(GraphPattern::Reduced(p), input, graph, answers, at) == pattern_run(
            *p,
            input,
            graph,
            answers,
            at,
        ),
{
}

/// A left join whose condition is `true` has no filter, and asks the store nothing about it.
pub proof fn lemma_true_condition<E>(
    a: Box<GraphPattern>,
    b: Box<GraphPattern>,
    condition: Expression,
    input: Plan,
    graph: Slot,
    answers: Answers<E>,
    at: Progress,
)
    requires
        condition.is_literal_true(),
    ensures
        ({
            let (left, at1) = pattern_run(*a, input, graph, answers, at);
            let (right, at2) = pattern_run(*b, Plan::Init, graph, answers, at1);
            let pattern = GraphPattern::LeftJoin(a, b, condition);
            match pattern_run(pattern, input, graph, answers, at) {
                (Outcome::Done(plan), next) => {
                    &&& plan matches Plan::LeftJoin { left: l, right: r, .. }
                    &&& left == Outcome::<Plan, E>::Done(*l)
                    &&& right == Outcome::<Plan, E>::Done(*r)
                    &&& next == at2
                },
                _ => !(left is Done && right is Done),
            }
        }),
{
}

/// A planned template has a triple for each triple of the template. Each variable that the query
/// names stands at a position of its own, which is the one that it was given if it was given one;
/// each other variable is a blank node of its own.
pub proof fn lemma_template_in_place<'p, S: StoreConnection>(
    store: S,
    template: Seq<TriplePattern>,
    variables: Seq<Name>,
    answers: Answers<S::Error>,
    triples: Vec<TripleTemplate>,
) -> (numbering: (Seq<Name>, Seq<Name>))
    requires
        template_built(
            store,
            template,
            variables,
            answers,
            Ok::<_, Error<'p, S::Error>>(triples),
        ),
    ensures
        triples@.len() == template.len(),
        begins_with(numbering.0, variables),
        variables.no_duplicates() ==> numbering.0.no_duplicates(),
        numbering.1.no_duplicates(),
        forall|i: int| 0 <= i < numbering.1.len() ==> (#[trigger] numbering.1[i]) is Unnamed,
        forall|i: int|
            0 <= i < template.len() ==> triple_stands_for(
                (#[trigger] triples@[i]).model(),
                template[i],
                numbering.0,
                numbering.1,
            ),
{
    let at = outset(variables);
    lemma_template_is_sound(template, 0, seq![], answers, at, seq![]);
    let (outcome, end, blanks) = template_run(template, 0, seq![], answers, at, seq![]);
    reveal(grows);
    assert(outset(seq![]).variables.no_duplicates());
    assert(template_models(triples@).len() == triples@.len());
    assert forall|i: int| 0 <= i < template.len() implies triple_stands_for(
        (#[trigger] triples@[i]).model(),
        template[i],
        end.variables,
        blanks,
    ) by {
        assert(template_models(triples@)[i] == triples@[i].model());
    }
    (end.variables, blanks)
}

/// Over a store that has one answer to each question, a template has one result.
pub proof fn lemma_template_is_determined<'p, 'q, S: StoreConnection>(
    store: S,
    template: Seq<TriplePattern>,
    variables: Seq<Name>,
    a: Answers<S::Error>,
    b: Answers<S::Error>,
    first: Result<Vec<TripleTemplate>, Error<'p, S::Error>>,
    second: Result<Vec<TripleTemplate>, Error<'q, S::Error>>,
)
    requires
        answers_one_way(store),
        template_built(store, template, variables, a, first),
        template_built(store, template, variables, b, second),
    ensures
        match (first, second) {
            (Ok(triples), Ok(other_triples)) => template_models(triples@) == template_models(
                other_triples@,
            ),
            (Err(error), Err(other_error)) => error.model() == other_error.model(),
            _ => false,
        },
{
    let at = outset(variables);
    lemma_template_parts(template, 0, seq![], a, b, at, seq![]);
    let a_end = template_run(template, 0, seq![], a, at, seq![]).1;
    let b_end = template_run(template, 0, seq![], b, at, seq![]).1;
    lemma_one_way(store, a, b, a_end, b_end);
}

} // verus!
