//! A plan depends on variables only up to renaming.
use crate::algebra::{
    Expression, GraphPattern, NamedNodeOrVariable, OrderComparator, StaticBindings, TermOrVariable,
    TripleOrPathPattern, TriplePattern,
};
use crate::builder::built;
use crate::error::{Error, Failure, Outcome};
use crate::expression::{
    applied, least_operands, lemma_operand_is_part, operands, rejection, used_parameters,
};
use crate::laws::dialogue::lemma_pattern_parts;
use crate::laws::results::{answers_one_way, lemma_one_way};
use crate::model::{names, Name, Term, Variable};
use crate::numbering::{enter, key_of};
use crate::ordering::{
    bind_count, end_variable, join_order, lemma_ranked_is_permutation, middle_variable,
    pattern_variables, ranked, with_count,
};
use crate::plan::{Formula, Plan, PlanNode, Slot, SortKey};
use crate::semantics::{
    ask, blank_tuple, branches, branches_run, comparator_run, comparators_run, end_run,
    expression_run, joins_run, keys_run, lemma_branch_is_part, middle_run, operands_run, outset,
    pattern_run, query_run, row_run, rows_run, triple_run, Progress,
};
use crate::store::{Answers, EncodedTerm, Question, StoreConnection};
use vstd::prelude::*;

verus! {

/// A new name for each name.
pub type Renaming = spec_fn(Name) -> Name;

/// Whether no two names get the same new name.
pub open spec fn is_one_for_one(f: Renaming) -> bool {
    forall|x: Name, y: Name| #[trigger] f(x) == #[trigger] f(y) ==> x == y
}

/// A table with its names renamed.
pub open spec fn renamed(table: Seq<Name>, f: Renaming) -> Seq<Name> {
    Seq::new(table.len(), |i: int| f(table[i]))
}

/// Whether variables are renamed, one by one.
pub open spec fn variables_rename(
    variables: Seq<Variable>,
    others: Seq<Variable>,
    f: Renaming,
) -> bool {
    names(others) == renamed(names(variables), f)
}

/// Whether a subject or an object is renamed.
pub open spec fn end_renames(end: TermOrVariable, other: TermOrVariable, f: Renaming) -> bool {
    match (end, other) {
        (TermOrVariable::Term(s), TermOrVariable::Term(t)) => s == t,
        (TermOrVariable::Variable(v), TermOrVariable::Variable(w)) => w@ == f(v@),
        _ => false,
    }
}

/// Whether a predicate or the name of a graph is renamed.
pub open spec fn middle_renames(
    middle: NamedNodeOrVariable,
    other: NamedNodeOrVariable,
    f: Renaming,
) -> bool {
    match (middle, other) {
        (NamedNodeOrVariable::NamedNode(m), NamedNodeOrVariable::NamedNode(n)) => m == n,
        (NamedNodeOrVariable::Variable(v), NamedNodeOrVariable::Variable(w)) => w@ == f(v@),
        _ => false,
    }
}

/// Whether a member of a basic graph pattern is renamed.
pub open spec fn member_renames(
    member: TripleOrPathPattern,
    other: TripleOrPathPattern,
    f: Renaming,
) -> bool {
    match (member, other) {
        (TripleOrPathPattern::Triple(s), TripleOrPathPattern::Triple(t)) => {
            &&& end_renames(s.subject, t.subject, f)
            &&& middle_renames(s.predicate, t.predicate, f)
            &&& end_renames(s.object, t.object, f)
        },
        (TripleOrPathPattern::Path(p), TripleOrPathPattern::Path(q)) => {
            &&& end_renames(p.subject, q.subject, f)
            &&& p.path == q.path
            &&& end_renames(p.object, q.object, f)
        },
        _ => false,
    }
}

/// Whether the members of a basic graph pattern are renamed, one by one.
pub open spec fn members_rename(
    members: Seq<TripleOrPathPattern>,
    others: Seq<TripleOrPathPattern>,
    f: Renaming,
) -> bool {
    &&& members.len() == others.len()
    &&& forall|i: int|
        0 <= i < members.len() ==> member_renames(#[trigger] members[i], others[i], f)
}

/// Whether a table of bindings is renamed.
pub open spec fn bindings_rename(
    bindings: StaticBindings,
    other: StaticBindings,
    f: Renaming,
) -> bool {
    &&& variables_rename(bindings.variables@, other.variables@, f)
    &&& bindings.values@.len() == other.values@.len()
    &&& forall|i: int|
        0 <= i < bindings.values@.len() ==> (#[trigger] bindings.values@[i])@ == other.values@[i]@
}

/// Whether an expression is renamed.
pub open spec fn expression_renames(
    expression: Expression,
    other: Expression,
    f: Renaming,
) -> bool
    decreases expression,
{
    match (expression, other) {
        (Expression::Constant(s), Expression::Constant(t)) => end_renames(s, t, f),
        (Expression::Bound(v), Expression::Bound(w)) => w@ == f(v@),
        (Expression::Exists(p), Expression::Exists(q)) => pattern_renames(*p, *q, f),
        (Expression::Or(a, b), Expression::Or(c, d))
        | (Expression::And(a, b), Expression::And(c, d))
        | (Expression::Equal(a, b), Expression::Equal(c, d))
        | (Expression::NotEqual(a, b), Expression::NotEqual(c, d))
        | (Expression::Greater(a, b), Expression::Greater(c, d))
        | (Expression::GreaterOrEq(a, b), Expression::GreaterOrEq(c, d))
        | (Expression::Lower(a, b), Expression::Lower(c, d))
        | (Expression::LowerOrEq(a, b), Expression::LowerOrEq(c, d))
        | (Expression::Add(a, b), Expression::Add(c, d))
        | (Expression::Sub(a, b), Expression::Sub(c, d))
        | (Expression::Mul(a, b), Expression::Mul(c, d))
        | (Expression::Div(a, b), Expression::Div(c, d)) => {
            &&& expression_renames(*a, *c, f)
            &&& expression_renames(*b, *d, f)
        },
        (Expression::UnaryPlus(a), Expression::UnaryPlus(b))
        | (Expression::UnaryMinus(a), Expression::UnaryMinus(b))
        | (Expression::UnaryNot(a), Expression::UnaryNot(b)) => expression_renames(*a, *b, f),
        (Expression::In(a, l), Expression::In(b, m))
        | (Expression::NotIn(a, l), Expression::NotIn(b, m)) => {
            &&& expression_renames(*a, *b, f)
            &&& expressions_rename(l@, m@, f)
        },
        (Expression::FunctionCall(g, l), Expression::FunctionCall(h, m)) => {
            &&& g == h
            &&& expressions_rename(l@, m@, f)
        },
        _ => false,
    }
}

/// Whether expressions are renamed, one by one.
pub open spec fn expressions_rename(
    list: Seq<Expression>,
    others: Seq<Expression>,
    f: Renaming,
) -> bool
    decreases list,
{
    &&& list.len() == others.len()
    &&& forall|i: int| 0 <= i < list.len() ==> expression_renames(#[trigger] list[i], others[i], f)
}

/// Whether a sort key is renamed.
pub open spec fn comparator_renames(
    comparator: OrderComparator,
    other: OrderComparator,
    f: Renaming,
) -> bool
    decreases comparator,
{
    match (comparator, other) {
        (OrderComparator::Asc(d), OrderComparator::Asc(e))
        | (OrderComparator::Desc(d), OrderComparator::Desc(e)) => expression_renames(d, e, f),
        _ => false,
    }
}

/// Whether sort keys are renamed, one by one.
pub open spec fn comparators_rename(
    list: Seq<OrderComparator>,
    others: Seq<OrderComparator>,
    f: Renaming,
) -> bool
    decreases list,
{
    &&& list.len() == others.len()
    &&& forall|i: int| 0 <= i < list.len() ==> comparator_renames(#[trigger] list[i], others[i], f)
}

/// Whether `other` is `pattern` with every variable renamed.
pub open spec fn pattern_renames(pattern: GraphPattern, other: GraphPattern, f: Renaming) -> bool
    decreases pattern,
{
    match (pattern, other) {
        (GraphPattern::BGP(p), GraphPattern::BGP(q)) => members_rename(p@, q@, f),
        (GraphPattern::Join(a, b), GraphPattern::Join(c, d))
        | (GraphPattern::Union(a, b), GraphPattern::Union(c, d))
        | (GraphPattern::Minus(a, b), GraphPattern::Minus(c, d)) => {
            &&& pattern_renames(*a, *c, f)
            &&& pattern_renames(*b, *d, f)
        },
        (GraphPattern::LeftJoin(a, b, e), GraphPattern::LeftJoin(c, d, g)) => {
            &&& pattern_renames(*a, *c, f)
            &&& pattern_renames(*b, *d, f)
            &&& expression_renames(e, g, f)
        },
        (GraphPattern::Filter(d, p), GraphPattern::Filter(e, q)) => {
            &&& expression_renames(d, e, f)
            &&& pattern_renames(*p, *q, f)
        },
        (GraphPattern::Graph(m, p), GraphPattern::Graph(n, q)) => {
            &&& middle_renames(m, n, f)
            &&& pattern_renames(*p, *q, f)
        },
        (GraphPattern::Extend(p, v, d), GraphPattern::Extend(q, w, e)) => {
            &&& pattern_renames(*p, *q, f)
            &&& w@ == f(v@)
            &&& expression_renames(d, e, f)
        },
        (GraphPattern::Service(m, p, s), GraphPattern::Service(n, q, t)) => {
            &&& middle_renames(m, n, f)
            &&& pattern_renames(*p, *q, f)
            &&& s == t
        },
        (GraphPattern::AggregateJoin(g, v), GraphPattern::AggregateJoin(h, w)) => {
            &&& expressions_rename(g.0@, h.0@, f)
            &&& pattern_renames(*g.1, *h.1, f)
            &&& variables_rename(v@, w@, f)
        },
        (GraphPattern::Data(b), GraphPattern::Data(c)) => bindings_rename(b, c, f),
        (GraphPattern::OrderBy(p, o), GraphPattern::OrderBy(q, r)) => {
            &&& pattern_renames(*p, *q, f)
            &&& comparators_rename(o@, r@, f)
        },
        (GraphPattern::Project(p, v), GraphPattern::Project(q, w)) => {
            &&& pattern_renames(*p, *q, f)
            &&& variables_rename(v@, w@, f)
        },
        (GraphPattern::Distinct(p), GraphPattern::Distinct(q))
        | (GraphPattern::Reduced(p), GraphPattern::Reduced(q)) => pattern_renames(*p, *q, f),
        (GraphPattern::Slice(p, s, l), GraphPattern::Slice(q, t, m)) => {
            &&& pattern_renames(*p, *q, f)
            &&& s == t
            &&& l == m
        },
        _ => false,
    }
}

/// Whether two runs end with the same result, or with errors that differ by the renaming alone.
pub open spec fn ends_alike<T, E>(
    outcome: Outcome<T, E>,
    other: Outcome<T, E>,
    f: Renaming,
) -> bool {
    match (outcome, other) {
        (Outcome::Done(x), Outcome::Done(y)) => x == y,
        (
            Outcome::Failed(Failure::UnsupportedFunction(d)),
            Outcome::Failed(Failure::UnsupportedFunction(e)),
        ) => expression_renames(d, e, f),
        (Outcome::Failed(x), Outcome::Failed(y)) => x == y,
        (Outcome::Stuck, Outcome::Stuck) => true,
        _ => false,
    }
}

/// The progress with the variables renamed.
pub open spec fn renamed_at(at: Progress, f: Renaming) -> Progress {
    Progress { variables: renamed(at.variables, f), asked: at.asked }
}

/// Whether a run that is renamed ends as the run does.
pub open spec fn runs_alike<T, E>(
    run: (Outcome<T, E>, Progress),
    other: (Outcome<T, E>, Progress),
    f: Renaming,
) -> bool {
    ends_alike(run.0, other.0, f) && other.1 == renamed_at(run.1, f)
}

/// A renamed table has the keys of the table.
proof fn lemma_key_renames(table: Seq<Name>, name: Name, f: Renaming)
    requires
        is_one_for_one(f),
    ensures
        key_of(renamed(table, f), f(name)) == key_of(table, name),
    decreases table.len(),
{
    let other = renamed(table, f);
    if table.len() > 0 && table[0] != name {
        lemma_key_renames(table.drop_first(), name, f);
        assert(other.drop_first() =~= renamed(table.drop_first(), f));
        assert(other[0] != f(name));
    }
}

/// A renamed name is entered in a renamed table as the name is in the table.
proof fn lemma_enter_renames(table: Seq<Name>, name: Name, f: Renaming)
    requires
        is_one_for_one(f),
    ensures
        enter(renamed(table, f), f(name)) == renamed(enter(table, name), f),
{
    let other = renamed(table, f);
    if table.contains(name) {
        let i = choose|i: int| 0 <= i < table.len() && table[i] == name;
        assert(other[i] == f(name));
    } else {
        if other.contains(f(name)) {
            let i = choose|i: int| 0 <= i < other.len() && other[i] == f(name);
            assert(f(table[i]) == f(name));
            assert(table.contains(table[i]));
        }
        assert(other.push(f(name)) =~= renamed(table.push(name), f));
    }
}

/// A renamed variable is met as the variable is.
proof fn lemma_meeting_renames(at: Progress, v: Variable, w: Variable, f: Renaming)
    requires
        is_one_for_one(f),
        w@ == f(v@),
    ensures
        renamed_at(at, f).key(w) == at.key(v),
        renamed_at(at, f).met(w) == renamed_at(at.met(v), f),
{
    lemma_key_renames(at.variables, v@, f);
    lemma_enter_renames(at.variables, v@, f);
}

proof fn lemma_end_renames<E>(
    end: TermOrVariable,
    other: TermOrVariable,
    answers: Answers<E>,
    at: Progress,
    f: Renaming,
)
    requires
        is_one_for_one(f),
        end_renames(end, other, f),
    ensures
        runs_alike(end_run(end, answers, at), end_run(other, answers, renamed_at(at, f)), f),
{
    if let (TermOrVariable::Variable(v), TermOrVariable::Variable(w)) = (end, other) {
        lemma_meeting_renames(at, v, w, f);
    }
}

proof fn lemma_middle_renames<E>(
    middle: NamedNodeOrVariable,
    other: NamedNodeOrVariable,
    answers: Answers<E>,
    at: Progress,
    f: Renaming,
)
    requires
        is_one_for_one(f),
        middle_renames(middle, other, f),
    ensures
        runs_alike(
            middle_run(middle, answers, at),
            middle_run(other, answers, renamed_at(at, f)),
            f,
        ),
{
    if let (NamedNodeOrVariable::Variable(v), NamedNodeOrVariable::Variable(w)) = (middle, other) {
        lemma_meeting_renames(at, v, w, f);
    }
}

proof fn lemma_triple_renames<E>(
    triple: TriplePattern,
    other: TriplePattern,
    input: Plan,
    graph: Slot,
    answers: Answers<E>,
    at: Progress,
    f: Renaming,
)
    requires
        is_one_for_one(f),
        member_renames(TripleOrPathPattern::Triple(triple), TripleOrPathPattern::Triple(other), f),
    ensures
        runs_alike(
            triple_run(triple, input, graph, answers, at),
            triple_run(other, input, graph, answers, renamed_at(at, f)),
            f,
        ),
{
    lemma_end_renames(triple.subject, other.subject, answers, at, f);
    let at1 = end_run(triple.subject, answers, at).1;
    lemma_middle_renames(triple.predicate, other.predicate, answers, at1, f);
    let at2 = middle_run(triple.predicate, answers, at1).1;
    lemma_end_renames(triple.object, other.object, answers, at2, f);
}

proof fn lemma_joins_rename<E>(
    members: Seq<TripleOrPathPattern>,
    others: Seq<TripleOrPathPattern>,
    i: int,
    input: Plan,
    graph: Slot,
    answers: Answers<E>,
    at: Progress,
    f: Renaming,
)
    requires
        is_one_for_one(f),
        members_rename(members, others, f),
    ensures
        runs_alike(
            joins_run(members, i, input, graph, answers, at),
            joins_run(others, i, input, graph, answers, renamed_at(at, f)),
            f,
        ),
    decreases members.len() - i,
{
    if 0 <= i < members.len() {
        assert(member_renames(members[i], others[i], f));
        if let TripleOrPathPattern::Triple(triple) = members[i] {
            if let TripleOrPathPattern::Triple(other) = others[i] {
                lemma_triple_renames(triple, other, input, graph, answers, at, f);
                let (outcome, next) = triple_run(triple, input, graph, answers, at);
                if let Outcome::Done(plan) = outcome {
                    lemma_joins_rename(members, others, i + 1, plan, graph, answers, next, f);
                }
            }
        }
    }
}

/// Whether a set holds the new names of the names in another one.
spec fn set_renames(set: Set<Name>, other: Set<Name>, f: Renaming) -> bool {
    forall|name: Name| #[trigger] other.contains(f(name)) <==> set.contains(name)
}

proof fn lemma_variables_of_member(
    member: TripleOrPathPattern,
    other: TripleOrPathPattern,
    f: Renaming,
)
    requires
        is_one_for_one(f),
        member_renames(member, other, f),
    ensures
        set_renames(end_variable(member.subject_of()), end_variable(other.subject_of()), f),
        set_renames(middle_variable(member), middle_variable(other), f),
        set_renames(end_variable(member.object_of()), end_variable(other.object_of()), f),
        set_renames(pattern_variables(member), pattern_variables(other), f),
{
}

proof fn lemma_count_renames(
    member: TripleOrPathPattern,
    other: TripleOrPathPattern,
    assigned: Set<Name>,
    others: Set<Name>,
    f: Renaming,
)
    requires
        is_one_for_one(f),
        member_renames(member, other, f),
        set_renames(assigned, others, f),
    ensures
        bind_count(member, assigned) == bind_count(other, others),
{
    lemma_end_count(member.subject_of(), other.subject_of(), assigned, others, f);
    lemma_end_count(member.object_of(), other.object_of(), assigned, others, f);
    if let TripleOrPathPattern::Triple(s) = member {
        if let TripleOrPathPattern::Triple(t) = other {
            if let NamedNodeOrVariable::Variable(v) = s.predicate {
                if let NamedNodeOrVariable::Variable(w) = t.predicate {
                    assert(middle_variable(member).contains(v@));
                    assert(middle_variable(other).contains(w@));
                    assert(others.contains(f(v@)) <==> assigned.contains(v@));
                }
            }
        }
    }
}

proof fn lemma_end_count(
    end: TermOrVariable,
    other: TermOrVariable,
    assigned: Set<Name>,
    others: Set<Name>,
    f: Renaming,
)
    requires
        end_renames(end, other, f),
        set_renames(assigned, others, f),
    ensures
        end_variable(end).subset_of(assigned) <==> end_variable(other).subset_of(others),
{
    if let (TermOrVariable::Variable(v), TermOrVariable::Variable(w)) = (end, other) {
        assert(end_variable(end).contains(v@));
        assert(end_variable(other).contains(w@));
        assert(others.contains(f(v@)) <==> assigned.contains(v@));
    }
}

proof fn lemma_with_count_renames(
    members: Seq<TripleOrPathPattern>,
    others: Seq<TripleOrPathPattern>,
    assigned: Set<Name>,
    other_assigned: Set<Name>,
    count: nat,
    f: Renaming,
)
    requires
        is_one_for_one(f),
        members_rename(members, others, f),
        set_renames(assigned, other_assigned, f),
    ensures
        members_rename(
            with_count(members, assigned, count),
            with_count(others, other_assigned, count),
            f,
        ),
    decreases members.len(),
{
    reveal(Seq::filter);
    if members.len() > 0 {
        let front = members.drop_last();
        let other_front = others.drop_last();
        assert forall|i: int| 0 <= i < front.len() implies member_renames(
            #[trigger] front[i],
            other_front[i],
            f,
        ) by {
            assert(member_renames(members[i], others[i], f));
        }
        lemma_with_count_renames(front, other_front, assigned, other_assigned, count, f);
        assert(member_renames(members[members.len() - 1], others[others.len() - 1], f));
        lemma_count_renames(members.last(), others.last(), assigned, other_assigned, f);
    }
}

proof fn lemma_append_renames(
    a: Seq<TripleOrPathPattern>,
    b: Seq<TripleOrPathPattern>,
    c: Seq<TripleOrPathPattern>,
    d: Seq<TripleOrPathPattern>,
    f: Renaming,
)
    requires
        members_rename(a, c, f),
        members_rename(b, d, f),
    ensures
        members_rename(a + b, c + d, f),
{
    assert forall|i: int| 0 <= i < (a + b).len() implies member_renames(
        #[trigger] (a + b)[i],
        (c + d)[i],
        f,
    ) by {
        if i < a.len() {
            assert(member_renames(a[i], c[i], f));
        } else {
            assert(member_renames(b[i - a.len()], d[i - a.len()], f));
        }
    }
}

/// Renamed patterns are joined in the order in which the patterns are.
proof fn lemma_order_renames(
    members: Seq<TripleOrPathPattern>,
    others: Seq<TripleOrPathPattern>,
    assigned: Set<Name>,
    other_assigned: Set<Name>,
    f: Renaming,
)
    requires
        is_one_for_one(f),
        members_rename(members, others, f),
        set_renames(assigned, other_assigned, f),
    ensures
        members_rename(join_order(members, assigned), join_order(others, other_assigned), f),
    decreases members.len(),
{
    if members.len() > 0 {
        lemma_with_count_renames(members, others, assigned, other_assigned, 3, f);
        lemma_with_count_renames(members, others, assigned, other_assigned, 2, f);
        lemma_with_count_renames(members, others, assigned, other_assigned, 1, f);
        lemma_with_count_renames(members, others, assigned, other_assigned, 0, f);
        let s3 = with_count(members, assigned, 3);
        let s2 = with_count(members, assigned, 2);
        let s1 = with_count(members, assigned, 1);
        let s0 = with_count(members, assigned, 0);
        let t3 = with_count(others, other_assigned, 3);
        let t2 = with_count(others, other_assigned, 2);
        let t1 = with_count(others, other_assigned, 1);
        let t0 = with_count(others, other_assigned, 0);
        lemma_append_renames(s3, s2, t3, t2, f);
        lemma_append_renames(s3 + s2, s1, t3 + t2, t1, f);
        lemma_append_renames(s3 + s2 + s1, s0, t3 + t2 + t1, t0, f);
        let order = ranked(members, assigned);
        let other_order = ranked(others, other_assigned);
        lemma_ranked_is_permutation(members, assigned);
        assert(member_renames(order[0], other_order[0], f));
        let rest = order.drop_first();
        let other_rest = other_order.drop_first();
        assert forall|i: int| 0 <= i < rest.len() implies member_renames(
            #[trigger] rest[i],
            other_rest[i],
            f,
        ) by {
            assert(member_renames(order[i + 1], other_order[i + 1], f));
        }
        lemma_variables_of_member(order[0], other_order[0], f);
        let more = assigned + pattern_variables(order[0]);
        let other_more = other_assigned + pattern_variables(other_order[0]);
        lemma_order_renames(rest, other_rest, more, other_more, f);
        assert(members_rename(seq![order[0]], seq![other_order[0]], f));
        lemma_append_renames(
            seq![order[0]],
            join_order(rest, more),
            seq![other_order[0]],
            join_order(other_rest, other_more),
            f,
        );
    }
}

proof fn lemma_row_renames<E>(
    variables: Seq<Variable>,
    others: Seq<Variable>,
    row: Seq<Option<Term>>,
    i: int,
    tuple: Seq<Option<EncodedTerm>>,
    answers: Answers<E>,
    at: Progress,
    f: Renaming,
)
    requires
        is_one_for_one(f),
        variables_rename(variables, others, f),
    ensures
        runs_alike(
            row_run(variables, row, i, tuple, answers, at),
            row_run(others, row, i, tuple, answers, renamed_at(at, f)),
            f,
        ),
    decreases row.len() - i,
{
    assert(names(others).len() == names(variables).len());
    if 0 <= i < row.len() {
        match row[i] {
            Some(term) => {
                let (outcome, next) = ask(Question::Term(term), answers, at);
                if outcome is Done && i < variables.len() {
                    assert(names(others)[i] == f(names(variables)[i]));
                    lemma_meeting_renames(next, variables[i], others[i], f);
                    let key = next.key(variables[i]);
                    if key < tuple.len() {
                        let filled = tuple.update(key as int, Some(outcome->Done_0));
                        let met = next.met(variables[i]);
                        lemma_row_renames(variables, others, row, i + 1, filled, answers, met, f);
                    }
                }
            },
            None => {
                lemma_row_renames(variables, others, row, i + 1, tuple, answers, at, f);
            },
        }
    }
}

proof fn lemma_rows_rename<E>(
    bindings: StaticBindings,
    other: StaticBindings,
    i: int,
    tuples: Seq<Seq<Option<EncodedTerm>>>,
    answers: Answers<E>,
    at: Progress,
    f: Renaming,
)
    requires
        is_one_for_one(f),
        bindings_rename(bindings, other, f),
    ensures
        runs_alike(
            rows_run(bindings, i, tuples, answers, at),
            rows_run(other, i, tuples, answers, renamed_at(at, f)),
            f,
        ),
    decreases bindings.values@.len() - i,
{
    if 0 <= i < bindings.values@.len() {
        let blank = blank_tuple(at.variables.len());
        let row = bindings.values@[i]@;
        assert(row == other.values@[i]@);
        lemma_row_renames(bindings.variables@, other.variables@, row, 0, blank, answers, at, f);
        let (outcome, next) = row_run(bindings.variables@, row, 0, blank, answers, at);
        if let Outcome::Done(tuple) = outcome {
            lemma_rows_rename(bindings, other, i + 1, tuples.push(tuple), answers, next, f);
        }
    }
}

proof fn lemma_keys_rename(
    variables: Seq<Variable>,
    others: Seq<Variable>,
    i: int,
    keys: Seq<nat>,
    at: Progress,
    f: Renaming,
)
    requires
        is_one_for_one(f),
        variables_rename(variables, others, f),
    ensures
        keys_run(others, i, keys, renamed_at(at, f)) == (
            keys_run(variables, i, keys, at).0,
            renamed_at(keys_run(variables, i, keys, at).1, f),
        ),
    decreases variables.len() - i,
{
    assert(names(others).len() == names(variables).len());
    if 0 <= i < variables.len() {
        assert(names(others)[i] == f(names(variables)[i]));
        lemma_meeting_renames(at, variables[i], others[i], f);
        let more = keys.push(at.key(variables[i]));
        lemma_keys_rename(variables, others, i + 1, more, at.met(variables[i]), f);
    }
}

/// What a renamed expression has in common with the expression.
proof fn lemma_operands_of_renamed<E>(expression: Expression, other: Expression, f: Renaming)
    requires
        expression_renames(expression, other, f),
    ensures
        operands(expression).len() == operands(other).len(),
        forall|i: int|
            0 <= i < operands(expression).len() ==> expression_renames(
                #[trigger] operands(expression)[i],
                operands(other)[i],
                f,
            ),
        least_operands(expression) == least_operands(other),
        operands(expression).len() > 0 || expression is FunctionCall ==> forall|
            parts: Seq<Formula>,
        | #[trigger] applied(expression, parts) == applied(other, parts),
        match (rejection::<E>(expression), rejection::<E>(other)) {
            (None, None) => true,
            (Some(failure), Some(other_failure)) => ends_alike(
                Outcome::<Formula, E>::Failed(failure),
                Outcome::<Formula, E>::Failed(other_failure),
                f,
            ),
            _ => false,
        },
{
    match (expression, other) {
        (Expression::In(a, l), Expression::In(b, m))
        | (Expression::NotIn(a, l), Expression::NotIn(b, m)) => {
            assert(expressions_rename(l@, m@, f));
            assert forall|i: int| 0 <= i < operands(expression).len() implies expression_renames(
                #[trigger] operands(expression)[i],
                operands(other)[i],
                f,
            ) by {
                if i > 0 {
                    assert(expression_renames(l@[i - 1], m@[i - 1], f));
                }
            }
        },
        (Expression::FunctionCall(g, l), Expression::FunctionCall(h, m)) => {
            assert(expressions_rename(l@, m@, f));
            let used = used_parameters(g, l@.len());
            assert forall|i: int| 0 <= i < operands(expression).len() implies expression_renames(
                #[trigger] operands(expression)[i],
                operands(other)[i],
                f,
            ) by {
                assert(expression_renames(l@[i], m@[i], f));
            }
        },
        _ => {},
    }
}

/// A renamed expression comes to the same formula.
pub proof fn lemma_expression_renames<E>(
    expression: Expression,
    other: Expression,
    graph: Slot,
    answers: Answers<E>,
    at: Progress,
    f: Renaming,
)
    requires
        is_one_for_one(f),
        expression_renames(expression, other, f),
    ensures
        runs_alike(
            expression_run(expression, graph, answers, at),
            expression_run(other, graph, answers, renamed_at(at, f)),
            f,
        ),
    decreases expression, operands(expression).len() + 1,
{
    match (expression, other) {
        (Expression::Constant(s), Expression::Constant(t)) => {
            if let (TermOrVariable::Variable(v), TermOrVariable::Variable(w)) = (s, t) {
                lemma_meeting_renames(at, v, w, f);
            }
        },
        (Expression::Bound(v), Expression::Bound(w)) => {
            lemma_meeting_renames(at, v, w, f);
        },
        (Expression::Exists(p), Expression::Exists(q)) => {
            lemma_pattern_renames(*p, *q, Plan::Init, graph, answers, at, f);
        },
        _ => {
            lemma_operands_of_renamed::<E>(expression, other, f);
            lemma_operands_rename(expression, other, 0, seq![], graph, answers, at, f);
        },
    }
}

proof fn lemma_operands_rename<E>(
    expression: Expression,
    other: Expression,
    i: int,
    parts: Seq<Formula>,
    graph: Slot,
    answers: Answers<E>,
    at: Progress,
    f: Renaming,
)
    requires
        is_one_for_one(f),
        expression_renames(expression, other, f),
    ensures
        runs_alike(
            operands_run(expression, i, parts, graph, answers, at),
            operands_run(other, i, parts, graph, answers, renamed_at(at, f)),
            f,
        ),
    decreases expression, operands(expression).len() - i,
{
    lemma_operands_of_renamed::<E>(expression, other, f);
    if 0 <= i < operands(expression).len() {
        lemma_operand_is_part(expression, i);
        let operand = operands(expression)[i];
        lemma_expression_renames(operand, operands(other)[i], graph, answers, at, f);
        let (outcome, next) = expression_run(operand, graph, answers, at);
        if let Outcome::Done(part) = outcome {
            let more = parts.push(part);
            lemma_operands_rename(expression, other, i + 1, more, graph, answers, next, f);
        }
    }
}

proof fn lemma_comparator_renames<E>(
    comparator: OrderComparator,
    other: OrderComparator,
    graph: Slot,
    answers: Answers<E>,
    at: Progress,
    f: Renaming,
)
    requires
        is_one_for_one(f),
        comparator_renames(comparator, other, f),
    ensures
        runs_alike(
            comparator_run(comparator, graph, answers, at),
            comparator_run(other, graph, answers, renamed_at(at, f)),
            f,
        ),
    decreases comparator, 0int,
{
    match (comparator, other) {
        (OrderComparator::Asc(d), OrderComparator::Asc(e))
        | (OrderComparator::Desc(d), OrderComparator::Desc(e)) => {
            lemma_expression_renames(d, e, graph, answers, at, f);
        },
        _ => {},
    }
}

proof fn lemma_comparators_rename<E>(
    list: Seq<OrderComparator>,
    others: Seq<OrderComparator>,
    i: int,
    keys: Seq<SortKey>,
    graph: Slot,
    answers: Answers<E>,
    at: Progress,
    f: Renaming,
)
    requires
        is_one_for_one(f),
        comparators_rename(list, others, f),
    ensures
        runs_alike(
            comparators_run(list, i, keys, graph, answers, at),
            comparators_run(others, i, keys, graph, answers, renamed_at(at, f)),
            f,
        ),
    decreases list, list.len() - i,
{
    if 0 <= i < list.len() {
        assert(comparator_renames(list[i], others[i], f));
        lemma_comparator_renames(list[i], others[i], graph, answers, at, f);
        let (outcome, next) = comparator_run(list[i], graph, answers, at);
        if let Outcome::Done(key) = outcome {
            lemma_comparators_rename(list, others, i + 1, keys.push(key), graph, answers, next, f);
        }
    }
}

/// The alternatives of a renamed union are the alternatives, renamed.
proof fn lemma_branches_of_renamed(pattern: GraphPattern, other: GraphPattern, f: Renaming)
    requires
        pattern_renames(pattern, other, f),
    ensures
        branches(pattern).len() == branches(other).len(),
        forall|i: int|
            0 <= i < branches(pattern).len() ==> pattern_renames(
                #[trigger] branches(pattern)[i],
                branches(other)[i],
                f,
            ),
    decreases pattern,
{
    if let (GraphPattern::Union(a, b), GraphPattern::Union(c, d)) = (pattern, other) {
        lemma_branches_of_renamed(*a, *c, f);
        lemma_branches_of_renamed(*b, *d, f);
        let second = branches(*b).len();
        assert forall|i: int| 0 <= i < branches(pattern).len() implies pattern_renames(
            #[trigger] branches(pattern)[i],
            branches(other)[i],
            f,
        ) by {
            if i < second {
                assert(pattern_renames(branches(*b)[i], branches(*d)[i], f));
            } else {
                assert(pattern_renames(branches(*a)[i - second], branches(*c)[i - second], f));
            }
        }
    }
}

proof fn lemma_branches_rename<E>(
    pattern: GraphPattern,
    other: GraphPattern,
    i: int,
    children: Seq<Plan>,
    graph: Slot,
    answers: Answers<E>,
    at: Progress,
    f: Renaming,
)
    requires
        is_one_for_one(f),
        pattern_renames(pattern, other, f),
    ensures
        runs_alike(
            branches_run(pattern, i, children, graph, answers, at),
            branches_run(other, i, children, graph, answers, renamed_at(at, f)),
            f,
        ),
    decreases pattern, branches(pattern).len() - i,
{
    lemma_branches_of_renamed(pattern, other, f);
    if pattern is Union && 0 <= i < branches(pattern).len() {
        lemma_branch_is_part(pattern, i);
        let branch = branches(pattern)[i];
        lemma_pattern_renames(branch, branches(other)[i], Plan::Init, graph, answers, at, f);
        let (outcome, next) = pattern_run(branch, Plan::Init, graph, answers, at);
        if let Outcome::Done(plan) = outcome {
            let more = children.push(plan);
            lemma_branches_rename(pattern, other, i + 1, more, graph, answers, next, f);
        }
    }
}

/// A renamed pattern comes to the same plan, and numbers the renamed variables.
pub proof fn lemma_pattern_renames<E>(
    pattern: GraphPattern,
    other: GraphPattern,
    input: Plan,
    graph: Slot,
    answers: Answers<E>,
    at: Progress,
    f: Renaming,
)
    requires
        is_one_for_one(f),
        pattern_renames(pattern, other, f),
    ensures
        runs_alike(
            pattern_run(pattern, input, graph, answers, at),
            pattern_run(other, input, graph, answers, renamed_at(at, f)),
            f,
        ),
    decreases pattern, branches(pattern).len() + 1,
{
    match (pattern, other) {
        (GraphPattern::BGP(p), GraphPattern::BGP(q)) => {
            lemma_order_renames(p@, q@, set![], set![], f);
            let order = join_order(p@, set![]);
            let other_order = join_order(q@, set![]);
            lemma_joins_rename(order, other_order, 0, input, graph, answers, at, f);
        },
        (GraphPattern::Join(a, b), GraphPattern::Join(c, d))
        | (GraphPattern::Minus(a, b), GraphPattern::Minus(c, d)) => {
            lemma_pattern_renames(*a, *c, input, graph, answers, at, f);
            let at1 = pattern_run(*a, input, graph, answers, at).1;
            lemma_pattern_renames(*b, *d, input, graph, answers, at1, f);
        },
        (GraphPattern::LeftJoin(a, b, e), GraphPattern::LeftJoin(c, d, g)) => {
            lemma_pattern_renames(*a, *c, input, graph, answers, at, f);
            let at1 = pattern_run(*a, input, graph, answers, at).1;
            lemma_pattern_renames(*b, *d, Plan::Init, graph, answers, at1, f);
            let at2 = pattern_run(*b, Plan::Init, graph, answers, at1).1;
            lemma_expression_renames(e, g, graph, answers, at2, f);
            lemma_truth_renames(e, g, f);
        },
        (GraphPattern::Filter(d, p), GraphPattern::Filter(e, q)) => {
            lemma_pattern_renames(*p, *q, input, graph, answers, at, f);
            let at1 = pattern_run(*p, input, graph, answers, at).1;
            lemma_expression_renames(d, e, graph, answers, at1, f);
        },
        (GraphPattern::Union(_, _), GraphPattern::Union(_, _)) => {
            lemma_branches_rename(pattern, other, 0, seq![], graph, answers, at, f);
        },
        (GraphPattern::Graph(m, p), GraphPattern::Graph(n, q)) => {
            lemma_middle_renames(m, n, answers, at, f);
            let (outcome, at1) = middle_run(m, answers, at);
            if let Outcome::Done(named) = outcome {
                lemma_pattern_renames(*p, *q, input, named, answers, at1, f);
            }
        },
        (GraphPattern::Extend(p, v, d), GraphPattern::Extend(q, w, e)) => {
            lemma_pattern_renames(*p, *q, input, graph, answers, at, f);
            let at1 = pattern_run(*p, input, graph, answers, at).1;
            lemma_meeting_renames(at1, v, w, f);
            lemma_expression_renames(d, e, graph, answers, at1.met(v), f);
        },
        (GraphPattern::Data(b), GraphPattern::Data(c)) => {
            lemma_rows_rename(b, c, 0, seq![], answers, at, f);
        },
        (GraphPattern::OrderBy(p, o), GraphPattern::OrderBy(q, r)) => {
            lemma_comparators_rename(o@, r@, 0, seq![], graph, answers, at, f);
            let at1 = comparators_run(o@, 0, seq![], graph, answers, at).1;
            lemma_pattern_renames(*p, *q, input, graph, answers, at1, f);
        },
        (GraphPattern::Project(p, v), GraphPattern::Project(q, w)) => {
            let inside = at.with_variables(names(v@));
            assert(renamed_at(inside, f) == renamed_at(at, f).with_variables(names(w@)));
            lemma_pattern_renames(*p, *q, input, graph, answers, inside, f);
            let inner = pattern_run(*p, input, graph, answers, inside).1;
            let back = inner.with_variables(at.variables);
            lemma_keys_rename(v@, w@, 0, seq![], back, f);
        },
        (GraphPattern::Distinct(p), GraphPattern::Distinct(q))
        | (GraphPattern::Reduced(p), GraphPattern::Reduced(q))
        | (GraphPattern::Slice(p, _, _), GraphPattern::Slice(q, _, _)) => {
            lemma_pattern_renames(*p, *q, input, graph, answers, at, f);
        },
        _ => {},
    }
}

proof fn lemma_truth_renames(expression: Expression, other: Expression, f: Renaming)
    requires
        expression_renames(expression, other, f),
    ensures
        expression.is_literal_true() == other.is_literal_true(),
{
}

/// Renaming the variables of a query one for one leaves its plan as it is, and renames the
/// variables that come with it. Where the query fails, the renamed query fails alike.
pub proof fn lemma_query_renames<E>(
    pattern: GraphPattern,
    other: GraphPattern,
    answers: Answers<E>,
    f: Renaming,
)
    requires
        is_one_for_one(f),
        pattern_renames(pattern, other, f),
    ensures
        ({
            let (outcome, end) = query_run(pattern, answers);
            let (other_outcome, other_end) = query_run(other, answers);
            &&& ends_alike(outcome, other_outcome, f)
            &&& other_end.variables == renamed(end.variables, f)
            &&& other_end.asked == end.asked
        }),
{
    let at = outset(seq![]);
    let graph = Slot::Constant(EncodedTerm::DefaultGraph);
    assert(renamed(seq![], f) =~= seq![]);
    assert(renamed_at(at, f) == at);
    lemma_pattern_renames(pattern, other, Plan::Init, graph, answers, at, f);
}

/// Over a store that has one answer to each question, a renamed query is built to the same plan,
/// with the variables renamed.
pub proof fn lemma_build_renames<'p, 'q, S: StoreConnection>(
    store: S,
    pattern: GraphPattern,
    other: GraphPattern,
    a: Answers<S::Error>,
    b: Answers<S::Error>,
    plan: PlanNode,
    variables: Vec<Variable>,
    result: Result<(PlanNode, Vec<Variable>), Error<'q, S::Error>>,
    f: Renaming,
)
    requires
        is_one_for_one(f),
        pattern_renames(pattern, other, f),
        answers_one_way(store),
        built(store, pattern, a, Ok::<_, Error<'p, S::Error>>((plan, variables))),
        built(store, other, b, result),
    ensures
        match result {
            Ok((other_plan, other_variables)) => {
                &&& other_plan.model() == plan.model()
                &&& names(other_variables@) == renamed(names(variables@), f)
            },
            Err(_) => false,
        },
{
    let at = outset(seq![]);
    let graph = Slot::Constant(EncodedTerm::DefaultGraph);
    lemma_query_renames(pattern, other, a, f);
    lemma_pattern_parts(other, Plan::Init, graph, a, b, at);
    lemma_one_way(store, a, b, query_run(other, a).1, query_run(other, b).1);
}

} // verus!
