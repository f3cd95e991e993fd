//! What the join order of a basic graph pattern guarantees.
use crate::algebra::{NamedNodeOrVariable, TermOrVariable, TripleOrPathPattern};
use crate::model::{Name, Variable};
use crate::ordering::{
    assigned_names, bind_count, end_variable, join_order, lemma_ranked_is_permutation,
    middle_variable, pattern_variables, ranked, with_count,
};
use vstd::prelude::*;

verus! {

/// The variables that are assigned once the first `count` patterns of a list are joined.
pub open spec fn assigned_by(
    order: Seq<TripleOrPathPattern>,
    count: nat,
    assigned: Set<Name>,
) -> Set<Name>
    decreases count,
{
    if count == 0 {
        assigned
    } else {
        assigned_by(order, (count - 1) as nat, assigned) + pattern_variables(
            order[count - 1],
        )
    }
}

/// The patterns that are joined are the patterns that are given, each as often as it is given.
pub proof fn lemma_join_order_is_permutation(
    patterns: Seq<TripleOrPathPattern>,
    assigned: Set<Name>,
)
    ensures
        join_order(patterns, assigned).to_multiset() == patterns.to_multiset(),
        join_order(patterns, assigned).len() == patterns.len(),
    decreases patterns.len(),
{
    broadcast use vstd::seq_lib::group_to_multiset_ensures;

    if patterns.len() > 0 {
        let order = ranked(patterns, assigned);
        lemma_ranked_is_permutation(patterns, assigned);
        let rest = order.drop_first();
        let joined = join_order(rest, assigned + pattern_variables(order[0]));
        lemma_join_order_is_permutation(rest, assigned + pattern_variables(order[0]));
        vstd::seq_lib::lemma_multiset_commutative(seq![order[0]], joined);
        vstd::seq_lib::lemma_multiset_commutative(seq![order[0]], rest);
        assert(seq![order[0]] + rest =~= order);
    } else {
        assert(join_order(patterns, assigned) =~= patterns);
    }
}

/// A pattern is joined if and only if it is given.
pub proof fn lemma_join_order_members(
    patterns: Seq<TripleOrPathPattern>,
    assigned: Set<Name>,
    pattern: TripleOrPathPattern,
)
    ensures
        join_order(patterns, assigned).contains(pattern) <==> patterns.contains(pattern),
{
    broadcast use vstd::seq_lib::group_to_multiset_ensures;

    lemma_join_order_is_permutation(patterns, assigned);
    let order = join_order(patterns, assigned);
    assert(order.contains(pattern) <==> order.to_multiset().count(pattern) > 0);
    assert(patterns.contains(pattern) <==> patterns.to_multiset().count(pattern) > 0);
}

/// Whether a subject or an object holds a value once the variables in `assigned` do.
pub open spec fn end_is_known(end: TermOrVariable, assigned: Set<Name>) -> bool {
    match end {
        TermOrVariable::Term(_) => true,
        TermOrVariable::Variable(v) => assigned.contains(v@),
    }
}

/// Whether a predicate holds a value once the variables in `assigned` do.
pub open spec fn middle_is_known(middle: NamedNodeOrVariable, assigned: Set<Name>) -> bool {
    match middle {
        NamedNodeOrVariable::NamedNode(_) => true,
        NamedNodeOrVariable::Variable(v) => assigned.contains(v@),
    }
}

/// One for what holds.
pub open spec fn one_if(holds: bool) -> nat {
    if holds {
        1
    } else {
        0
    }
}

/// The count of a pattern is how many of its subject, its predicate and its object are constants or
/// variables that are assigned. What a path has for a predicate does not count.
pub proof fn lemma_bind_count(pattern: TripleOrPathPattern, assigned: Set<Name>)
    ensures
        bind_count(pattern, assigned) == match pattern {
            TripleOrPathPattern::Triple(t) => one_if(end_is_known(t.subject, assigned)) + one_if(
                middle_is_known(t.predicate, assigned),
            ) + one_if(end_is_known(t.object, assigned)),
            TripleOrPathPattern::Path(p) => one_if(end_is_known(p.subject, assigned)) + one_if(
                end_is_known(p.object, assigned),
            ),
        },
{
    lemma_end_variable(pattern.subject_of(), assigned);
    lemma_end_variable(pattern.object_of(), assigned);
    if let TripleOrPathPattern::Triple(t) = pattern {
        if let NamedNodeOrVariable::Variable(v) = t.predicate {
            assert(middle_variable(pattern).contains(v@));
        }
    }
}

proof fn lemma_end_variable(end: TermOrVariable, assigned: Set<Name>)
    ensures
        end_variable(end).subset_of(assigned) <==> end_is_known(end, assigned),
{
    if let TermOrVariable::Variable(v) = end {
        assert(end_variable(end).contains(v@));
    }
}

/// The variables of a pattern are those at its subject, its predicate and its object.
pub proof fn lemma_pattern_variables(pattern: TripleOrPathPattern, name: Name)
    ensures
        pattern_variables(pattern).contains(name) <==> match pattern {
            TripleOrPathPattern::Triple(t) => {
                ||| t.subject matches TermOrVariable::Variable(v) && v@ == name
                ||| t.predicate matches NamedNodeOrVariable::Variable(v) && v@ == name
                ||| t.object matches TermOrVariable::Variable(v) && v@ == name
            },
            TripleOrPathPattern::Path(p) => {
                ||| p.subject matches TermOrVariable::Variable(v) && v@ == name
                ||| p.object matches TermOrVariable::Variable(v) && v@ == name
            },
        },
{
}

/// The names that are assigned are those of the variables that are assigned.
pub proof fn lemma_assigned_names(variables: Seq<&Variable>, name: Name)
    ensures
        assigned_names(variables).contains(name) <==> exists|i: int|
            0 <= i < variables.len() && (#[trigger] variables[i])@ == name,
{
}

/// A pattern has three places that can hold a value.
pub proof fn lemma_bind_count_bound(pattern: TripleOrPathPattern, assigned: Set<Name>)
    ensures
        bind_count(pattern, assigned) <= 3,
        pattern is Path ==> bind_count(pattern, assigned) <= 2,
{
}

/// The more variables are assigned, the more places of a pattern hold a value.
pub proof fn lemma_bind_count_grows(
    pattern: TripleOrPathPattern,
    fewer: Set<Name>,
    more: Set<Name>,
)
    requires
        fewer.subset_of(more),
    ensures
        bind_count(pattern, fewer) <= bind_count(pattern, more),
{
}

/// The patterns with one count have it.
proof fn lemma_with_count(patterns: Seq<TripleOrPathPattern>, assigned: Set<Name>, count: nat)
    ensures
        forall|i: int|
            0 <= i < with_count(patterns, assigned, count).len() ==> bind_count(
                #[trigger] with_count(patterns, assigned, count)[i],
                assigned,
            ) == count,
{
    broadcast use vstd::seq_lib::group_filter_ensures;

    let has = |pattern: TripleOrPathPattern| bind_count(pattern, assigned) == count;
    assert(with_count(patterns, assigned, count) == patterns.filter(has));
    assert forall|i: int| 0 <= i < with_count(patterns, assigned, count).len() implies bind_count(
        #[trigger] with_count(patterns, assigned, count)[i],
        assigned,
    ) == count by {
        assert(has(patterns.filter(has)[i]));
    }
}

/// The first of the patterns with one count is the earliest that has it.
proof fn lemma_first_with_count(
    patterns: Seq<TripleOrPathPattern>,
    assigned: Set<Name>,
    count: nat,
) -> (place: int)
    requires
        with_count(patterns, assigned, count).len() > 0,
    ensures
        0 <= place < patterns.len(),
        patterns[place] == with_count(patterns, assigned, count)[0],
        bind_count(patterns[place], assigned) == count,
        forall|i: int| 0 <= i < place ==> bind_count(#[trigger] patterns[i], assigned) != count,
    decreases patterns.len(),
{
    broadcast use vstd::seq_lib::group_filter_ensures;

    reveal(Seq::filter);
    let front = patterns.drop_last();
    if with_count(front, assigned, count).len() > 0 {
        let place = lemma_first_with_count(front, assigned, count);
        assert forall|i: int| 0 <= i < place implies bind_count(#[trigger] patterns[i], assigned)
            != count by {
            assert(front[i] == patterns[i]);
        }
        place
    } else {
        let has = |pattern: TripleOrPathPattern| bind_count(pattern, assigned) == count;
        assert(with_count(front, assigned, count) == front.filter(has));
        assert forall|i: int| 0 <= i < front.len() implies bind_count(
            #[trigger] patterns[i],
            assigned,
        ) != count by {
            if has(front[i]) {
                assert(front.filter(has).contains(front[i]));
            }
        }
        patterns.len() - 1
    }
}

/// Ranking puts no pattern before one with a higher count.
pub proof fn lemma_ranked_falls(patterns: Seq<TripleOrPathPattern>, assigned: Set<Name>)
    ensures
        forall|i: int, j: int|
            0 <= i <= j < patterns.len() ==> bind_count(
                #[trigger] ranked(patterns, assigned)[i],
                assigned,
            ) >= bind_count(#[trigger] ranked(patterns, assigned)[j], assigned),
{
    lemma_ranked_is_permutation(patterns, assigned);
    lemma_with_count(patterns, assigned, 3);
    lemma_with_count(patterns, assigned, 2);
    lemma_with_count(patterns, assigned, 1);
    lemma_with_count(patterns, assigned, 0);
    let s3 = with_count(patterns, assigned, 3);
    let s2 = with_count(patterns, assigned, 2);
    let s1 = with_count(patterns, assigned, 1);
    let s0 = with_count(patterns, assigned, 0);
    let whole = ranked(patterns, assigned);
    assert forall|i: int| 0 <= i < whole.len() implies bind_count(#[trigger] whole[i], assigned)
        == if i < s3.len() {
        3nat
    } else if i < s3.len() + s2.len() {
        2
    } else if i < s3.len() + s2.len() + s1.len() {
        1
    } else {
        0
    } by {
        if i < s3.len() {
            assert(whole[i] == s3[i]);
        } else if i < s3.len() + s2.len() {
            assert(whole[i] == s2[i - s3.len()]);
        } else if i < s3.len() + s2.len() + s1.len() {
            assert(whole[i] == s1[i - s3.len() - s2.len()]);
        } else {
            assert(whole[i] == s0[i - s3.len() - s2.len() - s1.len()]);
        }
    }
}

/// Ranking puts first the earliest of the patterns with the highest count.
pub proof fn lemma_ranked_first(patterns: Seq<TripleOrPathPattern>, assigned: Set<Name>) -> (place:
    int)
    requires
        patterns.len() > 0,
    ensures
        0 <= place < patterns.len(),
        patterns[place] == ranked(patterns, assigned)[0],
        forall|i: int|
            0 <= i < patterns.len() ==> bind_count(#[trigger] patterns[i], assigned) <= bind_count(
                patterns[place],
                assigned,
            ),
        forall|i: int|
            0 <= i < place ==> bind_count(#[trigger] patterns[i], assigned) < bind_count(
                patterns[place],
                assigned,
            ),
{
    broadcast use vstd::seq_lib::group_to_multiset_ensures;

    lemma_ranked_is_permutation(patterns, assigned);
    lemma_ranked_falls(patterns, assigned);
    lemma_with_count(patterns, assigned, 3);
    lemma_with_count(patterns, assigned, 2);
    lemma_with_count(patterns, assigned, 1);
    lemma_with_count(patterns, assigned, 0);
    let whole = ranked(patterns, assigned);
    let count = bind_count(whole[0], assigned);
    assert(whole[0] == with_count(patterns, assigned, count)[0]);
    let place = lemma_first_with_count(patterns, assigned, count);
    assert forall|i: int| 0 <= i < patterns.len() implies bind_count(
        #[trigger] patterns[i],
        assigned,
    ) <= count by {
        assert(patterns.contains(patterns[i]));
        assert(patterns.to_multiset().count(patterns[i]) > 0);
        assert(whole.contains(patterns[i]));
        let j = choose|j: int| 0 <= j < whole.len() && whole[j] == patterns[i];
        assert(bind_count(whole[0], assigned) >= bind_count(whole[j], assigned));
    }
    place
}

/// What is assigned once some patterns are joined is what the first assigns, and then the others.
pub proof fn lemma_assigned_by_rest(
    order: Seq<TripleOrPathPattern>,
    count: nat,
    assigned: Set<Name>,
)
    requires
        0 < count <= order.len(),
    ensures
        assigned_by(order, count, assigned) == assigned_by(
            order.drop_first(),
            (count - 1) as nat,
            assigned + pattern_variables(order[0]),
        ),
    decreases count,
{
    if count == 1 {
        assert(assigned_by(order, 0, assigned) == assigned);
    } else {
        lemma_assigned_by_rest(order, (count - 1) as nat, assigned);
        assert(order.drop_first()[count - 2] == order[count - 1]);
    }
}

/// Each pattern that is joined has the highest count of those that are left, the variables of
/// the patterns before it being assigned.
pub proof fn lemma_join_order_is_greedy(
    patterns: Seq<TripleOrPathPattern>,
    assigned: Set<Name>,
    i: int,
    j: int,
)
    requires
        0 <= i <= j < patterns.len(),
    ensures
        ({
            let order = join_order(patterns, assigned);
            let before = assigned_by(order, i as nat, assigned);
            bind_count(order[i], before) >= bind_count(order[j], before)
        }),
    decreases patterns.len(),
{
    let order = join_order(patterns, assigned);
    let by_rank = ranked(patterns, assigned);
    let more = assigned + pattern_variables(by_rank[0]);
    let rest = by_rank.drop_first();
    lemma_ranked_is_permutation(patterns, assigned);
    lemma_join_order_is_permutation(patterns, assigned);
    lemma_join_order_is_permutation(rest, more);
    assert(order.drop_first() =~= join_order(rest, more));
    if i == 0 {
        if j > 0 {
            assert(order[j] == join_order(rest, more)[j - 1]);
            lemma_join_order_members(rest, more, order[j]);
            let k = choose|k: int| 0 <= k < rest.len() && rest[k] == order[j];
            lemma_ranked_falls(patterns, assigned);
            assert(by_rank[k + 1] == order[j]);
        }
    } else {
        lemma_join_order_is_greedy(rest, more, i - 1, j - 1);
        lemma_assigned_by_rest(order, i as nat, assigned);
        assert(order[i] == order.drop_first()[i - 1]);
        assert(order[j] == order.drop_first()[j - 1]);
    }
}

} // verus!
