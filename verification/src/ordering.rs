//! The order in which the members of a basic graph pattern are joined.
use crate::algebra::{NamedNodeOrVariable, TermOrVariable, TripleOrPathPattern};
use crate::model::{Name, Variable};
use vstd::prelude::*;

verus! {

/// The variable at an end of a pattern.
pub open spec fn end_variable(end: TermOrVariable) -> Set<Name> {
    match end {
        TermOrVariable::Term(_) => set![],
        TermOrVariable::Variable(v) => set![v@],
    }
}

/// The variable in the middle of a pattern. A path has none.
pub open spec fn middle_variable(pattern: TripleOrPathPattern) -> Set<Name> {
    match pattern {
        TripleOrPathPattern::Triple(t) => match t.predicate {
            NamedNodeOrVariable::NamedNode(_) => set![],
            NamedNodeOrVariable::Variable(v) => set![v@],
        },
        TripleOrPathPattern::Path(_) => set![],
    }
}

/// The variables of a pattern.
pub open spec fn pattern_variables(pattern: TripleOrPathPattern) -> Set<Name> {
    end_variable(pattern.subject_of()) + middle_variable(pattern) + end_variable(
        pattern.object_of(),
    )
}

/// How many of three places of a pattern hold a value once the variables in `assigned` do. The
/// middle of a path never counts.
pub open spec fn bind_count(pattern: TripleOrPathPattern, assigned: Set<Name>) -> nat {
    let subject: nat = if end_variable(pattern.subject_of()).subset_of(assigned) {
        1
    } else {
        0
    };
    let middle: nat = if pattern is Triple && middle_variable(pattern).subset_of(assigned) {
        1
    } else {
        0
    };
    let object: nat = if end_variable(pattern.object_of()).subset_of(assigned) {
        1
    } else {
        0
    };
    subject + middle + object
}

/// The patterns with a given count, in the order in which they come.
pub open spec fn with_count(
    patterns: Seq<TripleOrPathPattern>,
    assigned: Set<Name>,
    count: nat,
) -> Seq<TripleOrPathPattern> {
    patterns.filter(|pattern: TripleOrPathPattern| bind_count(pattern, assigned) == count)
}

/// The patterns by falling count. Patterns with one count stay in the order in which they come.
pub open spec fn ranked(patterns: Seq<TripleOrPathPattern>, assigned: Set<Name>) -> Seq<
    TripleOrPathPattern,
> {
    with_count(patterns, assigned, 3) + with_count(patterns, assigned, 2) + with_count(
        patterns,
        assigned,
        1,
    ) + with_count(patterns, assigned, 0)
}

/// The join order: the pattern that is ranked first, then what is left, ranked anew with the
/// variables of that pattern assigned.
pub open spec fn join_order(patterns: Seq<TripleOrPathPattern>, assigned: Set<Name>) -> Seq<
    TripleOrPathPattern,
>
    decreases patterns.len(),
{
    if patterns.len() == 0 {
        seq![]
    } else {
        let order = ranked(patterns, assigned);
        proof {
            lemma_ranked_is_permutation(patterns, assigned);
        }
        seq![order[0]] + join_order(
            order.drop_first(),
            assigned + pattern_variables(order[0]),
        )
    }
}

/// Ranking keeps every pattern, as often as it is there.
pub proof fn lemma_ranked_is_permutation(patterns: Seq<TripleOrPathPattern>, assigned: Set<Name>)
    ensures
        ranked(patterns, assigned).to_multiset() == patterns.to_multiset(),
        ranked(patterns, assigned).len() == patterns.len(),
    decreases patterns.len(),
{
    broadcast use vstd::seq_lib::group_to_multiset_ensures;

    let whole = ranked(patterns, assigned);
    let s3 = with_count(patterns, assigned, 3);
    let s2 = with_count(patterns, assigned, 2);
    let s1 = with_count(patterns, assigned, 1);
    let s0 = with_count(patterns, assigned, 0);
    vstd::seq_lib::lemma_multiset_commutative(s3, s2);
    vstd::seq_lib::lemma_multiset_commutative(s3 + s2, s1);
    vstd::seq_lib::lemma_multiset_commutative(s3 + s2 + s1, s0);
    if patterns.len() == 0 {
        reveal(Seq::filter);
        assert(whole =~= patterns);
    } else {
        let front = patterns.drop_last();
        let last = patterns.last();
        lemma_ranked_is_permutation(front, assigned);
        let f3 = with_count(front, assigned, 3);
        let f2 = with_count(front, assigned, 2);
        let f1 = with_count(front, assigned, 1);
        let f0 = with_count(front, assigned, 0);
        vstd::seq_lib::lemma_multiset_commutative(f3, f2);
        vstd::seq_lib::lemma_multiset_commutative(f3 + f2, f1);
        vstd::seq_lib::lemma_multiset_commutative(f3 + f2 + f1, f0);
        reveal(Seq::filter);
        assert(patterns =~= front.push(last));
        assert(patterns.to_multiset() =~= front.to_multiset().insert(last));
        assert(whole.to_multiset() =~= ranked(front, assigned).to_multiset().insert(last));
    }
    assert(whole.len() == whole.to_multiset().len());
    assert(patterns.len() == patterns.to_multiset().len());
}

/// The names of the variables that are assigned.
pub open spec fn assigned_names(variables: Seq<&Variable>) -> Set<Name> {
    Set::new(|name: Name| exists|i: int| 0 <= i < variables.len() && variables[i]@ == name)
}

/// Whether no name stands twice among the variables that are assigned.
pub open spec fn assigned_once(variables: Seq<&Variable>) -> bool {
    forall|i: int, j: int| 0 <= i < j < variables.len() ==> variables[i]@ != variables[j]@
}

/// The patterns that a list points at.
pub open spec fn targets(list: Seq<&TripleOrPathPattern>) -> Seq<TripleOrPathPattern> {
    Seq::new(list.len(), |i: int| *list[i])
}

/// Whether a variable is assigned.
fn is_assigned(variable: &Variable, assigned_variables: &Vec<&Variable>) -> (answer: bool)
    ensures
        answer == assigned_names(assigned_variables@).contains(variable@),
{
    for i in 0..assigned_variables.len()
        invariant
            forall|j: int| 0 <= j < i ==> assigned_variables@[j]@ != variable@,
    {
        let assigned: &Variable = assigned_variables[i];
        if *assigned == *variable {
            assert(assigned_variables@[i as int]@ == variable@);
            return true;
        }
    }
    false
}

/// How many of three places of a pattern hold a value once the assigned variables do.
pub fn count_pattern_binds(
    pattern: &TripleOrPathPattern,
    assigned_variables: &Vec<&Variable>,
) -> (count: u8)
    ensures
        count == bind_count(*pattern, assigned_names(assigned_variables@)),
        count <= 3,
{
    let mut count: u8 = 3;
    if let TermOrVariable::Variable(v) = pattern.subject() {
        if !is_assigned(v, assigned_variables) {
            assert(end_variable(pattern.subject_of()).contains(v@));
            count = count - 1;
        }
    }
    if let TripleOrPathPattern::Triple(t) = pattern {
        if let NamedNodeOrVariable::Variable(v) = &t.predicate {
            if !is_assigned(v, assigned_variables) {
                assert(middle_variable(*pattern).contains(v@));
                count = count - 1;
            }
        }
    } else {
        count = count - 1;
    }
    if let TermOrVariable::Variable(v) = pattern.object() {
        if !is_assigned(v, assigned_variables) {
            assert(end_variable(pattern.object_of()).contains(v@));
            count = count - 1;
        }
    }
    count
}

/// Assigns a variable, if it is not assigned yet.
fn assign<'a>(variables: &mut Vec<&'a Variable>, variable: &'a Variable)
    ensures
        assigned_names(final(variables)@) == assigned_names(old(variables)@).insert(variable@),
        assigned_once(old(variables)@) ==> assigned_once(final(variables)@),
{
    let ghost before = variables@;
    if is_assigned(variable, variables) {
        assert(assigned_names(before).insert(variable@) =~= assigned_names(before));
        return;
    }
    variables.push(variable);
    let ghost after = variables@;
    assert forall|name: Name| assigned_names(after).contains(name) == assigned_names(
        before,
    ).insert(variable@).contains(name) by {
        if assigned_names(before).contains(name) {
            let i = choose|i: int| 0 <= i < before.len() && before[i]@ == name;
            assert(after[i]@ == name);
        }
        if name == variable@ {
            assert(after[before.len() as int]@ == name);
        }
    }
    assert(assigned_names(after) =~= assigned_names(before).insert(variable@));
    assert forall|i: int, j: int|
        assigned_once(before) && 0 <= i < j < after.len() implies after[i]@ != after[j]@ by {
        if j == before.len() && before[i]@ == variable@ {
            assert(assigned_names(before).contains(variable@));
        }
    }
}

/// Assigns the variables of a pattern.
pub fn add_pattern_variables<'a>(
    pattern: &'a TripleOrPathPattern,
    variables: &mut Vec<&'a Variable>,
)
    ensures
        assigned_names(final(variables)@) == assigned_names(old(variables)@) + pattern_variables(
            *pattern,
        ),
        assigned_once(old(variables)@) ==> assigned_once(final(variables)@),
{
    if let TermOrVariable::Variable(v) = pattern.subject() {
        assign(variables, v);
    }
    if let TripleOrPathPattern::Triple(t) = pattern {
        if let NamedNodeOrVariable::Variable(v) = &t.predicate {
            assign(variables, v);
        }
    }
    if let TermOrVariable::Variable(v) = pattern.object() {
        assign(variables, v);
    }
    assert(assigned_names(variables@) =~= assigned_names(old(variables)@) + pattern_variables(
        *pattern,
    ));
}

/// Appends the patterns with a given count to a list.
fn append_with_count<'a>(
    patterns: &Vec<&'a TripleOrPathPattern>,
    assigned_variables: &Vec<&Variable>,
    count: u8,
    list: &mut Vec<&'a TripleOrPathPattern>,
)
    ensures
        targets(final(list)@) == targets(old(list)@) + with_count(
            targets(patterns@),
            assigned_names(assigned_variables@),
            count as nat,
        ),
{
    let ghost all = targets(patterns@);
    let ghost assigned = assigned_names(assigned_variables@);
    let ghost before = targets(list@);
    proof {
        reveal(Seq::filter);
        assert(targets(list@) =~= before + with_count(all.take(0), assigned, count as nat));
    }
    for i in 0..patterns.len()
        invariant
            all == targets(patterns@),
            assigned == assigned_names(assigned_variables@),
            targets(list@) == before + with_count(all.take(i as int), assigned, count as nat),
    {
        let pattern: &'a TripleOrPathPattern = patterns[i];
        let ghost kept = list@;
        proof {
            reveal(Seq::filter);
            assert(all.take(i + 1).drop_last() =~= all.take(i as int));
            assert(all.take(i + 1).last() == *pattern);
        }
        if count_pattern_binds(pattern, assigned_variables) == count {
            list.push(pattern);
            assert(targets(list@) =~= targets(kept).push(*pattern));
        }
        assert(targets(list@) =~= before + with_count(all.take(i + 1), assigned, count as nat));
    }
    assert(all.take(all.len() as int) =~= all);
}

/// The patterns by falling count, those with one count in the order in which they come.
fn rank<'a>(
    patterns: &Vec<&'a TripleOrPathPattern>,
    assigned_variables: &Vec<&Variable>,
) -> (order: Vec<&'a TripleOrPathPattern>)
    ensures
        targets(order@) == ranked(targets(patterns@), assigned_names(assigned_variables@)),
{
    let mut order: Vec<&'a TripleOrPathPattern> = Vec::new();
    append_with_count(patterns, assigned_variables, 3, &mut order);
    append_with_count(patterns, assigned_variables, 2, &mut order);
    append_with_count(patterns, assigned_variables, 1, &mut order);
    append_with_count(patterns, assigned_variables, 0, &mut order);
    assert(targets(order@) =~= ranked(targets(patterns@), assigned_names(assigned_variables@)));
    order
}

/// The order in which the members of a basic graph pattern are joined: each time the one of
/// which the most is known already.
pub fn sort_bgp<'a>(p: &'a [TripleOrPathPattern]) -> (new_p: Vec<&'a TripleOrPathPattern>)
    ensures
        targets(new_p@) == join_order(p@, set![]),
{
    let mut assigned_variables: Vec<&'a Variable> = Vec::new();
    let mut rest: Vec<&'a TripleOrPathPattern> = Vec::new();
    for i in 0..p.len()
        invariant
            targets(rest@) == p@.take(i as int),
    {
        let ghost before = rest@;
        rest.push(&p[i]);
        assert(targets(rest@) =~= targets(before).push(p@[i as int]));
        assert(p@.take(i + 1) =~= p@.take(i as int).push(p@[i as int]));
    }
    let mut new_p: Vec<&'a TripleOrPathPattern> = Vec::new();
    proof {
        assert(p@.take(p@.len() as int) =~= p@);
        assert(assigned_names(assigned_variables@) =~= set![]);
        assert(targets(new_p@) + join_order(p@, set![]) =~= join_order(p@, set![]));
    }
    while rest.len() > 0
        invariant
            targets(new_p@) + join_order(targets(rest@), assigned_names(assigned_variables@))
                == join_order(p@, set![]),
            assigned_once(assigned_variables@),
        decreases rest@.len(),
    {
        let ghost left = targets(rest@);
        let ghost assigned = assigned_names(assigned_variables@);
        let ghost before = new_p@;
        proof {
            lemma_ranked_is_permutation(left, assigned);
        }
        rest = rank(&rest, &assigned_variables);
        let ghost order = targets(rest@);
        let ghost in_order = rest@;
        let first: &'a TripleOrPathPattern = rest.remove(0);
        add_pattern_variables(first, &mut assigned_variables);
        new_p.push(first);
        proof {
            assert(in_order.len() == left.len());
            assert(targets(rest@) =~= order.drop_first());
            assert(targets(new_p@) =~= targets(before) + seq![order[0]]);
            assert(targets(new_p@) + join_order(
                targets(rest@),
                assigned_names(assigned_variables@),
            ) =~= targets(before) + join_order(left, assigned));
        }
    }
    proof {
        assert(join_order(targets(rest@), assigned_names(assigned_variables@)) =~= seq![]);
        assert(targets(new_p@) =~= join_order(p@, set![]));
    }
    new_p
}

} // verus!
