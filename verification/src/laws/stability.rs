//! The join order of a basic graph pattern is stable.
use crate::algebra::TripleOrPathPattern;
use crate::laws::joining::{assigned_by, lemma_assigned_by_rest, lemma_bind_count_bound};
use crate::model::Name;
use crate::ordering::{
    bind_count, join_order, lemma_ranked_is_permutation, pattern_variables, ranked, with_count,
};
use vstd::prelude::*;

verus! {

/// The patterns at these places of a list.
pub open spec fn patterns_at(places: Seq<int>, patterns: Seq<TripleOrPathPattern>) -> Seq<
    TripleOrPathPattern,
> {
    Seq::new(places.len(), |i: int| patterns[places[i]])
}

/// The places whose patterns have a given count, in the order in which they come.
pub open spec fn places_with_count(
    places: Seq<int>,
    patterns: Seq<TripleOrPathPattern>,
    assigned: Set<Name>,
    count: nat,
) -> Seq<int> {
    places.filter(|place: int| bind_count(patterns[place], assigned) == count)
}

/// The places of patterns as ranking orders them.
pub open spec fn ranked_places(
    places: Seq<int>,
    patterns: Seq<TripleOrPathPattern>,
    assigned: Set<Name>,
) -> Seq<int> {
    places_with_count(places, patterns, assigned, 3) + places_with_count(
        places,
        patterns,
        assigned,
        2,
    ) + places_with_count(places, patterns, assigned, 1) + places_with_count(
        places,
        patterns,
        assigned,
        0,
    )
}

/// The places of patterns as they are joined.
pub open spec fn joined_places(
    places: Seq<int>,
    patterns: Seq<TripleOrPathPattern>,
    assigned: Set<Name>,
) -> Seq<int>
    decreases places.len(),
{
    if places.len() == 0 {
        seq![]
    } else {
        let order = ranked_places(places, patterns, assigned);
        proof {
            lemma_ranked_places(places, patterns, assigned);
        }
        seq![order[0]] + joined_places(
            order.drop_first(),
            patterns,
            assigned + pattern_variables(patterns[order[0]]),
        )
    }
}

/// The places of a list, in order.
pub open spec fn all_places(count: nat) -> Seq<int> {
    Seq::new(count, |i: int| i)
}

/// Whether one place comes before another.
pub open spec fn comes_before(places: Seq<int>, x: int, y: int) -> bool {
    exists|i: int, j: int|
        0 <= i < j < places.len() && #[trigger] places[i] == x && #[trigger] places[j] == y
}

proof fn lemma_filter_places(
    places: Seq<int>,
    patterns: Seq<TripleOrPathPattern>,
    assigned: Set<Name>,
    count: nat,
)
    ensures
        patterns_at(places_with_count(places, patterns, assigned, count), patterns) == with_count(
            patterns_at(places, patterns),
            assigned,
            count,
        ),
    decreases places.len(),
{
    reveal(Seq::filter);
    let all = patterns_at(places, patterns);
    if places.len() > 0 {
        lemma_filter_places(places.drop_last(), patterns, assigned, count);
        assert(all.drop_last() =~= patterns_at(places.drop_last(), patterns));
        let kept = places_with_count(places.drop_last(), patterns, assigned, count);
        assert(patterns_at(kept.push(places.last()), patterns) =~= patterns_at(
            kept,
            patterns,
        ).push(patterns[places.last()]));
    } else {
        assert(all =~= seq![]);
        assert(patterns_at(places_with_count(places, patterns, assigned, count), patterns)
            =~= seq![]);
    }
}

/// Ranking places ranks the patterns at them.
pub proof fn lemma_ranked_places(
    places: Seq<int>,
    patterns: Seq<TripleOrPathPattern>,
    assigned: Set<Name>,
)
    ensures
        patterns_at(ranked_places(places, patterns, assigned), patterns) == ranked(
            patterns_at(places, patterns),
            assigned,
        ),
        ranked_places(places, patterns, assigned).len() == places.len(),
{
    lemma_filter_places(places, patterns, assigned, 3);
    lemma_filter_places(places, patterns, assigned, 2);
    lemma_filter_places(places, patterns, assigned, 1);
    lemma_filter_places(places, patterns, assigned, 0);
    assert(patterns_at(ranked_places(places, patterns, assigned), patterns) =~= ranked(
        patterns_at(places, patterns),
        assigned,
    ));
    lemma_ranked_is_permutation(patterns_at(places, patterns), assigned);
    assert(ranked(patterns_at(places, patterns), assigned).len() == ranked_places(
        places,
        patterns,
        assigned,
    ).len());
}

/// Joining places joins the patterns at them.
proof fn lemma_joined_places(
    places: Seq<int>,
    patterns: Seq<TripleOrPathPattern>,
    assigned: Set<Name>,
)
    ensures
        patterns_at(joined_places(places, patterns, assigned), patterns) == join_order(
            patterns_at(places, patterns),
            assigned,
        ),
    decreases places.len(),
{
    if places.len() > 0 {
        let order = ranked_places(places, patterns, assigned);
        let by_rank = ranked(patterns_at(places, patterns), assigned);
        lemma_ranked_places(places, patterns, assigned);
        let more = assigned + pattern_variables(patterns[order[0]]);
        lemma_joined_places(order.drop_first(), patterns, more);
        assert(by_rank[0] == patterns[order[0]]);
        assert(patterns_at(order.drop_first(), patterns) =~= by_rank.drop_first());
        assert(patterns_at(joined_places(places, patterns, assigned), patterns) =~= seq![
            by_rank[0],
        ] + join_order(by_rank.drop_first(), more));
    } else {
        assert(patterns_at(places, patterns) =~= seq![]);
        assert(patterns_at(joined_places(places, patterns, assigned), patterns) =~= seq![]);
    }
}

proof fn lemma_filter_keeps_order(places: Seq<int>, keep: spec_fn(int) -> bool, x: int, y: int)
    ensures
        comes_before(places.filter(keep), x, y) <==> comes_before(places, x, y) && keep(x) && keep(
            y,
        ),
        places.filter(keep).contains(x) <==> places.contains(x) && keep(x),
    decreases places.len(),
{
    reveal(Seq::filter);
    if places.len() > 0 {
        let front = places.drop_last();
        let last = places.last();
        lemma_filter_keeps_order(front, keep, x, y);
        assert(places =~= front.push(last));
        lemma_push_places(front, last, x, y);
        if keep(last) {
            lemma_push_places(front.filter(keep), last, x, y);
        }
    }
}

proof fn lemma_push_places(places: Seq<int>, last: int, x: int, y: int)
    ensures
        comes_before(places.push(last), x, y) <==> comes_before(places, x, y) || (y == last
            && places.contains(x)),
        places.push(last).contains(x) <==> places.contains(x) || x == last,
{
    let longer = places.push(last);
    if comes_before(longer, x, y) {
        let (i, j) = choose|i: int, j: int|
            0 <= i < j < longer.len() && #[trigger] longer[i] == x && #[trigger] longer[j] == y;
        assert(places[i] == x);
        if j < places.len() {
            assert(places[j] == y);
        }
    }
    if comes_before(places, x, y) {
        let (i, j) = choose|i: int, j: int|
            0 <= i < j < places.len() && #[trigger] places[i] == x && #[trigger] places[j] == y;
        assert(longer[i] == x && longer[j] == y);
    }
    if places.contains(x) {
        let i = choose|i: int| 0 <= i < places.len() && places[i] == x;
        assert(longer[i] == x && longer[places.len() as int] == last);
    }
    assert(longer[places.len() as int] == last);
    if longer.contains(x) && x != last {
        let i = choose|i: int| 0 <= i < longer.len() && longer[i] == x;
        assert(places[i] == x);
    }
}

proof fn lemma_append_places(front: Seq<int>, back: Seq<int>, x: int, y: int)
    ensures
        comes_before(front + back, x, y) <==> comes_before(front, x, y) || comes_before(back, x, y)
            || (front.contains(x) && back.contains(y)),
        (front + back).contains(x) <==> front.contains(x) || back.contains(x),
    decreases back.len(),
{
    if back.len() > 0 {
        let rest = back.drop_last();
        lemma_append_places(front, rest, x, y);
        assert(front + back =~= (front + rest).push(back.last()));
        assert(back =~= rest.push(back.last()));
        lemma_push_places(front + rest, back.last(), x, y);
        lemma_push_places(rest, back.last(), x, y);
        lemma_push_places(rest, back.last(), y, y);
    } else {
        assert(front + back =~= front);
    }
}

/// Ranking puts a place before another if its pattern has the higher count, or the same count and
/// it came before.
proof fn lemma_ranked_before(
    places: Seq<int>,
    patterns: Seq<TripleOrPathPattern>,
    assigned: Set<Name>,
    x: int,
    y: int,
)
    requires
        places.contains(x),
        places.contains(y),
    ensures
        comes_before(ranked_places(places, patterns, assigned), x, y) <==> bind_count(
            patterns[x],
            assigned,
        ) > bind_count(patterns[y], assigned) || (bind_count(patterns[x], assigned) == bind_count(
            patterns[y],
            assigned,
        ) && comes_before(places, x, y)),
{
    let s3 = places_with_count(places, patterns, assigned, 3);
    let s2 = places_with_count(places, patterns, assigned, 2);
    let s1 = places_with_count(places, patterns, assigned, 1);
    let s0 = places_with_count(places, patterns, assigned, 0);
    lemma_bind_count_bound(patterns[x], assigned);
    lemma_bind_count_bound(patterns[y], assigned);
    lemma_count_keeps_order(places, patterns, assigned, 3, x, y);
    lemma_count_keeps_order(places, patterns, assigned, 2, x, y);
    lemma_count_keeps_order(places, patterns, assigned, 1, x, y);
    lemma_count_keeps_order(places, patterns, assigned, 0, x, y);
    lemma_append_places(s3, s2, x, y);
    lemma_append_places(s3, s2, y, x);
    lemma_append_places(s3 + s2, s1, x, y);
    lemma_append_places(s3 + s2, s1, y, x);
    lemma_append_places(s3 + s2 + s1, s0, x, y);
}

proof fn lemma_count_keeps_order(
    places: Seq<int>,
    patterns: Seq<TripleOrPathPattern>,
    assigned: Set<Name>,
    count: nat,
    x: int,
    y: int,
)
    ensures
        comes_before(places_with_count(places, patterns, assigned, count), x, y) <==> comes_before(
            places,
            x,
            y,
        ) && bind_count(patterns[x], assigned) == count && bind_count(patterns[y], assigned)
            == count,
        places_with_count(places, patterns, assigned, count).contains(x) <==> places.contains(x)
            && bind_count(patterns[x], assigned) == count,
        places_with_count(places, patterns, assigned, count).contains(y) <==> places.contains(y)
            && bind_count(patterns[y], assigned) == count,
{
    let keep = |place: int| bind_count(patterns[place], assigned) == count;
    assert(places_with_count(places, patterns, assigned, count) == places.filter(keep));
    lemma_filter_keeps_order(places, keep, x, y);
    lemma_filter_keeps_order(places, keep, y, y);
}

/// Ranking keeps the places that there are.
proof fn lemma_ranked_members(
    places: Seq<int>,
    patterns: Seq<TripleOrPathPattern>,
    assigned: Set<Name>,
    x: int,
)
    ensures
        ranked_places(places, patterns, assigned).contains(x) <==> places.contains(x),
{
    let s3 = places_with_count(places, patterns, assigned, 3);
    let s2 = places_with_count(places, patterns, assigned, 2);
    let s1 = places_with_count(places, patterns, assigned, 1);
    let s0 = places_with_count(places, patterns, assigned, 0);
    lemma_bind_count_bound(patterns[x], assigned);
    lemma_count_keeps_order(places, patterns, assigned, 3, x, x);
    lemma_count_keeps_order(places, patterns, assigned, 2, x, x);
    lemma_count_keeps_order(places, patterns, assigned, 1, x, x);
    lemma_count_keeps_order(places, patterns, assigned, 0, x, x);
    lemma_append_places(s3, s2, x, x);
    lemma_append_places(s3 + s2, s1, x, x);
    lemma_append_places(s3 + s2 + s1, s0, x, x);
}

/// A place comes before itself in a list if and only if it stands there twice.
proof fn lemma_no_place_twice(places: Seq<int>)
    ensures
        places.no_duplicates() <==> forall|x: int| !#[trigger] comes_before(places, x, x),
{
    if places.no_duplicates() {
        assert forall|x: int| !#[trigger] comes_before(places, x, x) by {
            if comes_before(places, x, x) {
                let (i, j) = choose|i: int, j: int|
                    0 <= i < j < places.len() && #[trigger] places[i] == x && #[trigger] places[j]
                        == x;
                assert(places[i] != places[j]);
            }
        }
    }
    if forall|x: int| !#[trigger] comes_before(places, x, x) {
        assert forall|i: int, j: int| 0 <= i < j < places.len() implies places[i] != places[j] by {
            assert(!comes_before(places, places[i], places[i]));
        }
    }
}

/// Ranking keeps places apart.
proof fn lemma_ranked_apart(
    places: Seq<int>,
    patterns: Seq<TripleOrPathPattern>,
    assigned: Set<Name>,
)
    requires
        places.no_duplicates(),
    ensures
        ranked_places(places, patterns, assigned).no_duplicates(),
{
    let order = ranked_places(places, patterns, assigned);
    lemma_no_place_twice(places);
    lemma_no_place_twice(order);
    assert forall|x: int| !#[trigger] comes_before(order, x, x) by {
        lemma_ranked_members(places, patterns, assigned, x);
        if comes_before(order, x, x) {
            let (i, j) = choose|i: int, j: int|
                0 <= i < j < order.len() && #[trigger] order[i] == x && #[trigger] order[j] == x;
            assert(order.contains(x));
            lemma_ranked_before(places, patterns, assigned, x, x);
            assert(!comes_before(places, x, x));
        }
    }
}

/// What comes before in a list without its first place comes before in the list.
proof fn lemma_rest_before(places: Seq<int>, x: int, y: int)
    requires
        places.len() > 0,
        places.no_duplicates(),
    ensures
        comes_before(places, x, y) <==> comes_before(places.drop_first(), x, y) || (x == places[0]
            && places.drop_first().contains(y)),
        places.contains(x) <==> x == places[0] || places.drop_first().contains(x),
        !places.drop_first().contains(places[0]),
        places.drop_first().no_duplicates(),
{
    let rest = places.drop_first();
    assert(places =~= seq![places[0]] + rest);
    lemma_append_places(seq![places[0]], rest, x, y);
    assert(seq![places[0]].contains(x) <==> x == places[0]) by {
        assert(seq![places[0]][0] == places[0]);
    }
    assert(!comes_before(seq![places[0]], x, y));
    assert forall|i: int, j: int| 0 <= i < j < rest.len() implies rest[i] != rest[j] by {
        assert(places[i + 1] != places[j + 1]);
    }
    if rest.contains(places[0]) {
        let i = choose|i: int| 0 <= i < rest.len() && rest[i] == places[0];
        assert(places[i + 1] != places[0]);
    }
}

/// The places that are joined are those that there are, each once.
proof fn lemma_joined_members(
    places: Seq<int>,
    patterns: Seq<TripleOrPathPattern>,
    assigned: Set<Name>,
)
    requires
        places.no_duplicates(),
    ensures
        joined_places(places, patterns, assigned).no_duplicates(),
        joined_places(places, patterns, assigned).len() == places.len(),
        forall|x: int| #[trigger]
            joined_places(places, patterns, assigned).contains(x) <==> places.contains(x),
    decreases places.len(),
{
    let joined = joined_places(places, patterns, assigned);
    if places.len() > 0 {
        let order = ranked_places(places, patterns, assigned);
        lemma_ranked_places(places, patterns, assigned);
        lemma_ranked_apart(places, patterns, assigned);
        let first = order[0];
        let rest = order.drop_first();
        lemma_rest_before(order, first, first);
        let more = assigned + pattern_variables(patterns[first]);
        lemma_joined_members(rest, patterns, more);
        let tail = joined_places(rest, patterns, more);
        assert(joined == seq![first] + tail);
        assert forall|x: int| #[trigger] joined.contains(x) <==> places.contains(x) by {
            lemma_ranked_members(places, patterns, assigned, x);
            lemma_rest_before(order, x, x);
            lemma_append_places(seq![first], tail, x, x);
            assert(seq![first].contains(x) <==> x == first) by {
                assert(seq![first][0] == first);
            }
            assert(tail.contains(x) <==> rest.contains(x));
        }
        assert forall|i: int, j: int| 0 <= i < j < joined.len() implies joined[i] != joined[j] by {
            assert(joined[j] == tail[j - 1]);
            if i > 0 {
                assert(joined[i] == tail[i - 1]);
            } else {
                assert(tail.contains(tail[j - 1]));
            }
        }
    }
}

/// Whether a pattern never has a lower count than another one, as the patterns of a list get
/// joined.
pub open spec fn never_lower(
    x: TripleOrPathPattern,
    y: TripleOrPathPattern,
    order: Seq<TripleOrPathPattern>,
    assigned: Set<Name>,
) -> bool {
    forall|count: nat|
        count <= order.len() ==> bind_count(
            x,
            #[trigger] assigned_by(order, count, assigned),
        ) >= bind_count(y, assigned_by(order, count, assigned))
}

proof fn lemma_joined_before(
    places: Seq<int>,
    patterns: Seq<TripleOrPathPattern>,
    assigned: Set<Name>,
    x: int,
    y: int,
)
    requires
        places.no_duplicates(),
        comes_before(places, x, y),
        never_lower(
            patterns[x],
            patterns[y],
            join_order(patterns_at(places, patterns), assigned),
            assigned,
        ),
    ensures
        comes_before(joined_places(places, patterns, assigned), x, y),
    decreases places.len(),
{
    let order = ranked_places(places, patterns, assigned);
    let by_rank = ranked(patterns_at(places, patterns), assigned);
    let whole = join_order(patterns_at(places, patterns), assigned);
    let (i, j) = choose|i: int, j: int|
        0 <= i < j < places.len() && #[trigger] places[i] == x && #[trigger] places[j] == y;
    assert(places.contains(x) && places.contains(y));
    lemma_ranked_places(places, patterns, assigned);
    lemma_ranked_apart(places, patterns, assigned);
    assert(assigned_by(whole, 0, assigned) == assigned);
    lemma_ranked_before(places, patterns, assigned, x, y);
    lemma_no_place_twice(order);
    let first = order[0];
    let rest = order.drop_first();
    let more = assigned + pattern_variables(patterns[first]);
    lemma_rest_before(order, x, y);
    lemma_rest_before(order, y, x);
    let tail = joined_places(rest, patterns, more);
    lemma_joined_members(rest, patterns, more);
    lemma_append_places(seq![first], tail, x, y);
    assert(seq![first].contains(first)) by {
        assert(seq![first][0] == first);
    }
    assert(tail.contains(y) <==> rest.contains(y));
    if x != first {
        assert(by_rank[0] == patterns[first]);
        assert(patterns_at(rest, patterns) =~= by_rank.drop_first());
        let later = join_order(patterns_at(rest, patterns), more);
        assert(whole == seq![by_rank[0]] + later);
        assert(whole.drop_first() =~= later);
        assert forall|count: nat| count <= later.len() implies bind_count(
            patterns[x],
            #[trigger] assigned_by(later, count, more),
        ) >= bind_count(patterns[y], assigned_by(later, count, more)) by {
            lemma_assigned_by_rest(whole, count + 1, assigned);
            assert(assigned_by(whole, count + 1, assigned) == assigned_by(later, count, more));
        }
        lemma_joined_before(rest, patterns, more, x, y);
    }
}

/// The join order is that of a list of places, each once. A pattern that stands earlier and never
/// has the lower count stays earlier.
pub proof fn lemma_join_order_is_stable(patterns: Seq<TripleOrPathPattern>, assigned: Set<Name>)
    ensures
        ({
            let places = joined_places(all_places(patterns.len()), patterns, assigned);
            let order = join_order(patterns, assigned);
            &&& order == patterns_at(places, patterns)
            &&& places.no_duplicates()
            &&& forall|i: int| #[trigger] places.contains(i) <==> 0 <= i < patterns.len()
            &&& forall|i: int, j: int|
                #![trigger comes_before(places, i, j)]
                0 <= i < j < patterns.len() && never_lower(
                    patterns[i],
                    patterns[j],
                    order,
                    assigned,
                ) ==> comes_before(places, i, j)
        }),
{
    let all = all_places(patterns.len());
    let places = joined_places(all, patterns, assigned);
    let order = join_order(patterns, assigned);
    assert(patterns_at(all, patterns) =~= patterns);
    lemma_joined_places(all, patterns, assigned);
    lemma_joined_members(all, patterns, assigned);
    assert forall|i: int| #[trigger] places.contains(i) <==> 0 <= i < patterns.len() by {
        if 0 <= i < patterns.len() {
            assert(all[i] == i);
        }
    }
    assert forall|i: int, j: int|
        #![trigger comes_before(places, i, j)]
        0 <= i < j < patterns.len() && never_lower(
            patterns[i],
            patterns[j],
            order,
            assigned,
        ) implies comes_before(places, i, j) by {
        assert(all[i] == i && all[j] == j);
        lemma_joined_before(all, patterns, assigned, i, j);
    }
}

/// Two lists of the same places are joined alike if one puts in their joined order what the other
/// one has in that order.
proof fn lemma_joined_alike(
    a: Seq<int>,
    b: Seq<int>,
    patterns: Seq<TripleOrPathPattern>,
    assigned: Set<Name>,
)
    requires
        a.no_duplicates(),
        b.no_duplicates(),
        a.len() == b.len(),
        forall|x: int| #[trigger] a.contains(x) <==> b.contains(x),
        forall|x: int, y: int|
            #![trigger comes_before(b, x, y)]
            comes_before(a, x, y) && comes_before(joined_places(a, patterns, assigned), x, y)
                ==> comes_before(b, x, y),
    ensures
        joined_places(a, patterns, assigned) == joined_places(b, patterns, assigned),
    decreases a.len(),
{
    if a.len() > 0 {
        let a_order = ranked_places(a, patterns, assigned);
        let b_order = ranked_places(b, patterns, assigned);
        lemma_ranked_places(a, patterns, assigned);
        lemma_ranked_places(b, patterns, assigned);
        lemma_ranked_apart(a, patterns, assigned);
        lemma_ranked_apart(b, patterns, assigned);
        let first = a_order[0];
        let a_rest = a_order.drop_first();
        let b_rest = b_order.drop_first();
        let more = assigned + pattern_variables(patterns[first]);
        let tail = joined_places(a_rest, patterns, more);
        let joined = joined_places(a, patterns, assigned);
        lemma_rest_before(a_order, first, first);
        lemma_joined_members(a_rest, patterns, more);
        assert(joined == seq![first] + tail);
        assert(seq![first].contains(first)) by {
            assert(seq![first][0] == first);
        }
        // What both put in one order, ranking leaves in that order.
        assert forall|x: int, y: int|
            a.contains(x) && a.contains(y) && comes_before(a_order, x, y) && comes_before(
                joined,
                x,
                y,
            ) implies #[trigger] comes_before(b_order, x, y) by {
            lemma_ranked_before(a, patterns, assigned, x, y);
            lemma_ranked_before(b, patterns, assigned, x, y);
            if comes_before(a, x, y) {
                assert(comes_before(b, x, y));
            }
        }
        let other = b_order[0];
        lemma_ranked_members(a, patterns, assigned, first);
        lemma_ranked_members(a, patterns, assigned, other);
        lemma_ranked_members(b, patterns, assigned, other);
        assert(a_order.contains(first));
        assert(b_order.contains(other));
        assert(a.contains(other) <==> b.contains(other));
        if other != first {
            lemma_rest_before(a_order, other, first);
            lemma_rest_before(a_order, first, other);
            lemma_append_places(seq![first], tail, first, other);
            assert(tail.contains(other) <==> a_rest.contains(other));
            assert(comes_before(b_order, first, other));
            lemma_rest_before(b_order, first, other);
            lemma_rest_before(b_order, other, other);
            let (i, j) = choose|i: int, j: int|
                0 <= i < j < b_order.len() && #[trigger] b_order[i] == first
                    && #[trigger] b_order[j] == other;
            assert(b_order[0] != b_order[j]);
        }
        lemma_rest_before(b_order, first, first);
        assert forall|x: int| #[trigger] a_rest.contains(x) <==> b_rest.contains(x) by {
            lemma_ranked_members(a, patterns, assigned, x);
            lemma_ranked_members(b, patterns, assigned, x);
            lemma_rest_before(a_order, x, x);
            lemma_rest_before(b_order, x, x);
            assert(a.contains(x) <==> b.contains(x));
        }
        assert forall|x: int, y: int|
            #![trigger comes_before(b_rest, x, y)]
            comes_before(a_rest, x, y) && comes_before(tail, x, y) implies comes_before(
            b_rest,
            x,
            y,
        ) by {
            let (i, j) = choose|i: int, j: int|
                0 <= i < j < a_rest.len() && #[trigger] a_rest[i] == x && #[trigger] a_rest[j] == y;
            assert(a_rest.contains(x) && a_rest.contains(y));
            lemma_rest_before(a_order, x, y);
            lemma_rest_before(a_order, y, x);
            lemma_rest_before(b_order, x, y);
            lemma_append_places(seq![first], tail, x, y);
            lemma_ranked_members(a, patterns, assigned, x);
            lemma_ranked_members(a, patterns, assigned, y);
            assert(comes_before(b_order, x, y));
        }
        lemma_joined_alike(a_rest, b_rest, patterns, more);
    }
}

/// Patterns in join order stay in it.
pub proof fn lemma_join_order_is_settled(patterns: Seq<TripleOrPathPattern>, assigned: Set<Name>)
    ensures
        join_order(join_order(patterns, assigned), assigned) == join_order(patterns, assigned),
{
    let all = all_places(patterns.len());
    let places = joined_places(all, patterns, assigned);
    assert(patterns_at(all, patterns) =~= patterns);
    lemma_joined_members(all, patterns, assigned);
    lemma_joined_places(all, patterns, assigned);
    lemma_joined_places(places, patterns, assigned);
    assert forall|x: int| #[trigger] all.contains(x) <==> places.contains(x) by {
        assert(places.contains(x) <==> all.contains(x));
    }
    lemma_joined_alike(all, places, patterns, assigned);
}

} // verus!
