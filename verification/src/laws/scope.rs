//! The positions in a plan.
use crate::plan::{plans_mention, Formula, Plan, Slot, SortKey};
use crate::semantics::only_right;
use crate::store::EncodedTerm;
use vstd::prelude::*;

verus! {

/// The first `count` positions.
pub open spec fn first_positions(count: nat) -> Set<nat> {
    Set::new(|k: nat| k < count)
}

/// Whether the first `count` positions are in `scope`.
pub open spec fn covers(scope: Set<nat>, count: nat) -> bool {
    forall|k: nat| k < count ==> #[trigger] scope.contains(k)
}

/// Whether every position in a list is in `scope`.
pub open spec fn all_in(list: Seq<nat>, scope: Set<nat>) -> bool {
    forall|i: int| 0 <= i < list.len() ==> scope.contains(#[trigger] list[i])
}

impl Slot {
    /// Whether a place holds a value, or a position in `scope`.
    pub open spec fn within(self, scope: Set<nat>) -> bool {
        match self {
            Slot::Constant(_) => true,
            Slot::Variable(position) => scope.contains(position),
        }
    }
}

impl Formula {
    /// Whether every position in an expression is in `scope`.
    pub open spec fn within(self, scope: Set<nat>) -> bool
        decreases self,
    {
        match self {
            Formula::Constant(_) => true,
            Formula::Variable(position) => scope.contains(position),
            Formula::Bound(position) => scope.contains(position),
            Formula::Exists(plan) => plan.within(scope),
            Formula::Apply(_, operands) => formulas_within(operands, scope),
        }
    }
}

/// Whether every position in a list of expressions is in `scope`.
pub open spec fn formulas_within(formulas: Seq<Formula>, scope: Set<nat>) -> bool
    decreases formulas,
{
    forall|i: int| 0 <= i < formulas.len() ==> (#[trigger] formulas[i]).within(scope)
}

impl SortKey {
    /// Whether every position in a sort key is in `scope`.
    pub open spec fn within(self, scope: Set<nat>) -> bool
        decreases self,
    {
        match self {
            SortKey::Asc(formula) => formula.within(scope),
            SortKey::Desc(formula) => formula.within(scope),
        }
    }
}

/// Whether every position in a list of sort keys is in `scope`.
pub open spec fn sort_keys_within(keys: Seq<SortKey>, scope: Set<nat>) -> bool
    decreases keys,
{
    forall|i: int| 0 <= i < keys.len() ==> (#[trigger] keys[i]).within(scope)
}

/// Whether every position in a list of tuples is in `scope`.
pub open spec fn tuples_within(tuples: Seq<Seq<Option<EncodedTerm>>>, scope: Set<nat>) -> bool {
    forall|i: int| 0 <= i < tuples.len() ==> covers(scope, (#[trigger] tuples[i]).len())
}

impl Plan {
    /// Whether every position in a plan is in `scope`. What a projection is made of has
    /// positions of its own.
    pub open spec fn within(self, scope: Set<nat>) -> bool
        decreases self,
    {
        match self {
            Plan::Init => true,
            Plan::StaticBindings { tuples } => tuples_within(tuples, scope),
            Plan::QuadPatternJoin { child, subject, predicate, object, graph_name } => {
                &&& child.within(scope)
                &&& subject.within(scope)
                &&& predicate.within(scope)
                &&& object.within(scope)
                &&& graph_name.within(scope)
            },
            Plan::Filter { child, expression } => child.within(scope) && expression.within(scope),
            Plan::Union { entry, children } => entry.within(scope) && plans_within(children, scope),
            Plan::Join { left, right } => left.within(scope) && right.within(scope),
            Plan::AntiJoin { left, right } => left.within(scope) && right.within(scope),
            Plan::LeftJoin { left, right, possible_problem_vars } => {
                &&& left.within(scope)
                &&& right.within(scope)
                &&& all_in(possible_problem_vars, scope)
            },
            Plan::Extend { child, position, expression } => {
                &&& child.within(scope)
                &&& scope.contains(position)
                &&& expression.within(scope)
            },
            Plan::Sort { child, by } => child.within(scope) && sort_keys_within(by, scope),
            Plan::HashDeduplicate { child } => child.within(scope),
            Plan::Skip { child, .. } => child.within(scope),
            Plan::Limit { child, .. } => child.within(scope),
            Plan::Project { mapping, .. } => all_in(mapping, scope),
        }
    }
}

/// Whether every position in a list of plans is in `scope`.
pub open spec fn plans_within(plans: Seq<Plan>, scope: Set<nat>) -> bool
    decreases plans,
{
    forall|i: int| 0 <= i < plans.len() ==> (#[trigger] plans[i]).within(scope)
}

/// An expression mentions no position that it is not within.
pub proof fn lemma_formula_mentions_within(formula: Formula, scope: Set<nat>, k: nat)
    requires
        formula.within(scope),
        formula.mentions(k),
    ensures
        scope.contains(k),
    decreases formula,
{
    match formula {
        Formula::Exists(plan) => {
            lemma_plan_mentions_within(*plan, scope, k);
        },
        Formula::Apply(_, operands) => {
            let i = choose|i: int| 0 <= i < operands.len() && (#[trigger] operands[i]).mentions(k);
            lemma_formula_mentions_within(operands[i], scope, k);
        },
        _ => {},
    }
}

/// A plan mentions no position that it is not within.
pub proof fn lemma_plan_mentions_within(plan: Plan, scope: Set<nat>, k: nat)
    requires
        plan.within(scope),
        plan.mentions(k),
    ensures
        scope.contains(k),
    decreases plan,
{
    match plan {
        Plan::Init => {},
        Plan::StaticBindings { .. } => {},
        Plan::QuadPatternJoin { child, .. } => {
            if child.mentions(k) {
                lemma_plan_mentions_within(*child, scope, k);
            }
        },
        Plan::Filter { child, expression } => {
            if child.mentions(k) {
                lemma_plan_mentions_within(*child, scope, k);
            } else {
                lemma_formula_mentions_within(expression, scope, k);
            }
        },
        Plan::Union { entry, children } => {
            if entry.mentions(k) {
                lemma_plan_mentions_within(*entry, scope, k);
            } else {
                assert(plans_within(children, scope));
                assert(plans_mention(children, k));
                let i = choose|i: int|
                    0 <= i < children.len() && (#[trigger] children[i]).mentions(k);
                lemma_plan_mentions_within(children[i], scope, k);
            }
        },
        Plan::Join { left, right } => {
            if left.mentions(k) {
                lemma_plan_mentions_within(*left, scope, k);
            } else {
                lemma_plan_mentions_within(*right, scope, k);
            }
        },
        Plan::AntiJoin { left, right } => {
            if left.mentions(k) {
                lemma_plan_mentions_within(*left, scope, k);
            } else {
                lemma_plan_mentions_within(*right, scope, k);
            }
        },
        Plan::LeftJoin { left, right, .. } => {
            if left.mentions(k) {
                lemma_plan_mentions_within(*left, scope, k);
            } else {
                lemma_plan_mentions_within(*right, scope, k);
            }
        },
        Plan::Extend { child, position, expression } => {
            if child.mentions(k) {
                lemma_plan_mentions_within(*child, scope, k);
            } else if position != k {
                lemma_formula_mentions_within(expression, scope, k);
            }
        },
        Plan::Sort { child, .. } => {
            lemma_plan_mentions_within(*child, scope, k);
        },
        Plan::HashDeduplicate { child } => {
            lemma_plan_mentions_within(*child, scope, k);
        },
        Plan::Skip { child, .. } => {
            lemma_plan_mentions_within(*child, scope, k);
        },
        Plan::Limit { child, .. } => {
            lemma_plan_mentions_within(*child, scope, k);
        },
        Plan::Project { mapping, .. } => {
            let i = choose|i: int| 0 <= i < mapping.len() && mapping[i] == k;
            assert(scope.contains(mapping[i]));
        },
    }
}

/// The positions that only the right side mentions are listed in rising order, each once.
pub proof fn lemma_only_right(left: Plan, right: Plan, width: nat)
    ensures
        forall|k: nat| #[trigger]
            only_right(left, right, width).contains(k) <==> k < width && right.mentions(k)
                && !left.mentions(k),
        forall|i: int, j: int|
            0 <= i < j < only_right(left, right, width).len() ==> only_right(left, right, width)[i]
                < only_right(left, right, width)[j],
    decreases width,
{
    if width > 0 {
        let last = (width - 1) as nat;
        let fewer = only_right(left, right, last);
        let all = only_right(left, right, width);
        lemma_only_right(left, right, last);
        assert forall|k: nat| #[trigger] all.contains(k) <==> k < width && right.mentions(k)
            && !left.mentions(k) by {
            assert(fewer.contains(k) <==> k < last && right.mentions(k) && !left.mentions(k));
            if fewer.contains(k) {
                let i = choose|i: int| 0 <= i < fewer.len() && fewer[i] == k;
                assert(all[i] == k);
            }
            if all.contains(k) && k != last {
                let i = choose|i: int| 0 <= i < all.len() && all[i] == k;
                assert(fewer[i] == k);
            }
            if right.mentions(last) && !left.mentions(last) {
                assert(all[fewer.len() as int] == last);
            }
        }
        assert forall|i: int, j: int| 0 <= i < j < all.len() implies all[i] < all[j] by {
            assert(fewer.contains(fewer[i]));
        }
    }
}

} // verus!
