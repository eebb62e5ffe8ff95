//! Roles, strategies and the learned strategy weights of one agent.

use vstd::prelude::*;

use crate::fixed::{complement, fade, spec_complement, spec_fade, SCALE};
use crate::network::{discounted, is_rate, lemma_discounted_nonnegative, row_nonnegative};

verus! {

/// The side of a meeting that an agent is on.
#[derive(Clone, Copy, Debug, PartialEq, Eq, Structural)]
pub enum Role {
    Host,
    Visitor,
}

/// What an agent plays. `Undecided` is the state before the first choice.
#[derive(Clone, Copy, Debug, PartialEq, Eq, Structural)]
pub enum Strategy {
    Undecided,
    Hawk,
    Dove,
    Fox,
}

/// The strategy that stands at place `i` of a weight vector.
pub open spec fn strategy_at(i: int) -> Strategy {
    if i == 0 {
        Strategy::Hawk
    } else if i == 1 {
        Strategy::Dove
    } else if i == 2 {
        Strategy::Fox
    } else {
        Strategy::Undecided
    }
}

/// The place of a strategy in a weight vector.
pub open spec fn place_of_strategy(s: Strategy) -> int {
    match s {
        Strategy::Hawk => 0,
        Strategy::Dove => 1,
        Strategy::Fox => 2,
        Strategy::Undecided => 3,
    }
}

/// How many strategies are open to an agent: Hawk and Dove always, Fox as
/// well to a deviant visitor.
pub open spec fn available_count(role: Role, deviant: bool) -> int {
    if deviant && role == Role::Visitor {
        3
    } else {
        2
    }
}

/// `s` is one of the strategies open to an agent in `role`.
pub open spec fn is_available(s: Strategy, role: Role, deviant: bool) -> bool {
    0 <= place_of_strategy(s) < available_count(role, deviant)
}

/// The weights after one decay: the first `count` of them multiplied by
/// `1.0 - discount`, the others as they were.
pub open spec fn decayed(weights: Seq<i64>, count: int, discount: int) -> Seq<i64> {
    Seq::new(
        weights.len(),
        |j: int|
            if j < count {
                discounted(weights[j] as int, discount) as i64
            } else {
                weights[j]
            },
    )
}

/// A decay at a rate between zero and 1.0 leaves weights that are not
/// negative not negative; a decay at the rate zero leaves every weight as it
/// is.
pub proof fn lemma_decayed_nonnegative(weights: Seq<i64>, count: int, discount: int)
    ensures
        decayed(weights, count, discount).len() == weights.len(),
        row_nonnegative(weights) && is_rate(discount) ==> row_nonnegative(
            decayed(weights, count, discount),
        ),
        discount == 0 ==> decayed(weights, count, discount) == weights,
{
    let after = decayed(weights, count, discount);
    if row_nonnegative(weights) && is_rate(discount) {
        assert forall|j: int| 0 <= j < after.len() implies (#[trigger] after[j]) >= 0 by {
            assert(weights[j] >= 0);
            lemma_discounted_nonnegative(weights[j] as int, discount);
        }
    }
    if discount == 0 {
        assert forall|j: int| 0 <= j < after.len() implies (#[trigger] after[j]) == weights[j] by {
            crate::network::lemma_discounted_at_zero(weights[j] as int);
        }
        assert(after =~= weights);
    }
}

impl Strategy {
    /// The strategy at place `i` of a weight vector.
    pub fn from_index(i: usize) -> (s: Strategy)
        requires
            i < 3,
        ensures
            s == strategy_at(i as int),
            place_of_strategy(s) == i,
    {
        if i == 0 {
            Strategy::Hawk
        } else if i == 1 {
            Strategy::Dove
        } else {
            Strategy::Fox
        }
    }

    /// The place of this strategy in a weight vector.
    pub fn index(self) -> (i: usize)
        requires
            self != Strategy::Undecided,
        ensures
            i == place_of_strategy(self),
            i < 3,
    {
        match self {
            Strategy::Hawk => 0,
            Strategy::Dove => 1,
            _ => 2,
        }
    }
}

/// Counts the strategies open to an agent in `role`.
pub fn available(role: Role, deviant: bool) -> (n: usize)
    ensures
        n == available_count(role, deviant),
{
    match role {
        Role::Visitor => if deviant {
            3
        } else {
            2
        },
        Role::Host => 2,
    }
}

/// The places `0, 1, ..., n - 1` in rising order.
pub fn index_range(n: usize) -> (order: Vec<usize>)
    ensures
        order@.len() == n,
        forall|i: int| 0 <= i < n ==> order@[i] == i,
        order@.no_duplicates(),
{
    let mut order: Vec<usize> = Vec::new();
    let mut i: usize = 0;
    while i < n
        invariant
            i <= n,
            order@.len() == i,
            forall|j: int| 0 <= j < i ==> order@[j] == j,
        decreases n - i,
    {
        order.push(i);
        i = i + 1;
    }
    order
}

/// Decays the first `count` weights by `discount`.
pub fn decay(weights: &mut Vec<i64>, count: usize, discount: i64)
    requires
        count <= old(weights)@.len(),
    ensures
        final(weights)@ == decayed(old(weights)@, count as int, discount as int),
        row_nonnegative(old(weights)@) && is_rate(discount as int) ==> row_nonnegative(
            final(weights)@,
        ),
{
    proof {
        lemma_decayed_nonnegative(weights@, count as int, discount as int);
    }
    let keep = complement(discount);
    let ghost before = weights@;
    let mut i: usize = 0;
    while i < count
        invariant
            i <= count <= before.len(),
            keep == spec_complement(discount as int),
            weights@.len() == before.len(),
            forall|j: int| 0 <= j < i ==> weights@[j] == spec_fade(before[j] as int, keep as int),
            forall|j: int| i <= j < before.len() ==> weights@[j] == before[j],
        decreases count - i,
    {
        let w = weights[i];
        weights[i] = fade(w, keep);
        i = i + 1;
    }
    assert(weights@ =~= decayed(before, count as int, discount as int));
}

/// The learned weights of one agent: one vector for visiting, over Hawk,
/// Dove and Fox, and one for hosting, over Hawk and Dove.
pub struct StratVector {
    pub visit: Vec<i64>,
    pub host: Vec<i64>,
}

impl StratVector {
    /// The two vectors have their lengths.
    pub open spec fn wf(&self) -> bool {
        self.visit@.len() == 3 && self.host@.len() == 2
    }

    /// The weights that belong to `role`.
    pub open spec fn weights(&self, role: Role) -> Seq<i64> {
        match role {
            Role::Host => self.host@,
            Role::Visitor => self.visit@,
        }
    }

    /// The weights that do not belong to `role`.
    pub open spec fn other_weights(&self, role: Role) -> Seq<i64> {
        match role {
            Role::Host => self.visit@,
            Role::Visitor => self.host@,
        }
    }

    /// Every weight of both vectors is at least zero.
    pub open spec fn nonnegative(&self) -> bool {
        row_nonnegative(self.visit@) && row_nonnegative(self.host@)
    }

    /// Every strategy starts with the weight 1.0.
    pub fn new() -> (s: StratVector)
        ensures
            s.wf(),
            s.visit@ == seq![SCALE, SCALE, SCALE],
            s.host@ == seq![SCALE, SCALE],
    {
        let mut visit: Vec<i64> = Vec::new();
        visit.push(SCALE);
        visit.push(SCALE);
        visit.push(SCALE);
        let mut host: Vec<i64> = Vec::new();
        host.push(SCALE);
        host.push(SCALE);
        assert(visit@ =~= seq![SCALE, SCALE, SCALE]);
        assert(host@ =~= seq![SCALE, SCALE]);
        StratVector { visit, host }
    }

    /// The vector that belongs to `role`, open to change.
    pub fn get_strat(&mut self, role: &Role) -> (weights: &mut Vec<i64>)
        ensures
            weights@ == old(self).weights(*role),
            final(self).weights(*role) == final(weights)@,
            final(self).other_weights(*role) == old(self).other_weights(*role),
    {
        match role {
            Role::Host => &mut self.host,
            Role::Visitor => &mut self.visit,
        }
    }
}

} // verus!
