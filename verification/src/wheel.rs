//! Weighted choice by roulette wheel.
//!
//! The weights of the places of an order are laid side by side; a draw, read
//! as a fraction of the whole length, stops at the first place whose running
//! total reaches it. The comparison is made on whole numbers: the running
//! total times [`SCALE`] against the draw times the total.

use vstd::prelude::*;

use crate::fixed::SCALE;

verus! {

/// The largest number of places a wheel can have.
pub const MAX_PLACES: usize = 0xffff_ffff;

/// Every place of `order` names an entry of `weights`.
pub open spec fn order_in_range(weights: Seq<i64>, order: Seq<usize>) -> bool {
    forall|i: int| 0 <= i < order.len() ==> (#[trigger] order[i]) < weights.len()
}

/// The sum of the weights at the first `k` places of `order`.
pub open spec fn prefix_weight(weights: Seq<i64>, order: Seq<usize>, k: int) -> int
    decreases k,
{
    if k <= 0 {
        0
    } else {
        prefix_weight(weights, order, k - 1) + weights[order[k - 1] as int]
    }
}

/// The sum of the weights at all places of `order`.
pub open spec fn total_weight(weights: Seq<i64>, order: Seq<usize>) -> int {
    prefix_weight(weights, order, order.len() as int)
}

/// The running total at place `i` reaches the fraction `draw / SCALE` of the
/// total weight.
pub open spec fn reaches(weights: Seq<i64>, order: Seq<usize>, draw: int, i: int) -> bool {
    prefix_weight(weights, order, i + 1) * SCALE >= draw * total_weight(weights, order)
}

/// The first place from `from` on that the draw reaches, if there is one.
pub open spec fn first_reached(weights: Seq<i64>, order: Seq<usize>, draw: int, from: int) -> Option<
    int,
>
    decreases order.len() - from,
{
    if from < 0 || from >= order.len() {
        None
    } else if reaches(weights, order, draw, from) {
        Some(from)
    } else {
        first_reached(weights, order, draw, from + 1)
    }
}

/// Where the wheel stops: nowhere if the total weight is zero, otherwise at
/// the first place that the draw reaches, if there is one.
pub open spec fn wheel_stop(weights: Seq<i64>, order: Seq<usize>, draw: int) -> Option<int> {
    if total_weight(weights, order) == 0 {
        None
    } else {
        first_reached(weights, order, draw, 0)
    }
}

/// A machine index read as a mathematical place.
pub open spec fn place_of(stop: Option<usize>) -> Option<int> {
    match stop {
        Some(i) => Some(i as int),
        None => None,
    }
}

/// A running total of `k` weights lies within `k` times the range of one.
pub proof fn lemma_prefix_bound(weights: Seq<i64>, order: Seq<usize>, k: int)
    requires
        order_in_range(weights, order),
        0 <= k <= order.len(),
    ensures
        k * (i64::MIN as int) <= prefix_weight(weights, order, k) <= k * (i64::MAX as int),
    decreases k,
{
    if k > 0 {
        lemma_prefix_bound(weights, order, k - 1);
        let w = weights[order[k - 1] as int];
        assert(i64::MIN <= w <= i64::MAX);
    }
}

/// What `first_reached` finds: the place it names is reached and no place
/// between `from` and it is; where it names none, no place from `from` on is
/// reached.
pub proof fn lemma_first_reached(weights: Seq<i64>, order: Seq<usize>, draw: int, from: int)
    requires
        0 <= from <= order.len(),
    ensures
        match first_reached(weights, order, draw, from) {
            Some(i) => from <= i < order.len() && reaches(weights, order, draw, i) && forall|j: int|
                from <= j < i ==> !reaches(weights, order, draw, j),
            None => forall|j: int| from <= j < order.len() ==> !reaches(weights, order, draw, j),
        },
    decreases order.len() - from,
{
    if from < order.len() && !reaches(weights, order, draw, from) {
        lemma_first_reached(weights, order, draw, from + 1);
    }
}

/// With a positive total over weights that are not negative, every draw
/// below 1.0 stops the wheel somewhere.
pub proof fn lemma_wheel_stops(weights: Seq<i64>, order: Seq<usize>, draw: int)
    requires
        order_in_range(weights, order),
        forall|i: int| 0 <= i < weights.len() ==> (#[trigger] weights[i]) >= 0,
        total_weight(weights, order) > 0,
        0 <= draw < SCALE,
    ensures
        wheel_stop(weights, order, draw) is Some,
{
    let total = total_weight(weights, order);
    let last = order.len() - 1;
    assert(order.len() > 0);
    lemma_first_reached(weights, order, draw, 0);
    let s = SCALE as int;
    assert(total * s >= draw * total) by (nonlinear_arith)
        requires
            total > 0,
            0 <= draw < s,
    ;
    assert(reaches(weights, order, draw, last));
}

/// Spins the wheel: finds the place of `order` at which `draw` stops.
pub fn spin(weights: &Vec<i64>, order: &Vec<usize>, draw: i64) -> (stop: Option<usize>)
    requires
        order@.len() <= MAX_PLACES,
        order_in_range(weights@, order@),
        0 <= draw <= SCALE,
    ensures
        place_of(stop) == wheel_stop(weights@, order@, draw as int),
        match stop {
            Some(i) => i < order@.len() && total_weight(weights@, order@) != 0 && reaches(
                weights@,
                order@,
                draw as int,
                i as int,
            ) && forall|j: int| 0 <= j < i ==> !reaches(weights@, order@, draw as int, j),
            None => total_weight(weights@, order@) == 0 || forall|j: int|
                0 <= j < order@.len() ==> !reaches(weights@, order@, draw as int, j),
        },
{
    let total = sum_weights(weights, order);
    if total == 0 {
        return None;
    }
    let target = scaled(draw, total);
    let mut running: i128 = 0;
    let mut i: usize = 0;
    while i < order.len()
        invariant
            i <= order@.len() <= MAX_PLACES,
            order_in_range(weights@, order@),
            0 <= draw <= SCALE,
            total == total_weight(weights@, order@),
            total != 0,
            target == draw * total,
            running == prefix_weight(weights@, order@, i as int),
            first_reached(weights@, order@, draw as int, 0) == first_reached(
                weights@,
                order@,
                draw as int,
                i as int,
            ),
        decreases order@.len() - i,
    {
        proof {
            lemma_prefix_bound(weights@, order@, i as int);
            lemma_prefix_bound(weights@, order@, i as int + 1);
        }
        running = running + weights[order[i]] as i128;
        let level = scaled(SCALE, running);
        assert(level == prefix_weight(weights@, order@, i as int + 1) * SCALE) by (nonlinear_arith)
            requires
                level == SCALE * running,
                running == prefix_weight(weights@, order@, i as int + 1),
        ;
        if level >= target {
            proof {
                lemma_first_reached(weights@, order@, draw as int, 0);
            }
            return Some(i);
        }
        i = i + 1;
    }
    proof {
        lemma_first_reached(weights@, order@, draw as int, 0);
    }
    None
}

/// The entry that a spin selects: the one named at the place where the wheel
/// stops.
pub open spec fn wheel_choice(weights: Seq<i64>, order: Seq<usize>, draw: int) -> Option<usize> {
    match wheel_stop(weights, order, draw) {
        Some(i) => Some(order[i]),
        None => None,
    }
}

/// Spins the wheel and names the entry it selects, if it stops.
pub fn pick_weighted(weights: &Vec<i64>, order: &Vec<usize>, draw: i64) -> (choice: Option<usize>)
    requires
        order@.len() <= MAX_PLACES,
        order_in_range(weights@, order@),
        0 <= draw <= SCALE,
    ensures
        choice == wheel_choice(weights@, order@, draw as int),
        choice is Some ==> order@.contains(choice->0) && choice->0 < weights@.len(),
{
    match spin(weights, order, draw) {
        Some(i) => Some(order[i]),
        None => None,
    }
}

/// Whether an agent trembles: a draw below `probability` means that learned
/// weights are set aside and the choice is made uniformly.
pub open spec fn spec_trembles(draw: int, probability: int) -> bool {
    draw < probability
}

/// Decides whether a draw makes an agent tremble.
pub fn trembles(draw: i64, probability: i64) -> (yes: bool)
    ensures
        yes == spec_trembles(draw as int, probability as int),
{
    draw < probability
}

/// With the probability 1.0 every draw makes the agent tremble, and with
/// the probability zero none does: at 1.0 the choice never looks at the
/// learned weights.
pub proof fn lemma_tremble_bounds(draw: int, probability: int)
    requires
        0 <= draw < SCALE,
    ensures
        probability >= SCALE ==> spec_trembles(draw, probability),
        probability <= 0 ==> !spec_trembles(draw, probability),
{
}

/// Adds up the weights at the places of `order`.
pub fn sum_weights(weights: &Vec<i64>, order: &Vec<usize>) -> (total: i128)
    requires
        order@.len() <= MAX_PLACES,
        order_in_range(weights@, order@),
    ensures
        total == total_weight(weights@, order@),
        order@.len() * (i64::MIN as int) <= total <= order@.len() * (i64::MAX as int),
{
    let mut total: i128 = 0;
    let mut i: usize = 0;
    while i < order.len()
        invariant
            i <= order@.len() <= MAX_PLACES,
            order_in_range(weights@, order@),
            total == prefix_weight(weights@, order@, i as int),
        decreases order@.len() - i,
    {
        proof {
            lemma_prefix_bound(weights@, order@, i as int);
            lemma_prefix_bound(weights@, order@, i as int + 1);
        }
        total = total + weights[order[i]] as i128;
        i = i + 1;
    }
    proof {
        lemma_prefix_bound(weights@, order@, order@.len() as int);
    }
    total
}

/// The product of a fraction of 1.0 and a sum of at most `MAX_PLACES`
/// weights.
fn scaled(fraction: i64, sum: i128) -> (r: i128)
    requires
        0 <= fraction <= SCALE,
        MAX_PLACES * (i64::MIN as int) <= sum <= MAX_PLACES * (i64::MAX as int),
    ensures
        r == fraction * sum,
{
    assert(-0x4000_0000_0000_0000_0000_0000_0000_0000 <= fraction * sum
        <= 0x4000_0000_0000_0000_0000_0000_0000_0000) by (nonlinear_arith)
        requires
            0 <= fraction <= 1_000_000_000,
            -0xffff_ffff * 0x8000_0000_0000_0000 <= sum <= 0xffff_ffff * 0x8000_0000_0000_0000,
    ;
    fraction as i128 * sum
}

} // verus!
