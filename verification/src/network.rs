//! The social network: for every agent, a row of weights that says how much
//! it prefers each other agent as a partner. Rows are independent of one
//! another; nothing makes the weight from `i` to `j` equal the one from `j`
//! to `i`.

use vstd::prelude::*;

use crate::fixed::{
    complement, fade, floor_zero, plus, quotient, saturate, saturating, spec_complement,
    spec_fade, spec_floor_zero, spec_plus, trunc_div, SCALE,
};
use crate::wheel::MAX_PLACES;

verus! {

/// The handle of an agent: its place in the population.
#[derive(Clone, Copy, Debug, PartialEq, Eq, Structural)]
pub struct AgentId(pub u32);

/// The largest population a network is built for.
pub const MAX_POPULATION: usize = MAX_PLACES;

/// Why a row could not be normalized.
#[derive(Clone, Copy, Debug, PartialEq, Eq, Structural)]
pub enum NetworkError {
    /// The weights of the row add up to zero.
    ZeroRowSum,
}

/// The weight `w` after one discount at `rate`: `w * (1.0 - rate)`, rounded
/// away from zero, so that a weight is not lost to a discount below 1.0.
pub open spec fn discounted(w: int, rate: int) -> int {
    spec_fade(w, spec_complement(rate))
}

/// The weight `w` after `amount` was added to it, held at zero from below
/// where `clamp` is set.
pub open spec fn reinforced(w: int, amount: int, clamp: bool) -> int {
    if clamp {
        spec_floor_zero(spec_plus(w, amount))
    } else {
        spec_plus(w, amount)
    }
}

/// The sum of the first `k` entries of a row.
pub open spec fn sum_to(row: Seq<i64>, k: int) -> int
    decreases k,
{
    if k <= 0 {
        0
    } else {
        sum_to(row, k - 1) + row[k - 1]
    }
}

/// The sum of a row.
pub open spec fn row_total(row: Seq<i64>) -> int {
    sum_to(row, row.len() as int)
}

/// No entry of the row is negative.
pub open spec fn row_nonnegative(row: Seq<i64>) -> bool {
    forall|j: int| 0 <= j < row.len() ==> (#[trigger] row[j]) >= 0
}

/// The share of 1.0 that falls to the first `k` entries of a row: their sum
/// divided by the sum of the row.
pub open spec fn share_to(row: Seq<i64>, k: int) -> int
    recommends
        row_total(row) != 0,
{
    trunc_div(SCALE * sum_to(row, k), row_total(row))
}

/// The row with every entry divided by the row's sum. An entry is what the
/// share of the entries up to and including it exceeds the share of those
/// before it by: the quotient of the entry by the sum, rounded so that what
/// one entry loses the next one gets, and the whole adds up to 1.0.
pub open spec fn normalized_row(row: Seq<i64>) -> Seq<i64>
    recommends
        row_total(row) != 0,
{
    Seq::new(row.len(), |j: int| saturate(share_to(row, j + 1) - share_to(row, j)) as i64)
}

/// A row of `pop` entries that prefers all alike: one for every place but
/// `i`, where it holds zero.
pub open spec fn alike_row(pop: int, i: int) -> Seq<i64> {
    Seq::new(
        pop as nat,
        |j: int|
            if j == i {
                0i64
            } else {
                1i64
            },
    )
}

/// The row after the entries named by the first `k` candidates were
/// discounted, one after the other.
pub open spec fn discounted_row(row: Seq<i64>, candidates: Seq<usize>, rate: int, k: int) -> Seq<i64>
    decreases k,
{
    if k <= 0 {
        row
    } else {
        let before = discounted_row(row, candidates, rate, k - 1);
        let at = candidates[k - 1] as int;
        before.update(at, discounted(before[at] as int, rate) as i64)
    }
}

/// The row adds up to zero or to exactly 1.0: what a row without negative
/// entries looks like once it has been normalized.
pub open spec fn row_settled(row: Seq<i64>) -> bool {
    row_total(row) == 0 || row_total(row) == SCALE
}

/// The row holds no negative entry and adds up to more than zero.
pub open spec fn row_live(row: Seq<i64>) -> bool {
    row_nonnegative(row) && row_total(row) > 0
}

/// A rate from zero up to, but not including, 1.0.
pub open spec fn is_partial_rate(rate: int) -> bool {
    0 <= rate < SCALE
}

/// A rate between zero and 1.0.
pub open spec fn is_rate(rate: int) -> bool {
    0 <= rate <= SCALE
}

/// A discount at a rate between zero and 1.0 leaves a weight that is not
/// negative not negative, and no larger than it was. At a rate below 1.0 a
/// positive weight stays positive.
pub proof fn lemma_discounted_nonnegative(w: int, rate: int)
    requires
        0 <= w <= i64::MAX,
        is_rate(rate),
    ensures
        0 <= discounted(w, rate) <= w,
        w > 0 && rate < SCALE ==> discounted(w, rate) > 0,
{
    crate::fixed::lemma_fade_bounds(w, spec_complement(rate));
}

/// A discount at the rate zero leaves every weight as it is.
pub proof fn lemma_discounted_at_zero(w: int)
    requires
        i64::MIN <= w <= i64::MAX,
    ensures
        discounted(w, 0) == w,
{
    crate::fixed::lemma_fade_all(w);
}

/// Discounting at a rate between zero and 1.0 leaves a row without negative
/// entries without negative entries. No entry grows, one that no candidate
/// names stays as it is, and at a rate below 1.0 every positive entry stays
/// positive.
pub proof fn lemma_discounted_row_nonnegative(
    row: Seq<i64>,
    candidates: Seq<usize>,
    rate: int,
    k: int,
)
    requires
        row_nonnegative(row),
        is_rate(rate),
        0 <= k <= candidates.len(),
        forall|i: int| 0 <= i < candidates.len() ==> (#[trigger] candidates[i]) < row.len(),
    ensures
        discounted_row(row, candidates, rate, k).len() == row.len(),
        row_nonnegative(discounted_row(row, candidates, rate, k)),
        forall|j: int|
            0 <= j < row.len() ==> (#[trigger] discounted_row(row, candidates, rate, k)[j])
                <= row[j],
        forall|j: int|
            0 <= j < row.len() && !candidates.contains(j as usize) ==> (#[trigger] discounted_row(
                row,
                candidates,
                rate,
                k,
            )[j]) == row[j],
        rate < SCALE ==> forall|j: int|
            0 <= j < row.len() && row[j] > 0 ==> (#[trigger] discounted_row(
                row,
                candidates,
                rate,
                k,
            )[j]) > 0,
    decreases k,
{
    if k > 0 {
        lemma_discounted_row_nonnegative(row, candidates, rate, k - 1);
        let before = discounted_row(row, candidates, rate, k - 1);
        let at = candidates[k - 1] as int;
        assert(before[at] >= 0);
        assert(candidates.contains(candidates[k - 1]));
        lemma_discounted_nonnegative(before[at] as int, rate);
    }
}

/// Discounting at a rate below 1.0 leaves a row that holds no negative
/// entry and adds up to more than zero such a row.
pub proof fn lemma_discounted_row_live(row: Seq<i64>, candidates: Seq<usize>, rate: int)
    requires
        row_live(row),
        is_partial_rate(rate),
        forall|i: int| 0 <= i < candidates.len() ==> (#[trigger] candidates[i]) < row.len(),
    ensures
        row_live(discounted_row(row, candidates, rate, candidates.len() as int)),
{
    let after = discounted_row(row, candidates, rate, candidates.len() as int);
    lemma_discounted_row_nonnegative(row, candidates, rate, candidates.len() as int);
    let j = lemma_positive_entry(row, row.len() as int);
    assert(after[j] > 0);
    lemma_sum_positive(after, j);
}

/// A sum of `k` entries lies within `k` times the range of one.
pub proof fn lemma_sum_bound(row: Seq<i64>, k: int)
    requires
        0 <= k <= row.len(),
    ensures
        k * (i64::MIN as int) <= sum_to(row, k) <= k * (i64::MAX as int),
    decreases k,
{
    if k > 0 {
        lemma_sum_bound(row, k - 1);
        let w = row[k - 1];
        assert(i64::MIN <= w <= i64::MAX);
    }
}

/// In a row without negative entries the partial sums do not fall, and no
/// entry is larger than the sum of the row.
pub proof fn lemma_sum_nonnegative(row: Seq<i64>, j: int, k: int)
    requires
        row_nonnegative(row),
        0 <= j <= k <= row.len(),
    ensures
        0 <= sum_to(row, j) <= sum_to(row, k),
        j < k ==> row[j] <= sum_to(row, k),
    decreases k,
{
    if j < k {
        lemma_sum_nonnegative(row, j, k - 1);
        assert(row[k - 1] >= 0);
        if j == k - 1 {
            assert(sum_to(row, k) == sum_to(row, j) + row[j]);
        }
    } else if j > 0 {
        lemma_sum_nonnegative(row, j - 1, j - 1);
        assert(row[j - 1] >= 0);
    }
}

/// An entry that is positive makes the sum of a row without negative
/// entries positive.
pub proof fn lemma_sum_positive(row: Seq<i64>, j: int)
    requires
        row_nonnegative(row),
        0 <= j < row.len(),
        row[j] > 0,
    ensures
        row_total(row) > 0,
{
    lemma_sum_nonnegative(row, j, row.len() as int);
}

/// A row without negative entries whose first `k` entries add up to more
/// than zero holds a positive entry among them.
pub proof fn lemma_positive_entry(row: Seq<i64>, k: int) -> (j: int)
    requires
        row_nonnegative(row),
        0 <= k <= row.len(),
        sum_to(row, k) > 0,
    ensures
        0 <= j < k,
        row[j] > 0,
    decreases k,
{
    if row[k - 1] > 0 {
        k - 1
    } else {
        assert(row[k - 1] >= 0);
        lemma_positive_entry(row, k - 1)
    }
}

/// The shares of the first `k` and of the first `k + 1` entries of a row
/// without negative entries: neither is negative or more than 1.0, the second
/// is no less than the first, and what lies between them is the quotient of
/// the entry by the sum of the row, rounded down or up.
proof fn lemma_share_step(row: Seq<i64>, k: int)
    requires
        row_nonnegative(row),
        row_total(row) > 0,
        0 <= k < row.len(),
    ensures
        share_to(row, k) == (SCALE * sum_to(row, k)) / row_total(row),
        share_to(row, k + 1) == (SCALE * sum_to(row, k + 1)) / row_total(row),
        0 <= share_to(row, k) <= share_to(row, k + 1) <= SCALE,
        (row[k] * SCALE) / row_total(row) <= share_to(row, k + 1) - share_to(row, k) <= (row[k]
            * SCALE) / row_total(row) + 1,
        row[k] == 0 ==> share_to(row, k + 1) == share_to(row, k),
{
    let total = row_total(row);
    let s = SCALE as int;
    let w = row[k] as int;
    let before = sum_to(row, k);
    let after = sum_to(row, k + 1);
    lemma_sum_nonnegative(row, k, row.len() as int);
    lemma_sum_nonnegative(row, k + 1, row.len() as int);
    assert(after == before + w);
    assert(0 <= w);
    let a = s * before;
    let b = w * s;
    let c = s * after;
    assert(a >= 0 && b >= 0 && c == a + b && c <= s * total) by (nonlinear_arith)
        requires
            a == s * before,
            b == w * s,
            c == s * after,
            after == before + w,
            0 <= before,
            0 <= w,
            after <= total,
            s > 0,
    ;
    let qa = a / total;
    let qb = b / total;
    let qc = c / total;
    assert(0 <= qa <= qc <= s && qb <= qc - qa <= qb + 1) by (nonlinear_arith)
        requires
            qa == a / total,
            qb == b / total,
            qc == c / total,
            c == a + b,
            a >= 0,
            b >= 0,
            c <= s * total,
            total > 0,
    ;
}

/// The first `k` entries of a normalized row add up to the share of the
/// first `k` entries of the row it was made from.
proof fn lemma_normalized_prefix(row: Seq<i64>, k: int)
    requires
        row_nonnegative(row),
        row_total(row) > 0,
        0 <= k <= row.len(),
    ensures
        sum_to(normalized_row(row), k) == share_to(row, k),
        forall|j: int|
            0 <= j < k ==> (#[trigger] normalized_row(row)[j]) == share_to(row, j + 1) - share_to(
                row,
                j,
            ),
    decreases k,
{
    if k > 0 {
        lemma_normalized_prefix(row, k - 1);
        lemma_share_step(row, k - 1);
    } else {
        assert(SCALE * 0 == 0);
        assert(0int / row_total(row) == 0) by (nonlinear_arith)
            requires
                row_total(row) > 0,
        ;
    }
}

/// A row without negative entries and with a positive sum adds up, once
/// normalized, to exactly 1.0. No entry of it is negative, each is the
/// quotient of the entry it came from by the sum of the row, rounded down or
/// up, and an entry that was zero is zero.
pub proof fn lemma_normalized_row_sum(row: Seq<i64>)
    requires
        row_nonnegative(row),
        row_total(row) > 0,
    ensures
        row_total(normalized_row(row)) == SCALE,
        row_nonnegative(normalized_row(row)),
        forall|j: int|
            0 <= j < row.len() ==> (row[j] * SCALE) / row_total(row) <= (
            #[trigger] normalized_row(row)[j]) <= (row[j] * SCALE) / row_total(row) + 1,
        forall|j: int| 0 <= j < row.len() && row[j] == 0 ==> (#[trigger] normalized_row(row)[j]) == 0,
{
    let total = row_total(row);
    let s = SCALE as int;
    let n = row.len() as int;
    let norm = normalized_row(row);
    lemma_normalized_prefix(row, n);
    assert(norm.len() == n);
    assert(n > 0);
    lemma_share_step(row, n - 1);
    assert((s * total) / total == s) by (nonlinear_arith)
        requires
            total > 0,
    ;
    assert forall|j: int| 0 <= j < n implies (#[trigger] norm[j]) >= 0 && (row[j] * SCALE) / total
        <= norm[j] <= (row[j] * SCALE) / total + 1 && (row[j] == 0 ==> norm[j] == 0) by {
        lemma_share_step(row, j);
    }
}

/// A row that adds up to exactly 1.0 is left as it is by normalization.
pub proof fn lemma_normalized_again(row: Seq<i64>)
    requires
        row_total(row) == SCALE,
    ensures
        normalized_row(row) == row,
{
    let s = SCALE as int;
    let norm = normalized_row(row);
    assert forall|j: int| 0 <= j < row.len() implies (#[trigger] norm[j]) == row[j] by {
        let before = sum_to(row, j);
        let after = sum_to(row, j + 1);
        assert(after == before + row[j]);
        lemma_scaled_back(before);
        lemma_scaled_back(after);
    }
    assert(norm =~= row);
}

/// A quotient is no larger in magnitude than what was divided.
proof fn lemma_quotient_bound(n: int, d: int)
    requires
        d != 0,
    ensures
        n >= 0 ==> -n <= trunc_div(n, d) <= n,
        n <= 0 ==> n <= trunc_div(n, d) <= -n,
{
    let m = if d > 0 { d } else { -d };
    let k = if n >= 0 { n } else { -n };
    assert(0 <= k / m <= k) by (nonlinear_arith)
        requires
            0 <= k,
            m >= 1,
    ;
}

/// Dividing `SCALE * x` by [`SCALE`] gives `x` back.
proof fn lemma_scaled_back(x: int)
    ensures
        trunc_div(SCALE * x, SCALE as int) == x,
{
    let s = SCALE as int;
    if x >= 0 {
        assert(s * x >= 0 && (s * x) / s == x) by (nonlinear_arith)
            requires
                x >= 0,
                s > 0,
        ;
    } else {
        assert(s * x < 0 && (-(s * x)) / s == -x) by (nonlinear_arith)
            requires
                x < 0,
                s > 0,
        ;
    }
}

/// The first `k` entries of the row of ones around a zero at `i` add up to
/// their number, less the zero.
pub proof fn lemma_alike_sum(pop: int, i: int, k: int)
    requires
        0 <= i < pop,
        0 <= k <= pop,
    ensures
        sum_to(alike_row(pop, i), k) == (if k <= i {
            k
        } else {
            k - 1
        }),
    decreases k,
{
    if k > 0 {
        lemma_alike_sum(pop, i, k - 1);
    }
}

/// The weights of the network, one row per agent. The weight of an agent
/// toward itself is never read.
pub struct Network(pub Vec<Vec<i64>>);

impl Network {
    /// The number of agents.
    pub open spec fn size(&self) -> int {
        self.0@.len() as int
    }

    /// The row of agent `i`.
    pub open spec fn row(&self, i: int) -> Seq<i64> {
        self.0@[i]@
    }

    /// The network is square and no larger than [`MAX_POPULATION`].
    pub open spec fn wf(&self) -> bool {
        &&& self.size() <= MAX_POPULATION
        &&& forall|i: int| 0 <= i < self.size() ==> (#[trigger] self.row(i)).len() == self.size()
    }

    /// No weight of the network is negative.
    pub open spec fn nonnegative(&self) -> bool {
        forall|i: int| 0 <= i < self.size() ==> row_nonnegative(#[trigger] self.row(i))
    }

    /// `other` has this network's rows, but for the row of `agent`.
    pub open spec fn same_but_row(&self, other: Network, agent: int) -> bool {
        &&& other.size() == self.size()
        &&& forall|i: int| 0 <= i < self.size() && i != agent ==> other.row(i) == self.row(i)
    }

    /// A network in which every agent prefers all others alike: each row
    /// is the normalized row of ones around a zero for the agent itself. So
    /// every weight is `1.0 / (pop - 1)`, rounded down or up, the weight of
    /// an agent toward itself is zero, and every row adds up to 1.0.
    pub fn new(pop: usize) -> (network: Network)
        requires
            2 <= pop <= MAX_POPULATION,
        ensures
            network.wf(),
            network.size() == pop,
            forall|i: int|
                0 <= i < pop ==> (#[trigger] network.row(i)) == normalized_row(
                    alike_row(pop as int, i),
                ),
            forall|i: int, j: int|
                0 <= i < pop && 0 <= j < pop ==> (if i == j {
                    (#[trigger] network.row(i)[j]) == 0
                } else {
                    SCALE as int / (pop - 1) <= network.row(i)[j] <= SCALE as int / (pop - 1) + 1
                }),
            forall|i: int| 0 <= i < pop ==> row_total(#[trigger] network.row(i)) == SCALE,
            network.nonnegative(),
    {
        let mut rows: Vec<Vec<i64>> = Vec::new();
        let mut i: usize = 0;
        while i < pop
            invariant
                i <= pop,
                rows@.len() == i,
                forall|a: int| 0 <= a < i ==> (#[trigger] rows@[a])@ == alike_row(pop as int, a),
            decreases pop - i,
        {
            let mut row: Vec<i64> = Vec::new();
            let mut j: usize = 0;
            while j < pop
                invariant
                    j <= pop,
                    i < pop,
                    row@.len() == j,
                    forall|b: int|
                        0 <= b < j ==> (#[trigger] row@[b]) == (if i == b {
                            0i64
                        } else {
                            1i64
                        }),
                decreases pop - j,
            {
                if i == j {
                    row.push(0);
                } else {
                    row.push(1);
                }
                j = j + 1;
            }
            assert(row@ =~= alike_row(pop as int, i as int));
            rows.push(row);
            i = i + 1;
        }
        let mut network = Network(rows);
        let mut i: usize = 0;
        while i < pop
            invariant
                2 <= pop <= MAX_POPULATION,
                i <= pop,
                network.wf(),
                network.size() == pop,
                forall|a: int|
                    0 <= a < i ==> (#[trigger] network.row(a)) == normalized_row(
                        alike_row(pop as int, a),
                    ),
                forall|a: int| i <= a < pop ==> (#[trigger] network.row(a)) == alike_row(pop as int, a),
            decreases pop - i,
        {
            proof {
                lemma_alike_sum(pop as int, i as int, pop as int);
            }
            let _ = network.normalize_network_weights(AgentId(i as u32));
            i = i + 1;
        }
        proof {
            assert forall|a: int, b: int| 0 <= a < pop && 0 <= b < pop implies (if a == b {
                (#[trigger] network.row(a)[b]) == 0
            } else {
                SCALE as int / (pop - 1) <= network.row(a)[b] <= SCALE as int / (pop - 1) + 1
            }) by {
                let alike = alike_row(pop as int, a);
                lemma_alike_sum(pop as int, a, pop as int);
                lemma_normalized_row_sum(alike);
                assert(network.row(a)[b] == normalized_row(alike)[b]);
                assert(alike[b] * SCALE == (if a == b {
                    0
                } else {
                    SCALE as int
                }));
            }
            assert forall|a: int| 0 <= a < pop implies row_total(#[trigger] network.row(a))
                == SCALE && row_nonnegative(network.row(a)) by {
                lemma_alike_sum(pop as int, a, pop as int);
                lemma_normalized_row_sum(alike_row(pop as int, a));
            }
        }
        network
    }

    /// The number of agents.
    pub fn population(&self) -> (n: usize)
        ensures
            n == self.size(),
    {
        self.0.len()
    }

    /// Multiplies the weight from `agent_id` to `partner_id` by
    /// `1.0 - net_discount`. The product is rounded away from zero: at a rate
    /// below 1.0 a weight comes closer to zero and does not reach it.
    pub fn discount_weight(&mut self, agent_id: AgentId, partner_id: AgentId, net_discount: i64)
        requires
            old(self).wf(),
            agent_id.0 < old(self).size(),
            partner_id.0 < old(self).size(),
        ensures
            final(self).wf(),
            old(self).same_but_row(*final(self), agent_id.0 as int),
            final(self).row(agent_id.0 as int) == old(self).row(agent_id.0 as int).update(
                partner_id.0 as int,
                discounted(
                    old(self).row(agent_id.0 as int)[partner_id.0 as int] as int,
                    net_discount as int,
                ) as i64,
            ),
            old(self).row(agent_id.0 as int)[partner_id.0 as int] >= 0 && is_rate(net_discount as int)
                ==> 0 <= final(self).row(agent_id.0 as int)[partner_id.0 as int] <= old(self).row(
                agent_id.0 as int,
            )[partner_id.0 as int],
            old(self).row(agent_id.0 as int)[partner_id.0 as int] > 0 && is_partial_rate(
                net_discount as int,
            ) ==> final(self).row(agent_id.0 as int)[partner_id.0 as int] > 0,
            net_discount == 0 ==> final(self).row(agent_id.0 as int) == old(self).row(
                agent_id.0 as int,
            ),
    {
        let a = agent_id.0 as usize;
        let p = partner_id.0 as usize;
        let ghost before = *self;
        assert(before.row(a as int).len() == before.size());
        let w = self.0[a][p];
        self.0[a][p] = fade(w, complement(net_discount));
        proof {
            if w >= 0 && is_rate(net_discount as int) {
                lemma_discounted_nonnegative(w as int, net_discount as int);
            }
            if net_discount == 0 {
                lemma_discounted_at_zero(w as int);
                assert(self.row(a as int) =~= before.row(a as int));
            }
            assert forall|i: int| 0 <= i < self.size() implies (#[trigger] self.row(i)).len()
                == self.size() by {
                assert(before.row(i).len() == before.size());
            }
        }
    }

    /// Discounts the weight from `agent_id` to every candidate, in the
    /// order of the candidates. At a rate below 1.0 a row without negative
    /// weights that adds up to more than zero is still such a row.
    pub fn discount_candidates(&mut self, agent_id: AgentId, candidates: &Vec<usize>, net_discount: i64)
        requires
            old(self).wf(),
            agent_id.0 < old(self).size(),
            forall|k: int| 0 <= k < candidates@.len() ==> (#[trigger] candidates@[k]) < old(self).size(),
        ensures
            final(self).wf(),
            old(self).same_but_row(*final(self), agent_id.0 as int),
            final(self).row(agent_id.0 as int) == discounted_row(
                old(self).row(agent_id.0 as int),
                candidates@,
                net_discount as int,
                candidates@.len() as int,
            ),
            row_nonnegative(old(self).row(agent_id.0 as int)) && is_rate(net_discount as int)
                ==> row_nonnegative(final(self).row(agent_id.0 as int)),
            row_live(old(self).row(agent_id.0 as int)) && is_partial_rate(net_discount as int)
                ==> row_live(final(self).row(agent_id.0 as int)),
            net_discount == 0 ==> final(self).row(agent_id.0 as int) == old(self).row(
                agent_id.0 as int,
            ),
    {
        proof {
            assert(self.row(agent_id.0 as int).len() == self.size());
            if row_nonnegative(self.row(agent_id.0 as int)) && is_rate(net_discount as int) {
                lemma_discounted_row_nonnegative(
                    self.row(agent_id.0 as int),
                    candidates@,
                    net_discount as int,
                    candidates@.len() as int,
                );
            }
            if row_live(self.row(agent_id.0 as int)) && is_partial_rate(net_discount as int) {
                lemma_discounted_row_live(
                    self.row(agent_id.0 as int),
                    candidates@,
                    net_discount as int,
                );
            }
        }
        let ghost before = *self;
        let ghost a = agent_id.0 as int;
        let mut k: usize = 0;
        while k < candidates.len()
            invariant
                k <= candidates@.len(),
                self.wf(),
                a == agent_id.0,
                a < self.size(),
                self.size() == before.size(),
                forall|k: int|
                    0 <= k < candidates@.len() ==> (#[trigger] candidates@[k]) < before.size(),
                before.same_but_row(*self, a),
                self.row(a) == discounted_row(before.row(a), candidates@, net_discount as int, k as int),
                net_discount == 0 ==> self.row(a) == before.row(a),
            decreases candidates@.len() - k,
        {
            let c = candidates[k];
            self.discount_weight(agent_id, AgentId(c as u32), net_discount);
            k = k + 1;
        }
    }

    /// Adds `amount` to the weight from `agent_id` to `partner_id`. The
    /// amount may be negative, and so may the weight become, unless `clamp`
    /// is set: then a weight that would fall below zero is set to zero.
    pub fn reinforce(&mut self, agent_id: AgentId, partner_id: AgentId, amount: i64, clamp: bool)
        requires
            old(self).wf(),
            agent_id.0 < old(self).size(),
            partner_id.0 < old(self).size(),
        ensures
            final(self).wf(),
            old(self).same_but_row(*final(self), agent_id.0 as int),
            final(self).row(agent_id.0 as int) == old(self).row(agent_id.0 as int).update(
                partner_id.0 as int,
                reinforced(
                    old(self).row(agent_id.0 as int)[partner_id.0 as int] as int,
                    amount as int,
                    clamp,
                ) as i64,
            ),
            row_nonnegative(old(self).row(agent_id.0 as int)) && (clamp || amount >= 0)
                ==> row_nonnegative(final(self).row(agent_id.0 as int)),
    {
        let a = agent_id.0 as usize;
        let p = partner_id.0 as usize;
        let ghost before = *self;
        assert(before.row(a as int).len() == before.size());
        let w = self.0[a][p];
        let sum = plus(w, amount);
        self.0[a][p] = if clamp {
            floor_zero(sum)
        } else {
            sum
        };
        proof {
            assert forall|i: int| 0 <= i < self.size() implies (#[trigger] self.row(i)).len()
                == self.size() by {
                assert(before.row(i).len() == before.size());
            }
        }
    }

    /// Adds up the row of `agent_id`.
    pub fn row_sum(&self, agent_id: AgentId) -> (sum: i128)
        requires
            self.wf(),
            agent_id.0 < self.size(),
        ensures
            sum == row_total(self.row(agent_id.0 as int)),
    {
        let a = agent_id.0 as usize;
        assert(self.row(a as int).len() == self.size());
        let n = self.0[a].len();
        let mut sum: i128 = 0;
        let mut j: usize = 0;
        while j < n
            invariant
                j <= n,
                a < self.size(),
                n == self.row(a as int).len(),
                n <= MAX_POPULATION,
                sum == sum_to(self.row(a as int), j as int),
            decreases n - j,
        {
            proof {
                lemma_sum_bound(self.row(a as int), j as int);
                lemma_sum_bound(self.row(a as int), j as int + 1);
            }
            sum = sum + self.0[a][j] as i128;
            j = j + 1;
        }
        sum
    }

    /// Divides every weight in the row of `agent_id` by the sum of the row,
    /// unless that sum is zero: then the row is left as it is and the error
    /// says so. What rounding takes from one weight it gives to the next, so
    /// that a row without negative weights and with a positive sum then adds
    /// up to exactly 1.0, and a row that already does is left unchanged.
    pub fn normalize_network_weights(&mut self, agent_id: AgentId) -> (done: Result<(), NetworkError>)
        requires
            old(self).wf(),
            agent_id.0 < old(self).size(),
        ensures
            final(self).wf(),
            old(self).same_but_row(*final(self), agent_id.0 as int),
            done is Ok <==> row_total(old(self).row(agent_id.0 as int)) != 0,
            done is Ok ==> final(self).row(agent_id.0 as int) == normalized_row(
                old(self).row(agent_id.0 as int),
            ),
            done is Err ==> done == Err::<(), NetworkError>(NetworkError::ZeroRowSum) && final(self).row(
                agent_id.0 as int,
            ) == old(self).row(agent_id.0 as int),
            row_nonnegative(old(self).row(agent_id.0 as int)) ==> {
                &&& row_nonnegative(final(self).row(agent_id.0 as int))
                &&& row_settled(final(self).row(agent_id.0 as int))
                &&& done is Ok ==> row_total(final(self).row(agent_id.0 as int)) == SCALE
            },
            row_total(old(self).row(agent_id.0 as int)) == SCALE ==> final(self).row(
                agent_id.0 as int,
            ) == old(self).row(agent_id.0 as int),
    {
        let a = agent_id.0 as usize;
        let ghost before = *self;
        let ghost old_row = self.row(a as int);
        assert(old_row.len() == self.size());
        let sum = self.row_sum(agent_id);
        if sum == 0 {
            return Err(NetworkError::ZeroRowSum);
        }
        let n = self.0[a].len();
        let mut part: i128 = 0;
        let mut share: i128 = 0;
        let mut j: usize = 0;
        proof {
            lemma_sum_bound(old_row, n as int);
            assert(SCALE * 0 == 0);
            crate::fixed::lemma_small_over_large(0, sum as int);
        }
        while j < n
            invariant
                j <= n,
                a == agent_id.0,
                a < self.size(),
                n == old_row.len(),
                n <= MAX_POPULATION,
                before.wf(),
                before.row(a as int) == old_row,
                before.same_but_row(*self, a as int),
                self.row(a as int).len() == n,
                sum == row_total(old_row),
                sum != 0,
                -0x8000_0000_0000_0000_0000_0000 <= sum <= 0x8000_0000_0000_0000_0000_0000,
                part == sum_to(old_row, j as int),
                share == share_to(old_row, j as int),
                -0x2000_0000_0000_0000_0000_0000_0000_0000 <= share
                    <= 0x2000_0000_0000_0000_0000_0000_0000_0000,
                forall|b: int|
                    0 <= b < j ==> (#[trigger] self.row(a as int)[b]) == saturate(
                        share_to(old_row, b + 1) - share_to(old_row, b),
                    ),
                forall|b: int| j <= b < n ==> (#[trigger] self.row(a as int)[b]) == old_row[b],
            decreases n - j,
        {
            proof {
                lemma_sum_bound(old_row, j as int);
                lemma_sum_bound(old_row, j as int + 1);
            }
            let w = self.0[a][j];
            part = part + w as i128;
            assert(-0x8000_0000_0000_0000_0000_0000 <= part <= 0x8000_0000_0000_0000_0000_0000)
                by (nonlinear_arith)
                requires
                    (j + 1) * (i64::MIN as int) <= part <= (j + 1) * (i64::MAX as int),
                    j + 1 <= 0xffff_ffff,
            ;
            let ghost wide = SCALE * part;
            assert(-0x2000_0000_0000_0000_0000_0000_0000_0000 <= wide
                <= 0x2000_0000_0000_0000_0000_0000_0000_0000) by (nonlinear_arith)
                requires
                    wide == SCALE * part,
                    -0x8000_0000_0000_0000_0000_0000 <= part <= 0x8000_0000_0000_0000_0000_0000,
            ;
            let next = quotient(SCALE as i128 * part, sum);
            proof {
                lemma_quotient_bound(wide, sum as int);
            }
            self.0[a][j] = saturating(next - share);
            share = next;
            j = j + 1;
        }
        proof {
            assert(self.row(a as int) =~= normalized_row(old_row));
            assert forall|i: int| 0 <= i < self.size() implies (#[trigger] self.row(i)).len()
                == self.size() by {
                assert(before.row(i).len() == before.size());
            }
            if row_nonnegative(old_row) {
                lemma_sum_nonnegative(old_row, 0, old_row.len() as int);
                lemma_normalized_row_sum(old_row);
            }
            if row_total(old_row) == SCALE {
                lemma_normalized_again(old_row);
            }
        }
        Ok(())
    }
}

} // verus!
