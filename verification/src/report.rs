//! What a replicate reports of its state, as rows of plain numbers, and the
//! rounds at which it does so. Writing the rows down is left to the caller.

use vstd::prelude::*;

use crate::agent::Agent;
use crate::config::CSVFiles;
use crate::fixed::{ratio, saturate, saturating, spec_ratio, SCALE};
use crate::network::{row_total, sum_to, Network};
use crate::tracker::{AgentInteractionTracker, InteractionTracker};
use crate::wheel::MAX_PLACES;

verus! {

/// The rounds at which the full state is reported: rounds 1 to 10, every
/// 10th up to 100, every 100th up to 1000, every 1000th up to 10000 and every
/// 10000th up to 100000.
pub open spec fn snapshot_round(i: u64) -> bool {
    ||| 1 <= i <= 10
    ||| (10 < i <= 100 && i % 10 == 0)
    ||| (100 < i <= 1000 && i % 100 == 0)
    ||| (1000 < i <= 10000 && i % 1000 == 0)
    ||| (10000 < i <= 100000 && i % 10000 == 0)
}

/// Says whether the full state is reported at round `i`.
pub fn is_snapshot_round(i: u64) -> (yes: bool)
    ensures
        yes == snapshot_round(i),
{
    if i == 0 {
        false
    } else if i <= 10 {
        true
    } else if i <= 100 {
        i % 10 == 0
    } else if i <= 1000 {
        i % 100 == 0
    } else if i <= 10000 {
        i % 1000 == 0
    } else if i <= 100000 {
        i % 10000 == 0
    } else {
        false
    }
}

/// The reports that are due at round `i`, among those asked for: weights,
/// scores and total interactions at the snapshot rounds only, all others at
/// every round.
pub open spec fn reports_due(i: u64, asked: CSVFiles) -> CSVFiles {
    CSVFiles {
        weights: asked.weights && snapshot_round(i),
        scores: asked.scores && snapshot_round(i),
        totalinteractions: asked.totalinteractions && snapshot_round(i),
        ..asked
    }
}

/// Selects the reports that are due at round `i`.
pub fn outputs_due(i: u64, asked: &CSVFiles) -> (due: CSVFiles)
    ensures
        due == reports_due(i, *asked),
{
    let snapshot = is_snapshot_round(i);
    CSVFiles {
        weights: asked.weights && snapshot,
        scores: asked.scores && snapshot,
        totalinteractions: asked.totalinteractions && snapshot,
        evostats: asked.evostats,
        strategyvisit: asked.strategyvisit,
        strategyhost: asked.strategyhost,
        netstd: asked.netstd,
        outscore: asked.outscore,
        totalpayoff: asked.totalpayoff,
    }
}

/// The first `k` rows of a network, one after the other.
pub open spec fn rows_joined(network: Network, k: int) -> Seq<i64>
    decreases k,
{
    if k <= 0 {
        Seq::empty()
    } else {
        rows_joined(network, k - 1) + network.row(k - 1)
    }
}

/// All weights of the network, row by row.
pub fn weights_record(network: &Network) -> (record: Vec<i64>)
    ensures
        record@ == rows_joined(*network, network.size()),
{
    let mut record: Vec<i64> = Vec::new();
    let n = network.0.len();
    let mut i: usize = 0;
    while i < n
        invariant
            i <= n,
            n == network.size(),
            record@ == rows_joined(*network, i as int),
        decreases n - i,
    {
        let ghost before = record@;
        let m = network.0[i].len();
        let mut j: usize = 0;
        while j < m
            invariant
                j <= m,
                i < n,
                n == network.size(),
                m == network.row(i as int).len(),
                record@ == before + network.row(i as int).take(j as int),
            decreases m - j,
        {
            record.push(network.0[i][j]);
            assert(network.row(i as int).take(j as int + 1) =~= network.row(i as int).take(
                j as int,
            ).push(network.row(i as int)[j as int]));
            assert(record@ =~= before + network.row(i as int).take(j as int + 1));
            j = j + 1;
        }
        assert(network.row(i as int).take(m as int) =~= network.row(i as int));
        i = i + 1;
    }
    record
}

/// The sum of column `col` over the first `k` rows.
pub open spec fn column_sum_to(network: Network, col: int, k: int) -> int
    decreases k,
{
    if k <= 0 {
        0
    } else {
        column_sum_to(network, col, k - 1) + network.row(k - 1)[col]
    }
}

/// A column sum of `k` weights lies within `k` times the range of one.
pub proof fn lemma_column_bound(network: Network, col: int, k: int)
    requires
        0 <= k,
    ensures
        k * (i64::MIN as int) <= column_sum_to(network, col, k) <= k * (i64::MAX as int),
    decreases k,
{
    if k > 0 {
        lemma_column_bound(network, col, k - 1);
        let w = network.row(k - 1)[col];
        assert(i64::MIN <= w <= i64::MAX);
    }
}

/// For each of the first `pop` agents, the sum of the weights that the first
/// `pop` agents give it: how much it is preferred as a partner.
pub fn column_sums(pop: usize, network: &Network) -> (sums: Vec<i128>)
    requires
        network.wf(),
        pop <= network.size(),
    ensures
        sums@.len() == pop,
        forall|c: int| 0 <= c < pop ==> (#[trigger] sums@[c]) == column_sum_to(*network, c, pop as int),
{
    let mut sums: Vec<i128> = Vec::new();
    let mut c: usize = 0;
    while c < pop
        invariant
            c <= pop,
            network.wf(),
            pop <= network.size(),
            sums@.len() == c,
            forall|d: int|
                0 <= d < c ==> (#[trigger] sums@[d]) == column_sum_to(*network, d, pop as int),
        decreases pop - c,
    {
        let mut sum: i128 = 0;
        let mut r: usize = 0;
        while r < pop
            invariant
                r <= pop,
                c < pop,
                network.wf(),
                pop <= network.size(),
                sum == column_sum_to(*network, c as int, r as int),
            decreases pop - r,
        {
            proof {
                lemma_column_bound(*network, c as int, r as int);
                lemma_column_bound(*network, c as int, r as int + 1);
                assert(network.row(r as int).len() == network.size());
            }
            sum = sum + network.0[r][c] as i128;
            r = r + 1;
        }
        sums.push(sum);
        c = c + 1;
    }
    sums
}

/// The scores of the agents, in their order.
pub fn scores_record(agents: &Vec<Agent>) -> (record: Vec<i64>)
    ensures
        record@.len() == agents@.len(),
        forall|a: int| 0 <= a < agents@.len() ==> (#[trigger] record@[a]) == agents@[a].score,
{
    let mut record: Vec<i64> = Vec::new();
    let mut a: usize = 0;
    while a < agents.len()
        invariant
            a <= agents@.len(),
            record@.len() == a,
            forall|b: int| 0 <= b < a ==> (#[trigger] record@[b]) == agents@[b].score,
        decreases agents@.len() - a,
    {
        record.push(agents[a].score);
        a = a + 1;
    }
    record
}

/// The total payoffs of the first `pop` agents, in their order.
pub fn total_payoff_record(pop: usize, agents: &Vec<Agent>) -> (record: Vec<i64>)
    requires
        pop <= agents@.len(),
    ensures
        record@.len() == pop,
        forall|a: int| 0 <= a < pop ==> (#[trigger] record@[a]) == agents@[a].total_payoff,
{
    let mut record: Vec<i64> = Vec::new();
    let mut a: usize = 0;
    while a < pop
        invariant
            a <= pop <= agents@.len(),
            record@.len() == a,
            forall|b: int| 0 <= b < a ==> (#[trigger] record@[b]) == agents@[b].total_payoff,
        decreases pop - a,
    {
        record.push(agents[a].total_payoff);
        a = a + 1;
    }
    record
}

/// The share of `weight` in the sum of `weight` and `other`, or nothing
/// where the two add up to zero.
pub open spec fn share_of(weight: i64, other: i64) -> Option<i64> {
    if weight + other == 0 {
        None
    } else {
        Some(spec_ratio(weight as int, weight + other) as i64)
    }
}

/// Computes the share of `weight` in the sum of `weight` and `other`.
pub fn share(weight: i64, other: i64) -> (s: Option<i64>)
    ensures
        s == share_of(weight, other),
{
    let sum: i128 = weight as i128 + other as i128;
    if sum == 0 {
        None
    } else {
        Some(ratio(weight, sum))
    }
}

/// For each agent, the shares of Hawk and of Dove among its visiting weights
/// for the two: two entries per agent, Hawk first.
pub fn strategy_visit_record(agents: &Vec<Agent>) -> (record: Vec<Option<i64>>)
    requires
        forall|a: int| 0 <= a < agents@.len() ==> (#[trigger] agents@[a]).wf(),
    ensures
        record@.len() == 2 * agents@.len(),
        forall|a: int|
            0 <= a < agents@.len() ==> {
                &&& (#[trigger] record@[2 * a]) == share_of(
                    agents@[a].strategy.visit@[0],
                    agents@[a].strategy.visit@[1],
                )
                &&& record@[2 * a + 1] == share_of(
                    agents@[a].strategy.visit@[1],
                    agents@[a].strategy.visit@[0],
                )
            },
{
    let mut record: Vec<Option<i64>> = Vec::new();
    let mut a: usize = 0;
    while a < agents.len()
        invariant
            a <= agents@.len(),
            forall|b: int| 0 <= b < agents@.len() ==> (#[trigger] agents@[b]).wf(),
            record@.len() == 2 * a,
            forall|b: int|
                0 <= b < a ==> {
                    &&& (#[trigger] record@[2 * b]) == share_of(
                        agents@[b].strategy.visit@[0],
                        agents@[b].strategy.visit@[1],
                    )
                    &&& record@[2 * b + 1] == share_of(
                        agents@[b].strategy.visit@[1],
                        agents@[b].strategy.visit@[0],
                    )
                },
        decreases agents@.len() - a,
    {
        assert(agents@[a as int].wf());
        let hawk = agents[a].strategy.visit[0];
        let dove = agents[a].strategy.visit[1];
        record.push(share(hawk, dove));
        record.push(share(dove, hawk));
        a = a + 1;
    }
    record
}

/// For each agent, the shares of Hawk and of Dove among its hosting weights:
/// two entries per agent, Hawk first.
pub fn strategy_host_record(agents: &Vec<Agent>) -> (record: Vec<Option<i64>>)
    requires
        forall|a: int| 0 <= a < agents@.len() ==> (#[trigger] agents@[a]).wf(),
    ensures
        record@.len() == 2 * agents@.len(),
        forall|a: int|
            0 <= a < agents@.len() ==> {
                &&& (#[trigger] record@[2 * a]) == share_of(
                    agents@[a].strategy.host@[0],
                    agents@[a].strategy.host@[1],
                )
                &&& record@[2 * a + 1] == share_of(
                    agents@[a].strategy.host@[1],
                    agents@[a].strategy.host@[0],
                )
            },
{
    let mut record: Vec<Option<i64>> = Vec::new();
    let mut a: usize = 0;
    while a < agents.len()
        invariant
            a <= agents@.len(),
            forall|b: int| 0 <= b < agents@.len() ==> (#[trigger] agents@[b]).wf(),
            record@.len() == 2 * a,
            forall|b: int|
                0 <= b < a ==> {
                    &&& (#[trigger] record@[2 * b]) == share_of(
                        agents@[b].strategy.host@[0],
                        agents@[b].strategy.host@[1],
                    )
                    &&& record@[2 * b + 1] == share_of(
                        agents@[b].strategy.host@[1],
                        agents@[b].strategy.host@[0],
                    )
                },
        decreases agents@.len() - a,
    {
        assert(agents@[a as int].wf());
        let hawk = agents[a].strategy.host[0];
        let dove = agents[a].strategy.host[1];
        record.push(share(hawk, dove));
        record.push(share(dove, hawk));
        a = a + 1;
    }
    record
}

/// How many of the first `k` scores are strictly above `score`.
pub open spec fn count_above(scores: Seq<i64>, score: i64, k: int) -> int
    decreases k,
{
    if k <= 0 {
        0
    } else {
        count_above(scores, score, k - 1) + if scores[k - 1] > score {
            1int
        } else {
            0int
        }
    }
}

/// The rank of a score among `scores`: one more than the number of scores
/// strictly above it. The best score has rank 1, and equal scores share the
/// rank of the first of them.
pub open spec fn rank_of(scores: Seq<i64>, score: i64) -> int {
    1 + count_above(scores, score, scores.len() as int)
}

/// The ranks of the given scores, each in the place of its score.
pub fn ranks(scores: &Vec<i64>) -> (result: Vec<usize>)
    ensures
        result@.len() == scores@.len(),
        forall|a: int| 0 <= a < scores@.len() ==> (#[trigger] result@[a]) == rank_of(scores@, scores@[a]),
        forall|a: int| 0 <= a < scores@.len() ==> 1 <= (#[trigger] result@[a]) <= scores@.len(),
{
    let n = scores.len();
    let mut result: Vec<usize> = Vec::new();
    let mut a: usize = 0;
    while a < n
        invariant
            a <= n,
            n == scores@.len(),
            result@.len() == a,
            forall|b: int| 0 <= b < a ==> (#[trigger] result@[b]) == rank_of(scores@, scores@[b]),
            forall|b: int| 0 <= b < a ==> 1 <= (#[trigger] result@[b]) <= n,
        decreases n - a,
    {
        let mine = scores[a];
        let mut above: usize = 0;
        let mut k: usize = 0;
        while k < n
            invariant
                k <= n,
                a < n,
                n == scores@.len(),
                mine == scores@[a as int],
                above == count_above(scores@, mine, k as int),
                above <= k,
                k > a ==> above < k,
            decreases n - k,
        {
            if scores[k] > mine {
                above = above + 1;
            }
            k = k + 1;
        }
        result.push(above + 1);
        a = a + 1;
    }
    result
}

/// The ranks of the first `pop` agents by score.
pub fn rank_record(pop: usize, agents: &Vec<Agent>) -> (result: Vec<usize>)
    requires
        pop <= agents@.len(),
    ensures
        result@.len() == pop,
        forall|a: int|
            0 <= a < pop ==> (#[trigger] result@[a]) == rank_of(
                Seq::new(pop as nat, |b: int| agents@[b].score),
                agents@[a].score,
            ),
{
    let scores = first_scores(pop, agents);
    assert(scores@ =~= Seq::new(pop as nat, |b: int| agents@[b].score));
    ranks(&scores)
}

/// The scores of the first `pop` agents.
fn first_scores(pop: usize, agents: &Vec<Agent>) -> (record: Vec<i64>)
    requires
        pop <= agents@.len(),
    ensures
        record@.len() == pop,
        forall|a: int| 0 <= a < pop ==> (#[trigger] record@[a]) == agents@[a].score,
{
    let mut record: Vec<i64> = Vec::new();
    let mut a: usize = 0;
    while a < pop
        invariant
            a <= pop <= agents@.len(),
            record@.len() == a,
            forall|b: int| 0 <= b < a ==> (#[trigger] record@[b]) == agents@[b].score,
        decreases pop - a,
    {
        record.push(agents[a].score);
        a = a + 1;
    }
    record
}

/// The six counters of one agent that a round can raise, in the order
/// Hawk-Hawk, Hawk-Dove, Dove-Hawk, Dove-Dove, Fox-Hawk, Fox-Dove. The
/// meetings with a host that plays Fox are left out: no host of a round does.
pub open spec fn counters_of(t: AgentInteractionTracker) -> Seq<u64> {
    seq![t.hawk_hawk, t.hawk_dove, t.dove_hawk, t.dove_dove, t.fox_hawk, t.fox_dove]
}

/// The counters of the first `pop` agents, six per agent.
pub fn interaction_record(pop: usize, trackers: &Vec<AgentInteractionTracker>) -> (record: Vec<u64>)
    requires
        pop <= trackers@.len(),
    ensures
        record@.len() == 6 * pop,
        forall|a: int, c: int|
            0 <= a < pop && 0 <= c < 6 ==> (#[trigger] record@[6 * a + c]) == counters_of(
                trackers@[a],
            )[c],
{
    let mut record: Vec<u64> = Vec::new();
    let mut a: usize = 0;
    while a < pop
        invariant
            a <= pop <= trackers@.len(),
            record@.len() == 6 * a,
            forall|b: int, c: int|
                0 <= b < a && 0 <= c < 6 ==> (#[trigger] record@[6 * b + c]) == counters_of(
                    trackers@[b],
                )[c],
        decreases pop - a,
    {
        let ghost before = record@;
        let t = trackers[a];
        record.push(t.hawk_hawk);
        record.push(t.hawk_dove);
        record.push(t.dove_hawk);
        record.push(t.dove_dove);
        record.push(t.fox_hawk);
        record.push(t.fox_dove);
        proof {
            assert forall|b: int, c: int| 0 <= b < a + 1 && 0 <= c < 6 implies (
            #[trigger] record@[6 * b + c]) == counters_of(trackers@[b])[c] by {
                if b < a {
                    assert(record@[6 * b + c] == before[6 * b + c]);
                }
            }
        }
        a = a + 1;
    }
    record
}

/// The counters of a round, in the order Hawk-Hawk, Hawk-Dove, Dove-Hawk,
/// Dove-Dove, Fox-Hawk, Fox-Dove, Hawk-Fox, Dove-Fox.
pub open spec fn round_counters(t: InteractionTracker) -> Seq<u64> {
    seq![
        t.hawk_hawk,
        t.hawk_dove,
        t.dove_hawk,
        t.dove_dove,
        t.fox_hawk,
        t.fox_dove,
        t.hawk_fox,
        t.dove_fox,
    ]
}

/// The sum of the first `k` counts.
pub open spec fn counted_to(counts: Seq<u64>, k: int) -> int
    decreases k,
{
    if k <= 0 {
        0
    } else {
        counted_to(counts, k - 1) + counts[k - 1]
    }
}

/// The part of a population of `pop` that the first `k` counts stand for,
/// as a fraction of 1.0, rounded down.
pub open spec fn part_to(counts: Seq<u64>, pop: int, k: int) -> int
    recommends
        pop > 0,
{
    (SCALE * counted_to(counts, k)) / pop
}

/// The part of a population that each count stands for: `count / pop` as a
/// fraction of 1.0. A share is what the part of the counts up to and
/// including it exceeds the part of those before it by, so that what
/// rounding takes from one share it gives to the next.
pub open spec fn shares_of(counts: Seq<u64>, pop: int) -> Seq<i64>
    recommends
        pop > 0,
{
    Seq::new(
        counts.len(),
        |j: int| saturate(part_to(counts, pop, j + 1) - part_to(counts, pop, j)) as i64,
    )
}

/// The parts of the first `k` and of the first `k + 1` counts: the second is
/// no less than the first, and what lies between them is the quotient of the
/// count by the population, rounded down or up.
proof fn lemma_part_step(counts: Seq<u64>, pop: int, k: int)
    requires
        pop > 0,
        0 <= k < counts.len(),
    ensures
        0 <= counted_to(counts, k) <= counted_to(counts, k + 1),
        0 <= part_to(counts, pop, k) <= part_to(counts, pop, k + 1),
        (counts[k] * SCALE) / pop <= part_to(counts, pop, k + 1) - part_to(counts, pop, k) <= (
        counts[k] * SCALE) / pop + 1,
    decreases k,
{
    if k > 0 {
        lemma_part_step(counts, pop, k - 1);
    }
    let s = SCALE as int;
    let w = counts[k] as int;
    let before = counted_to(counts, k);
    let after = counted_to(counts, k + 1);
    assert(after == before + w);
    let a = s * before;
    let b = w * s;
    let c = s * after;
    assert(a >= 0 && b >= 0 && c == a + b) by (nonlinear_arith)
        requires
            a == s * before,
            b == w * s,
            c == s * after,
            after == before + w,
            0 <= before,
            0 <= w,
            s > 0,
    ;
    let qa = a / pop;
    let qb = b / pop;
    let qc = c / pop;
    assert(0 <= qa <= qc && qb <= qc - qa <= qb + 1) by (nonlinear_arith)
        requires
            qa == a / pop,
            qb == b / pop,
            qc == c / pop,
            c == a + b,
            a >= 0,
            b >= 0,
            pop > 0,
    ;
}

/// The counts up to `k` are no more than the counts up to `n`.
proof fn lemma_counted_rises(counts: Seq<u64>, k: int, n: int)
    requires
        0 <= k <= n <= counts.len(),
    ensures
        0 <= counted_to(counts, k) <= counted_to(counts, n),
    decreases n,
{
    if k < n {
        lemma_counted_rises(counts, k, n - 1);
    } else if k > 0 {
        lemma_counted_rises(counts, k - 1, k - 1);
    }
}

/// The first `k` shares add up to the part of the first `k` counts, where
/// the counts add up to the population.
proof fn lemma_shares_prefix(counts: Seq<u64>, pop: int, k: int)
    requires
        pop > 0,
        counted_to(counts, counts.len() as int) == pop,
        0 <= k <= counts.len(),
    ensures
        sum_to(shares_of(counts, pop), k) == part_to(counts, pop, k),
        0 <= part_to(counts, pop, k) <= SCALE,
        forall|j: int|
            0 <= j < k ==> (#[trigger] shares_of(counts, pop)[j]) == part_to(counts, pop, j + 1)
                - part_to(counts, pop, j),
    decreases k,
{
    let s = SCALE as int;
    lemma_counted_rises(counts, k, counts.len() as int);
    let upto = counted_to(counts, k);
    let wide = s * upto;
    assert(0 <= wide / pop <= s) by (nonlinear_arith)
        requires
            wide == s * upto,
            0 <= upto <= pop,
            pop > 0,
            s > 0,
    ;
    if k > 0 {
        lemma_shares_prefix(counts, pop, k - 1);
        lemma_part_step(counts, pop, k - 1);
    } else {
        assert(s * 0 == 0);
    }
}

/// Where the counts add up to the population, the shares add up to exactly
/// 1.0, and each share is the quotient of its count by the population,
/// rounded down or up.
pub proof fn lemma_shares_sum(counts: Seq<u64>, pop: int)
    requires
        pop > 0,
        counted_to(counts, counts.len() as int) == pop,
    ensures
        row_total(shares_of(counts, pop)) == SCALE,
        forall|j: int|
            0 <= j < counts.len() ==> (counts[j] * SCALE) / pop <= (#[trigger] shares_of(
                counts,
                pop,
            )[j]) <= (counts[j] * SCALE) / pop + 1,
{
    let s = SCALE as int;
    let n = counts.len() as int;
    lemma_shares_prefix(counts, pop, n);
    assert((s * pop) / pop == s) by (nonlinear_arith)
        requires
            pop > 0,
    ;
    assert forall|j: int| 0 <= j < n implies (counts[j] * SCALE) / pop <= (#[trigger] shares_of(
        counts,
        pop,
    )[j]) <= (counts[j] * SCALE) / pop + 1 by {
        lemma_part_step(counts, pop, j);
    }
}

/// The counters of a round add up to its total.
pub proof fn lemma_round_counters_total(t: InteractionTracker)
    ensures
        counted_to(round_counters(t), 8) == t.total(),
{
    let c = round_counters(t);
    assert(counted_to(c, 0) == 0);
    assert(counted_to(c, 1) == counted_to(c, 0) + c[0]);
    assert(counted_to(c, 2) == counted_to(c, 1) + c[1]);
    assert(counted_to(c, 3) == counted_to(c, 2) + c[2]);
    assert(counted_to(c, 4) == counted_to(c, 3) + c[3]);
    assert(counted_to(c, 5) == counted_to(c, 4) + c[4]);
    assert(counted_to(c, 6) == counted_to(c, 5) + c[5]);
    assert(counted_to(c, 7) == counted_to(c, 6) + c[6]);
    assert(counted_to(c, 8) == counted_to(c, 7) + c[7]);
}

/// Computes the part of a population of `pop` that each count stands for.
pub fn shares(counts: &Vec<u64>, pop: usize) -> (record: Vec<i64>)
    requires
        pop > 0,
        counts@.len() <= MAX_PLACES,
    ensures
        record@ == shares_of(counts@, pop as int),
{
    let mut record: Vec<i64> = Vec::new();
    let mut upto: i128 = 0;
    let mut part: i128 = 0;
    let mut j: usize = 0;
    proof {
        assert(SCALE * 0 == 0);
    }
    while j < counts.len()
        invariant
            pop > 0,
            j <= counts@.len() <= MAX_PLACES,
            record@.len() == j,
            upto == counted_to(counts@, j as int),
            0 <= upto <= j * 0x1_0000_0000_0000_0000,
            part == part_to(counts@, pop as int, j as int),
            0 <= part <= 0x4000_0000_0000_0000_0000_0000_0000_0000,
            forall|b: int|
                0 <= b < j ==> (#[trigger] record@[b]) == saturate(
                    part_to(counts@, pop as int, b + 1) - part_to(counts@, pop as int, b),
                ),
        decreases counts@.len() - j,
    {
        upto = upto + counts[j] as i128;
        let ghost wide = SCALE * upto;
        assert(0 <= wide <= 0x4000_0000_0000_0000_0000_0000_0000_0000 && 0 <= wide / (pop as int)
            <= 0x4000_0000_0000_0000_0000_0000_0000_0000) by (nonlinear_arith)
            requires
                wide == SCALE * upto,
                0 <= upto <= 0x1_0000_0000 * 0x1_0000_0000_0000_0000,
                pop > 0,
        ;
        let next: i128 = (SCALE as i128 * upto) / pop as i128;
        record.push(saturating(next - part));
        part = next;
        j = j + 1;
    }
    assert(record@ =~= shares_of(counts@, pop as int));
    record
}

/// The counts of a round as fractions of the population, in the order
/// Hawk-Hawk, Hawk-Dove, Dove-Hawk, Dove-Dove, Fox-Hawk, Fox-Dove, Hawk-Fox,
/// Dove-Fox; nothing for an empty population. Where the meetings counted are
/// as many as the population, the fractions add up to exactly 1.0.
pub fn frequencies(tracker: &InteractionTracker, pop: usize) -> (record: Option<Vec<i64>>)
    ensures
        record is None <==> pop == 0,
        record is Some ==> record->0@ == shares_of(round_counters(*tracker), pop as int),
        record is Some && tracker.total() == pop ==> row_total(record->0@) == SCALE,
{
    if pop == 0 {
        return None;
    }
    let mut counts: Vec<u64> = Vec::new();
    counts.push(tracker.hawk_hawk);
    counts.push(tracker.hawk_dove);
    counts.push(tracker.dove_hawk);
    counts.push(tracker.dove_dove);
    counts.push(tracker.fox_hawk);
    counts.push(tracker.fox_dove);
    counts.push(tracker.hawk_fox);
    counts.push(tracker.dove_fox);
    proof {
        assert(counts@ =~= round_counters(*tracker));
        lemma_round_counters_total(*tracker);
        if tracker.total() == pop {
            lemma_shares_sum(counts@, pop as int);
        }
    }
    Some(shares(&counts, pop))
}

} // verus!
