//! How a distributed run splits a workload's clients over the chosen nodes:
//! evenly, or in proportion to each node's capacity with the largest-remainder
//! method.

use vstd::prelude::*;
use vstd::set_lib::{lemma_int_range, lemma_len_subset, lemma_map_size, lemma_subset_equality, set_int_range};
use crate::model::cluster::{AgentNode, SchedulingStrategy};

verus! {

/// The sum of a sequence of counts.
pub open spec fn sum_of(s: Seq<u64>) -> int
    decreases s.len(),
{
    if s.len() == 0 {
        0
    } else {
        sum_of(s.drop_last()) + s.last()
    }
}

/// The weight of a node in capacity-weighted scheduling: its client
/// capacity, at least 1.
pub open spec fn node_weight(n: AgentNode) -> u64 {
    if n.capabilities.max_clients >= 1 {
        n.capabilities.max_clients
    } else {
        1
    }
}

pub open spec fn node_weights(nodes: Seq<AgentNode>) -> Seq<u64> {
    nodes.map_values(|n: AgentNode| node_weight(n))
}

/// `u64::saturating_mul`.
pub open spec fn sat_mul(a: u64, b: u64) -> u64 {
    if a * b <= u64::MAX {
        (a * b) as u64
    } else {
        u64::MAX
    }
}

/// Even split: every node gets `total / n`, and the first `total % n` nodes
/// one more.
pub open spec fn even_shares(total: u64, n: nat) -> Seq<u64> {
    Seq::new(
        n,
        |i: int|
            if i < total % (n as u64) {
                (total / (n as u64) + 1) as u64
            } else {
                total / (n as u64)
            },
    )
}

/// `total * weight`, saturating, for each node.
pub open spec fn weighted_parts(total: u64, ws: Seq<u64>) -> Seq<u64> {
    ws.map_values(|w: u64| sat_mul(total, w))
}

/// In the largest-remainder order, node `j` comes before node `i`: its
/// remainder is larger, or equal with a smaller index.
pub open spec fn precedes(rems: Seq<u64>, j: int, i: int) -> bool {
    rems[j] > rems[i] || (rems[j] == rems[i] && j < i)
}

/// How many of the first `k` nodes come before node `i`.
pub open spec fn count_preceding(rems: Seq<u64>, i: int, k: int) -> nat
    decreases k,
{
    if k <= 0 {
        0
    } else {
        count_preceding(rems, i, k - 1) + if precedes(rems, k - 1, i) {
            1nat
        } else {
            0nat
        }
    }
}

/// The position of node `i` in the largest-remainder order.
pub open spec fn remainder_rank(rems: Seq<u64>, i: int) -> nat {
    count_preceding(rems, i, rems.len() as int)
}

/// Capacity-weighted split: each node gets the floor of its proportional
/// share, and the clients left over go one each to the nodes with the
/// largest remainders (ties to the lower index).
pub open spec fn capacity_shares(total: u64, ws: Seq<u64>) -> Seq<u64> {
    let s = sum_of(ws);
    let parts = weighted_parts(total, ws);
    let bases = parts.map_values(|p: u64| (p / (s as u64)) as u64);
    let rems = parts.map_values(|p: u64| (p % (s as u64)) as u64);
    let remaining = total - sum_of(bases);
    Seq::new(
        ws.len(),
        |i: int|
            if remainder_rank(rems, i) < remaining {
                (bases[i] + 1) as u64
            } else {
                bases[i]
            },
    )
}

/// The client counts that `allocate_clients` hands each node.
pub open spec fn allocation(total: u64, nodes: Seq<AgentNode>, strategy: SchedulingStrategy) -> Seq<
    u64,
> {
    if nodes.len() == 0 {
        Seq::empty()
    } else if strategy == SchedulingStrategy::CapacityWeighted {
        capacity_shares(total, node_weights(nodes))
    } else {
        even_shares(total, nodes.len())
    }
}

/// One share per node.
pub(crate) proof fn lemma_allocation_len(total: u64, nodes: Seq<AgentNode>, strategy: SchedulingStrategy)
    requires
        nodes.len() <= u64::MAX,
    ensures
        allocation(total, nodes, strategy).len() == nodes.len(),
{
    if nodes.len() > 0 {
        if strategy == SchedulingStrategy::CapacityWeighted {
            assert(node_weights(nodes).len() == nodes.len());
            assert(capacity_shares(total, node_weights(nodes)).len() == node_weights(nodes).len());
        } else {
            let sh = even_shares(total, nodes.len());
            assert((nodes.len() as u64) > 0);
            assert(sh.len() == nodes.len());
        }
    }
}

pub(crate) proof fn lemma_sum_prefix(s: Seq<u64>, k: int)
    requires
        0 <= k < s.len(),
    ensures
        sum_of(s.take(k + 1)) == sum_of(s.take(k)) + s[k],
{
    assert(s.take(k + 1).drop_last() =~= s.take(k));
}

proof fn lemma_sum_nonneg(s: Seq<u64>)
    ensures
        sum_of(s) >= 0,
    decreases s.len(),
{
    if s.len() > 0 {
        lemma_sum_nonneg(s.drop_last());
    }
}

/// Parts no larger than `total * w` sum to at most `total` times the weight sum.
proof fn lemma_parts_sum_bound(total: u64, ws: Seq<u64>)
    ensures
        sum_of(weighted_parts(total, ws)) <= total * sum_of(ws),
    decreases ws.len(),
{
    if ws.len() > 0 {
        let last = ws.last();
        lemma_parts_sum_bound(total, ws.drop_last());
        assert(weighted_parts(total, ws).drop_last() =~= weighted_parts(total, ws.drop_last()));
        assert(sat_mul(total, last) <= total * last) by (nonlinear_arith);
        assert(total * sum_of(ws.drop_last()) + total * last == total * (sum_of(ws.drop_last())
            + last)) by (nonlinear_arith);
    }
}

/// Without saturation, the parts sum to exactly `total` times the weight sum.
proof fn lemma_parts_sum_exact(total: u64, ws: Seq<u64>)
    requires
        forall|i: int| 0 <= i < ws.len() ==> total * #[trigger] ws[i] <= u64::MAX,
    ensures
        sum_of(weighted_parts(total, ws)) == total * sum_of(ws),
    decreases ws.len(),
{
    if ws.len() > 0 {
        let last = ws.last();
        assert(total * ws[ws.len() - 1] <= u64::MAX);
        assert forall|i: int| 0 <= i < ws.drop_last().len() implies total * #[trigger] ws.drop_last()[i]
            <= u64::MAX by {
            assert(ws.drop_last()[i] == ws[i]);
        }
        lemma_parts_sum_exact(total, ws.drop_last());
        assert(weighted_parts(total, ws).drop_last() =~= weighted_parts(total, ws.drop_last()));
        assert(total * sum_of(ws.drop_last()) + total * last == total * (sum_of(ws.drop_last())
            + last)) by (nonlinear_arith);
    }
}

/// Splitting each part into quotient and remainder by `d` splits the sum.
proof fn lemma_div_mod_sums(parts: Seq<u64>, d: u64)
    requires
        d > 0,
    ensures
        sum_of(parts.map_values(|p: u64| (p / d) as u64)) * d + sum_of(
            parts.map_values(|p: u64| (p % d) as u64),
        ) == sum_of(parts),
        sum_of(parts.map_values(|p: u64| (p % d) as u64)) <= parts.len() * (d - 1),
    decreases parts.len(),
{
    if parts.len() > 0 {
        let init = parts.drop_last();
        let p = parts.last();
        lemma_div_mod_sums(init, d);
        assert(parts.map_values(|p: u64| (p / d) as u64).drop_last() =~= init.map_values(
            |p: u64| (p / d) as u64,
        ));
        assert(parts.map_values(|p: u64| (p % d) as u64).drop_last() =~= init.map_values(
            |p: u64| (p % d) as u64,
        ));
        let qs = sum_of(init.map_values(|p: u64| (p / d) as u64));
        let rs = sum_of(init.map_values(|p: u64| (p % d) as u64));
        assert((qs + p / d) * d + (rs + p % d) == qs * d + rs + p) by (nonlinear_arith)
            requires
                d > 0,
        ;
        assert(rs + p % d <= (init.len() + 1) * (d - 1)) by (nonlinear_arith)
            requires
                rs <= init.len() * (d - 1),
                p % d <= d - 1,
        ;
    }
}

/// The floors of the proportional shares never add up to more than `total`.
proof fn lemma_bases_bounded(total: u64, ws: Seq<u64>, k: int)
    requires
        sum_of(ws) > 0,
        sum_of(ws) <= u64::MAX,
        0 <= k <= ws.len(),
    ensures
        sum_of(
            weighted_parts(total, ws).take(k).map_values(|p: u64| (p / (sum_of(ws) as u64)) as u64),
        ) <= total,
{
    let s = sum_of(ws);
    let sd = s as u64;
    let pk = weighted_parts(total, ws).take(k);
    assert(pk =~= weighted_parts(total, ws.take(k)));
    lemma_parts_sum_bound(total, ws.take(k));
    lemma_prefix_sum_le(ws, k);
    lemma_div_mod_sums(pk, sd);
    lemma_sum_nonneg(pk.map_values(|p: u64| (p % sd) as u64));
    let q = sum_of(pk.map_values(|p: u64| (p / sd) as u64));
    assert(q <= total) by (nonlinear_arith)
        requires
            q * s <= sum_of(pk),
            sum_of(pk) <= total * sum_of(ws.take(k)),
            sum_of(ws.take(k)) <= s,
            s > 0,
            total >= 0,
    ;
}

proof fn lemma_prefix_sum_le(ws: Seq<u64>, k: int)
    requires
        0 <= k <= ws.len(),
    ensures
        sum_of(ws.take(k)) <= sum_of(ws),
    decreases ws.len() - k,
{
    if k < ws.len() {
        lemma_prefix_sum_le(ws, k + 1);
        lemma_sum_prefix(ws, k);
    } else {
        assert(ws.take(k) =~= ws);
    }
}


/// The nodes among the first `k` that come before node `i`.
pub open spec fn preceding_set(rems: Seq<u64>, i: int, k: int) -> Set<int> {
    Set::new(|j: int| 0 <= j < k && precedes(rems, j, i))
}

proof fn lemma_count_is_set_len(rems: Seq<u64>, i: int, k: int)
    requires
        0 <= k <= rems.len(),
        0 <= i < rems.len(),
    ensures
        preceding_set(rems, i, k).finite(),
        preceding_set(rems, i, k).len() == count_preceding(rems, i, k),
    decreases k,
{
    if k == 0 {
        assert(preceding_set(rems, i, k) =~= Set::empty());
    } else {
        lemma_count_is_set_len(rems, i, k - 1);
        if precedes(rems, k - 1, i) {
            assert(preceding_set(rems, i, k) =~= preceding_set(rems, i, k - 1).insert(k - 1));
        } else {
            assert(preceding_set(rems, i, k) =~= preceding_set(rems, i, k - 1));
        }
    }
}

/// A node that comes earlier in the largest-remainder order has a smaller rank.
proof fn lemma_rank_strictly_monotone(rems: Seq<u64>, i: int, k: int)
    requires
        0 <= i < rems.len(),
        0 <= k < rems.len(),
        precedes(rems, i, k),
    ensures
        remainder_rank(rems, i) < remainder_rank(rems, k),
{
    let n = rems.len() as int;
    lemma_count_is_set_len(rems, i, n);
    lemma_count_is_set_len(rems, k, n);
    let pi = preceding_set(rems, i, n);
    let pk = preceding_set(rems, k, n);
    assert(pi.insert(i).subset_of(pk));
    assert(!pi.contains(i));
    lemma_len_subset(pi.insert(i), pk);
}

/// Ranks lie in `0..n`.
proof fn lemma_rank_bound(rems: Seq<u64>, i: int)
    requires
        0 <= i < rems.len(),
    ensures
        remainder_rank(rems, i) < rems.len(),
{
    let n = rems.len() as int;
    lemma_count_is_set_len(rems, i, n);
    lemma_int_range(0, n);
    let r = set_int_range(0, n);
    assert(preceding_set(rems, i, n).subset_of(r.remove(i)));
    lemma_len_subset(preceding_set(rems, i, n), r.remove(i));
}

/// The nodes whose rank is below `m`.
pub open spec fn ranked_below(rems: Seq<u64>, m: int) -> Set<int> {
    Set::new(|i: int| 0 <= i < rems.len() && remainder_rank(rems, i) < m)
}

/// Exactly `m` nodes have a rank below `m`: the ranks are `0..n`, each once.
proof fn lemma_ranked_below_len(rems: Seq<u64>, m: int)
    requires
        0 <= m <= rems.len(),
    ensures
        ranked_below(rems, m).finite(),
        ranked_below(rems, m).len() == m,
{
    let n = rems.len() as int;
    let f = |i: int| remainder_rank(rems, i) as int;
    let r = set_int_range(0, n);
    lemma_int_range(0, n);
    assert forall|a: int, b: int| r.contains(a) && r.contains(b) && #[trigger] f(a) == #[trigger] f(
        b,
    ) implies a == b by {
        if a != b {
            if precedes(rems, a, b) {
                lemma_rank_strictly_monotone(rems, a, b);
            } else {
                lemma_rank_strictly_monotone(rems, b, a);
            }
        }
    }
    assert(vstd::relations::injective_on(f, r));
    lemma_map_size(r, r.map(f), f);
    assert(r.map(f).subset_of(r)) by {
        assert forall|v: int| r.map(f).contains(v) implies r.contains(v) by {
            let i = choose|i: int| r.contains(i) && f(i) == v;
            lemma_rank_bound(rems, i);
        }
    }
    lemma_subset_equality(r.map(f), r);
    let picked = ranked_below(rems, m);
    assert(picked.subset_of(r));
    lemma_len_subset(picked, r);
    lemma_int_range(0, m);
    assert(picked.map(f) =~= set_int_range(0, m)) by {
        assert forall|v: int| set_int_range(0, m).contains(v) implies picked.map(f).contains(v) by {
            assert(r.map(f).contains(v));
            let i = choose|i: int| r.contains(i) && f(i) == v;
            assert(picked.contains(i));
        }
    }
    assert(vstd::relations::injective_on(f, picked));
    lemma_map_size(picked, picked.map(f), f);
}

/// How many of the first `k` nodes have a rank below `m`.
pub open spec fn count_ranked_below(rems: Seq<u64>, m: int, k: int) -> nat
    decreases k,
{
    if k <= 0 {
        0
    } else {
        count_ranked_below(rems, m, k - 1) + if remainder_rank(rems, k - 1) < m {
            1nat
        } else {
            0nat
        }
    }
}

proof fn lemma_count_ranked_below(rems: Seq<u64>, m: int, k: int)
    requires
        0 <= k <= rems.len(),
    ensures
        Set::new(|i: int| 0 <= i < k && remainder_rank(rems, i) < m).finite(),
        Set::new(|i: int| 0 <= i < k && remainder_rank(rems, i) < m).len() == count_ranked_below(
            rems,
            m,
            k,
        ),
    decreases k,
{
    let sk = Set::new(|i: int| 0 <= i < k && remainder_rank(rems, i) < m);
    let sp = Set::new(|i: int| 0 <= i < k - 1 && remainder_rank(rems, i) < m);
    if k == 0 {
        assert(sk =~= Set::empty());
    } else {
        lemma_count_ranked_below(rems, m, k - 1);
        if remainder_rank(rems, k - 1) < m {
            assert(sk =~= sp.insert(k - 1));
        } else {
            assert(sk =~= sp);
        }
    }
}

/// Adding one to the nodes ranked below `m` adds that many to the sum.
proof fn lemma_sum_with_bumps(rems: Seq<u64>, bases: Seq<u64>, out: Seq<u64>, m: int, k: int)
    requires
        bases.len() == rems.len(),
        out.len() == rems.len(),
        0 <= k <= rems.len(),
        forall|i: int|
            0 <= i < rems.len() ==> #[trigger] out[i] == bases[i] + if remainder_rank(rems, i) < m {
                1int
            } else {
                0int
            },
    ensures
        sum_of(out.take(k)) == sum_of(bases.take(k)) + count_ranked_below(rems, m, k),
    decreases k,
{
    if k > 0 {
        lemma_sum_with_bumps(rems, bases, out, m, k - 1);
        lemma_sum_prefix(out, k - 1);
        lemma_sum_prefix(bases, k - 1);
    } else {
        assert(out.take(0) =~= Seq::<u64>::empty());
        assert(bases.take(0) =~= Seq::<u64>::empty());
    }
}

proof fn lemma_even_sum(total: u64, n: nat, k: int)
    requires
        n > 0,
        n <= u64::MAX,
        0 <= k <= n,
    ensures
        sum_of(even_shares(total, n).take(k)) == k * (total / (n as u64)) + if k < total % (
        n as u64) {
            k
        } else {
            (total % (n as u64)) as int
        },
    decreases k,
{
    let sh = even_shares(total, n);
    let d = n as u64;
    assert(d > 0);
    assert(sh.len() == n);
    if k == 0 {
        assert(sh.take(0) =~= Seq::<u64>::empty());
    } else {
        lemma_even_sum(total, n, k - 1);
        lemma_sum_prefix(sh, k - 1);
        assert(sh[k - 1] == if k - 1 < total % d {
            (total / d + 1) as u64
        } else {
            total / d
        });
        assert(total / d < u64::MAX || total % d == 0) by (nonlinear_arith)
            requires
                d > 0,
        ;
        assert(k * (total / d) == (k - 1) * (total / d) + total / d) by (nonlinear_arith);
    }
}

proof fn lemma_element_le_sum(s: Seq<u64>, i: int)
    requires
        0 <= i < s.len(),
    ensures
        s[i] <= sum_of(s),
    decreases s.len(),
{
    lemma_sum_nonneg(s.drop_last());
    if i < s.len() - 1 {
        lemma_element_le_sum(s.drop_last(), i);
    }
}

/// Splits `total` clients over `nodes`: evenly, or, for capacity-weighted
/// scheduling, in proportion to each node's capacity by the largest-remainder
/// method. Node order decides ties.
pub fn allocate_clients(total: u64, nodes: &[AgentNode], strategy: &SchedulingStrategy) -> (r: Vec<
    u64,
>)
    requires
        *strategy == SchedulingStrategy::CapacityWeighted ==> sum_of(node_weights(nodes@))
            <= u64::MAX,
    ensures
        r@ == allocation(total, nodes@, *strategy),
        nodes@.len() > 0 && *strategy != SchedulingStrategy::CapacityWeighted ==> sum_of(r@)
            == total,
        nodes@.len() > 0 && *strategy == SchedulingStrategy::CapacityWeighted && (forall|i: int|
            0 <= i < nodes@.len() ==> total * #[trigger] node_weights(nodes@)[i] <= u64::MAX)
            ==> sum_of(r@) == total,
{
    let n = nodes.len();
    if n == 0 {
        return Vec::new();
    }
    if !strategy.is_capacity_weighted() {
        let count = n as u64;
        let base = total / count;
        let rem = total % count;
        let ghost spec = even_shares(total, n as nat);
        let mut out: Vec<u64> = Vec::new();
        let mut i: usize = 0;
        while i < n
            invariant
                n == nodes@.len(),
                count == n,
                count > 0,
                base == total / count,
                rem == total % count,
                i <= n,
                spec == even_shares(total, n as nat),
                out@ == spec.take(i as int),
            decreases n - i,
        {
            let extra: u64 = if (i as u64) < rem {
                1
            } else {
                0
            };
            proof {
                if (i as u64) < rem {
                    assert(base < u64::MAX) by (nonlinear_arith)
                        requires
                            base == total / count,
                            count >= 2,
                    ;
                }
            }
            out.push(base + extra);
            i = i + 1;
            assert(out@ =~= spec.take(i as int));
        }
        proof {
            assert(spec.take(n as int) =~= spec);
            lemma_even_sum(total, n as nat, n as int);
            vstd::arithmetic::div_mod::lemma_fundamental_div_mod(total as int, count as int);
            vstd::arithmetic::div_mod::lemma_mod_bound(total as int, count as int);
            assert(n * (total / count) + total % count == total) by (nonlinear_arith)
                requires
                    total == count * (total / count) + total % count,
                    n == count,
            ;
        }
        return out;
    }
    let ghost ws = node_weights(nodes@);
    let mut weights: Vec<u64> = Vec::new();
    let mut wsum: u64 = 0;
    let mut i: usize = 0;
    while i < n
        invariant
            n == nodes@.len(),
            ws == node_weights(nodes@),
            sum_of(ws) <= u64::MAX,
            i <= n,
            weights@ == ws.take(i as int),
            wsum == sum_of(ws.take(i as int)),
        decreases n - i,
    {
        let m = nodes[i].capabilities.max_clients;
        let w: u64 = if m >= 1 {
            m
        } else {
            1
        };
        proof {
            lemma_sum_prefix(ws, i as int);
            lemma_prefix_sum_le(ws, i + 1);
        }
        weights.push(w);
        wsum = wsum + w;
        i = i + 1;
        assert(weights@ =~= ws.take(i as int));
    }
    assert(ws.take(n as int) =~= ws);
    proof {
        lemma_element_le_sum(ws, 0);
    }
    let ghost parts = weighted_parts(total, ws);
    let ghost bases_spec = parts.map_values(|p: u64| (p / wsum) as u64);
    let ghost rems_spec = parts.map_values(|p: u64| (p % wsum) as u64);
    let mut bases: Vec<u64> = Vec::new();
    let mut rems: Vec<u64> = Vec::new();
    let mut bsum: u64 = 0;
    i = 0;
    while i < n
        invariant
            n == nodes@.len(),
            weights@ == ws,
            ws.len() == n,
            wsum == sum_of(ws),
            wsum > 0,
            sum_of(ws) <= u64::MAX,
            parts == weighted_parts(total, ws),
            bases_spec == parts.map_values(|p: u64| (p / wsum) as u64),
            rems_spec == parts.map_values(|p: u64| (p % wsum) as u64),
            i <= n,
            bases@ == bases_spec.take(i as int),
            rems@ == rems_spec.take(i as int),
            bsum == sum_of(bases_spec.take(i as int)),
        decreases n - i,
    {
        let part: u64 = match total.checked_mul(weights[i]) {
            Some(p) => p,
            None => u64::MAX,
        };
        assert(part == parts[i as int]);
        proof {
            lemma_bases_bounded(total, ws, i + 1);
            assert(parts.take(i + 1).map_values(|p: u64| (p / wsum) as u64) =~= bases_spec.take(
                i + 1,
            ));
            lemma_sum_prefix(bases_spec, i as int);
        }
        bases.push(part / wsum);
        rems.push(part % wsum);
        bsum = bsum + part / wsum;
        i = i + 1;
        assert(bases@ =~= bases_spec.take(i as int));
        assert(rems@ =~= rems_spec.take(i as int));
    }
    assert(bases_spec.take(n as int) =~= bases_spec);
    assert(rems_spec.take(n as int) =~= rems_spec);
    proof {
        lemma_bases_bounded(total, ws, n as int);
        assert(parts.take(n as int) =~= parts);
    }
    let remaining = total - bsum;
    let ghost spec = capacity_shares(total, ws);
    proof {
        let sb = parts.map_values(|p: u64| (p / (sum_of(ws) as u64)) as u64);
        let sr = parts.map_values(|p: u64| (p % (sum_of(ws) as u64)) as u64);
        assert(sb =~= bases_spec);
        assert(sr =~= rems_spec);
        assert(spec =~= Seq::new(
            n as nat,
            |k: int|
                if remainder_rank(rems_spec, k) < remaining {
                    (bases_spec[k] + 1) as u64
                } else {
                    bases_spec[k]
                },
        ));
    }
    let mut out: Vec<u64> = Vec::new();
    i = 0;
    while i < n
        invariant
            n == nodes@.len(),
            ws.len() == n,
            wsum == sum_of(ws),
            wsum > 0,
            parts == weighted_parts(total, ws),
            bases_spec == parts.map_values(|p: u64| (p / wsum) as u64),
            rems_spec == parts.map_values(|p: u64| (p % wsum) as u64),
            bases@ == bases_spec,
            rems@ == rems_spec,
            bsum == sum_of(bases_spec),
            bsum <= total,
            remaining == total - bsum,
            spec == Seq::new(
                n as nat,
                |k: int|
                    if remainder_rank(rems_spec, k) < remaining {
                        (bases_spec[k] + 1) as u64
                    } else {
                        bases_spec[k]
                    },
            ),
            i <= n,
            out@ == spec.take(i as int),
        decreases n - i,
    {
        let mut rank: usize = 0;
        let mut j: usize = 0;
        while j < n
            invariant
                n == rems@.len(),
                i < n,
                j <= n,
                rank == count_preceding(rems@, i as int, j as int),
                rank <= j,
            decreases n - j,
        {
            if rems[j] > rems[i] || (rems[j] == rems[i] && j < i) {
                rank = rank + 1;
            }
            j = j + 1;
        }
        let share: u64 = if (rank as u64) < remaining {
            proof {
                lemma_element_le_sum(bases_spec, i as int);
            }
            bases[i] + 1
        } else {
            bases[i]
        };
        out.push(share);
        i = i + 1;
        assert(out@ =~= spec.take(i as int));
    }
    assert(spec.take(n as int) =~= spec);
    proof {
        if forall|k: int| 0 <= k < n ==> total * #[trigger] ws[k] <= u64::MAX {
            lemma_parts_sum_exact(total, ws);
            lemma_div_mod_sums(parts, wsum);
            let rs = sum_of(rems_spec);
            assert(remaining * wsum == rs) by (nonlinear_arith)
                requires
                    bsum * wsum + rs == total * wsum,
                    remaining == total - bsum,
            ;
            assert(n * (wsum - 1) < n * wsum) by (nonlinear_arith)
                requires
                    n > 0,
            ;
            assert(remaining < n) by (nonlinear_arith)
                requires
                    remaining * wsum < n * wsum,
                    wsum > 0,
            ;
            assert forall|k: int| 0 <= k < n implies #[trigger] spec[k] == bases_spec[k] + if remainder_rank(
                rems_spec,
                k,
            ) < remaining {
                1int
            } else {
                0int
            } by {
                if remainder_rank(rems_spec, k) < remaining {
                    lemma_element_le_sum(bases_spec, k);
                }
            }
            lemma_ranked_below_len(rems_spec, remaining as int);
            lemma_count_ranked_below(rems_spec, remaining as int, n as int);
            assert(Set::new(|k: int| 0 <= k < n && remainder_rank(rems_spec, k) < remaining)
                =~= ranked_below(rems_spec, remaining as int));
            lemma_sum_with_bumps(rems_spec, bases_spec, spec, remaining as int, n as int);
            assert(spec.take(n as int) =~= spec);
            assert(bases_spec.take(n as int) =~= bases_spec);
        }
    }
    out
}
/// An even split gives every node the same number of clients or one more,
/// the nodes with one more first.
pub proof fn lemma_even_shares_balanced(total: u64, n: nat, i: int, j: int)
    requires
        0 < n <= u64::MAX,
        0 <= i < n,
        0 <= j < n,
    ensures
        even_shares(total, n)[i] <= even_shares(total, n)[j] + 1,
        i <= j ==> even_shares(total, n)[i] >= even_shares(total, n)[j],
        even_shares(total, n)[i] == total / (n as u64) || even_shares(total, n)[i] == total / (
        n as u64) + 1,
{
    let d = n as u64;
    assert(d > 0);
    assert(total / d < u64::MAX || total % d == 0) by (nonlinear_arith)
        requires
            d > 0,
    ;
}

/// A capacity-weighted share is the node's proportional share of the
/// clients rounded down, or that plus one.
pub proof fn lemma_capacity_share_proportional(total: u64, ws: Seq<u64>, i: int)
    requires
        0 <= i < ws.len(),
        0 < sum_of(ws) <= u64::MAX,
        forall|k: int| 0 <= k < ws.len() ==> total * #[trigger] ws[k] <= u64::MAX,
    ensures
        capacity_shares(total, ws)[i] == (total * ws[i]) / sum_of(ws) || capacity_shares(
            total,
            ws,
        )[i] == (total * ws[i]) / sum_of(ws) + 1,
        total * ws[i] - sum_of(ws) < capacity_shares(total, ws)[i] * sum_of(ws),
{
    let s = sum_of(ws);
    let su = s as u64;
    let parts = weighted_parts(total, ws);
    let bases = parts.map_values(|p: u64| (p / su) as u64);
    let p = parts[i];
    assert(p == total * ws[i]);
    let b = p / su;
    assert(b * su <= p && p < (b + 1) * su) by (nonlinear_arith)
        requires
            su > 0,
            b == p / su,
    ;
    lemma_element_le_sum(ws, i);
    assert(b <= total) by (nonlinear_arith)
        requires
            su > 0,
            b == p / su,
            p == total * ws[i],
            ws[i] <= su,
    ;
    assert(bases[i] == b);
    lemma_element_le_sum(bases, i);
    let remaining = total - sum_of(bases);
    let share = capacity_shares(total, ws)[i];
    if remainder_rank(parts.map_values(|q: u64| (q % su) as u64), i) < remaining {
        assert(b < u64::MAX);
        assert(share == b + 1);
    } else {
        assert(share == b);
    }
    assert(total * ws[i] - s < share * s) by (nonlinear_arith)
        requires
            s == su,
            p == total * ws[i],
            b * su <= p,
            p < (b + 1) * su,
            share == b || share == b + 1,
    ;
}

} // verus!
