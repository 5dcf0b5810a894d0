//! Measures taken over the positions and keepers at the end of a run.

use vstd::prelude::*;
use crate::position::{Position, Keeper, MAX_DEBT, bad_debt_of, underwater, position_wf};

verus! {

/// Sum of the bad debt of the first `n` positions at `price`.
pub open spec fn bad_debt_total(ps: Seq<Position>, price: int, n: int) -> int
    decreases n,
{
    if n <= 0 {
        0
    } else {
        bad_debt_total(ps, price, n - 1) + bad_debt_of(ps[n - 1], price)
    }
}

/// Number of the first `n` positions that are underwater and still open.
pub open spec fn open_underwater_count(ps: Seq<Position>, price: int, n: int) -> int
    decreases n,
{
    if n <= 0 {
        0
    } else {
        open_underwater_count(ps, price, n - 1) + if underwater(ps[n - 1], price)
            && !ps[n - 1].liquidated {
            1int
        } else {
            0int
        }
    }
}

/// Number of the first `n` keepers that executed at least one liquidation.
pub open spec fn active_count(ks: Seq<Keeper>, n: int) -> int
    decreases n,
{
    if n <= 0 {
        0
    } else {
        active_count(ks, n - 1) + if ks[n - 1].liquidations > 0 {
            1int
        } else {
            0int
        }
    }
}

/// Number of the first `n` positions that have been liquidated.
pub open spec fn liquidated_count(ps: Seq<Position>, n: int) -> int
    decreases n,
{
    if n <= 0 {
        0
    } else {
        liquidated_count(ps, n - 1) + if ps[n - 1].liquidated {
            1int
        } else {
            0int
        }
    }
}

/// Liquidating one open position and leaving every other status alone
/// raises the count of liquidated positions by one.
pub proof fn lemma_one_more_liquidated(before: Seq<Position>, after: Seq<Position>, e: int, n: int)
    requires
        before.len() == after.len(),
        0 <= e < before.len(),
        0 <= n <= before.len(),
        !before[e].liquidated,
        after[e].liquidated,
        forall|i: int| 0 <= i < before.len() && i != e ==> after[i].liquidated == before[i].liquidated,
    ensures
        liquidated_count(after, n) == liquidated_count(before, n) + if e < n { 1int } else { 0int },
    decreases n,
{
    if n > 0 {
        lemma_one_more_liquidated(before, after, e, n - 1);
    }
}

/// With no position liquidated, the count is zero.
pub proof fn lemma_none_liquidated(ps: Seq<Position>, n: int)
    requires
        0 <= n <= ps.len(),
        forall|i: int| 0 <= i < ps.len() ==> !#[trigger] ps[i].liquidated,
    ensures
        liquidated_count(ps, n) == 0,
    decreases n,
{
    if n > 0 {
        lemma_none_liquidated(ps, n - 1);
    }
}

/// Liquidations executed by the first `n` keepers.
pub open spec fn executions_total(ks: Seq<Keeper>, n: int) -> int
    decreases n,
{
    if n <= 0 {
        0
    } else {
        executions_total(ks, n - 1) + ks[n - 1].liquidations
    }
}

/// Crediting one execution to keeper `e` and leaving every other count
/// alone raises the total by one.
pub proof fn lemma_one_more_execution(before: Seq<Keeper>, after: Seq<Keeper>, e: int, n: int)
    requires
        before.len() == after.len(),
        0 <= e < before.len(),
        0 <= n <= before.len(),
        after[e].liquidations == before[e].liquidations + 1,
        forall|i: int| 0 <= i < before.len() && i != e ==> after[i].liquidations == before[i].liquidations,
    ensures
        executions_total(after, n) == executions_total(before, n) + if e < n { 1int } else { 0int },
    decreases n,
{
    if n > 0 {
        lemma_one_more_execution(before, after, e, n - 1);
    }
}

/// With no keeper having executed anything, the total is zero.
pub proof fn lemma_no_executions(ks: Seq<Keeper>, n: int)
    requires
        0 <= n <= ks.len(),
        forall|k: int| 0 <= k < ks.len() ==> #[trigger] ks[k].liquidations == 0,
    ensures
        executions_total(ks, n) == 0,
    decreases n,
{
    if n > 0 {
        lemma_no_executions(ks, n - 1);
    }
}

/// Some keeper has executed a liquidation exactly when the keepers have
/// executed any; with none executed, the total is zero.
pub proof fn lemma_active_iff_executions(ks: Seq<Keeper>, n: int)
    requires
        0 <= n <= ks.len(),
    ensures
        active_count(ks, n) > 0 <==> executions_total(ks, n) > 0,
        active_count(ks, n) >= 0,
        executions_total(ks, n) >= 0,
    decreases n,
{
    if n > 0 {
        lemma_active_iff_executions(ks, n - 1);
    }
}

/// Profit of the first `n` keepers.
pub open spec fn profit_total(ks: Seq<Keeper>, n: int) -> int
    decreases n,
{
    if n <= 0 {
        0
    } else {
        profit_total(ks, n - 1) + ks[n - 1].total_profit
    }
}

/// Profit of those of the first `n` keepers that `mask` selects.
pub open spec fn selected_profit(ks: Seq<Keeper>, mask: Seq<bool>, n: int) -> int
    decreases n,
{
    if n <= 0 {
        0
    } else {
        selected_profit(ks, mask, n - 1) + if mask[n - 1] {
            ks[n - 1].total_profit as int
        } else {
            0int
        }
    }
}

/// How many of the first `n` entries of `mask` are set.
pub open spec fn selected_count(mask: Seq<bool>, n: int) -> int
    decreases n,
{
    if n <= 0 {
        0
    } else {
        selected_count(mask, n - 1) + if mask[n - 1] {
            1int
        } else {
            0int
        }
    }
}

/// `mask` selects `k` keepers (all of them when there are fewer) and no
/// unselected keeper earned more than a selected one.
pub open spec fn top_earners(ks: Seq<Keeper>, k: int, mask: Seq<bool>) -> bool {
    let n = ks.len() as int;
    &&& mask.len() == n
    &&& selected_count(mask, n) == if k < n { k } else { n }
    &&& forall|i: int, j: int| #![auto] 0 <= i < n && 0 <= j < n && mask[i] && !mask[j]
        ==> ks[j].total_profit <= ks[i].total_profit
}

/// Share of total profit earned by the keepers that `mask` selects, in ppm
/// rounded down; 0 when no profit was earned.
pub open spec fn concentration_of(ks: Seq<Keeper>, mask: Seq<bool>) -> int {
    let n = ks.len() as int;
    if profit_total(ks, n) == 0 {
        0
    } else {
        selected_profit(ks, mask, n) * 1_000_000 / profit_total(ks, n)
    }
}

/// Largest entry of the first `n`; 0 when there are none.
pub open spec fn peak(v: Seq<usize>, n: int) -> int
    decreases n,
{
    if n <= 0 {
        0
    } else if v[n - 1] > peak(v, n - 1) {
        v[n - 1] as int
    } else {
        peak(v, n - 1)
    }
}

/// Total bad debt of the positions at `price`.
pub fn total_bad_debt(ps: &Vec<Position>, price: u64) -> (r: u64)
    requires
        ps.len() <= 10_000,
        forall|i: int| #![auto] 0 <= i < ps.len() ==> position_wf(ps@[i]),
    ensures
        r == bad_debt_total(ps@, price as int, ps.len() as int),
{
    let mut acc: u64 = 0;
    let mut i: usize = 0;
    while i < ps.len()
        invariant
            i <= ps.len() <= 10_000,
            forall|k: int| #![auto] 0 <= k < ps.len() ==> position_wf(ps@[k]),
            acc == bad_debt_total(ps@, price as int, i as int),
            acc <= i * MAX_DEBT,
        decreases ps.len() - i,
    {
        assert(position_wf(ps@[i as int]));
        let d = ps[i].bad_debt(price);
        assert(i * MAX_DEBT + MAX_DEBT == (i + 1) * MAX_DEBT) by (nonlinear_arith);
        acc = acc + d;
        i += 1;
    }
    acc
}

/// Number of positions that are underwater at `price` and were never liquidated.
pub fn count_open_underwater(ps: &Vec<Position>, price: u64) -> (r: usize)
    ensures
        r == open_underwater_count(ps@, price as int, ps.len() as int),
        r <= ps.len(),
{
    let mut c: usize = 0;
    let mut i: usize = 0;
    while i < ps.len()
        invariant
            i <= ps.len(),
            c == open_underwater_count(ps@, price as int, i as int),
            c <= i,
        decreases ps.len() - i,
    {
        if ps[i].is_underwater(price) && !ps[i].liquidated {
            c = c + 1;
        }
        i += 1;
    }
    c
}

/// Number of keepers that executed at least one liquidation.
pub fn count_active(ks: &Vec<Keeper>) -> (r: usize)
    ensures
        r == active_count(ks@, ks.len() as int),
        r <= ks.len(),
{
    let mut c: usize = 0;
    let mut i: usize = 0;
    while i < ks.len()
        invariant
            i <= ks.len(),
            c == active_count(ks@, i as int),
            c <= i,
        decreases ks.len() - i,
    {
        if ks[i].liquidations > 0 {
            c = c + 1;
        }
        i += 1;
    }
    c
}

/// Largest entry; 0 when there are none.
pub fn max_per_block(v: &Vec<usize>) -> (r: usize)
    ensures
        r == peak(v@, v.len() as int),
        forall|i: int| 0 <= i < v.len() ==> v@[i] <= r,
{
    let mut m: usize = 0;
    let mut i: usize = 0;
    while i < v.len()
        invariant
            i <= v.len(),
            m == peak(v@, i as int),
            forall|k: int| 0 <= k < i ==> v@[k] <= m,
        decreases v.len() - i,
    {
        if v[i] > m {
            m = v[i];
        }
        i += 1;
    }
    m
}

/// The peak of entries that are all at most `bound` is at most `bound`.
pub proof fn lemma_peak_bounded(v: Seq<usize>, n: int, bound: int)
    requires
        0 <= n <= v.len(),
        bound >= 0,
        forall|b: int| 0 <= b < v.len() ==> v[b] <= bound,
    ensures
        peak(v, n) <= bound,
    decreases n,
{
    if n > 0 {
        lemma_peak_bounded(v, n - 1, bound);
    }
}

proof fn lemma_selected_flip(ks: Seq<Keeper>, mask: Seq<bool>, b: int, n: int)
    requires
        0 <= b < mask.len(),
        !mask[b],
        0 <= n <= mask.len(),
        n <= ks.len(),
    ensures
        selected_profit(ks, mask.update(b, true), n) == selected_profit(ks, mask, n) + if b < n {
            ks[b].total_profit as int
        } else {
            0int
        },
        selected_count(mask.update(b, true), n) == selected_count(mask, n) + if b < n {
            1int
        } else {
            0int
        },
    decreases n,
{
    if n > 0 {
        lemma_selected_flip(ks, mask, b, n - 1);
    }
}

proof fn lemma_selected_bounds(ks: Seq<Keeper>, mask: Seq<bool>, n: int)
    requires
        0 <= n <= ks.len(),
        n <= mask.len(),
    ensures
        0 <= selected_profit(ks, mask, n) <= profit_total(ks, n),
        0 <= selected_count(mask, n) <= n,
        (forall|i: int| 0 <= i < n ==> mask[i]) ==> selected_count(mask, n) == n,
    decreases n,
{
    if n > 0 {
        lemma_selected_bounds(ks, mask, n - 1);
    }
}

/// Share of the keepers' total profit earned by the top fifth of them, in
/// ppm rounded down; 0 when no profit was earned.
pub fn profit_concentration(ks: &Vec<Keeper>) -> (r: u64)
    requires
        ks.len() <= 1000,
        forall|i: int| #![auto] 0 <= i < ks.len() ==> ks@[i].total_profit <= 0xffff_ffff_ffff_ffff_ffff_ffff,
    ensures
        r <= 1_000_000,
        profit_total(ks@, ks.len() as int) == 0 ==> r == 0,
        exists|mask: Seq<bool>| #[trigger] top_fifth_share(ks@, mask, r as int),
{
    let n = ks.len();
    let k = n / 5;
    let mut total: u128 = 0;
    let mut i: usize = 0;
    while i < n
        invariant
            i <= n == ks.len() <= 1000,
            forall|q: int| #![auto] 0 <= q < ks.len() ==> ks@[q].total_profit <= 0xffff_ffff_ffff_ffff_ffff_ffff,
            total == profit_total(ks@, i as int),
            total <= i * 0xffff_ffff_ffff_ffff_ffff_ffff,
        decreases n - i,
    {
        assert(ks@[i as int].total_profit <= 0xffff_ffff_ffff_ffff_ffff_ffff);
        assert(i * 0xffff_ffff_ffff_ffff_ffff_ffff + 0xffff_ffff_ffff_ffff_ffff_ffff == (i + 1) * 0xffff_ffff_ffff_ffff_ffff_ffff) by (nonlinear_arith);
        total = total + ks[i].total_profit;
        i += 1;
    }
    let mut mask: Vec<bool> = Vec::new();
    let mut q: usize = 0;
    while q < n
        invariant
            q <= n,
            mask.len() == q,
            forall|t: int| 0 <= t < q ==> !mask@[t],
        decreases n - q,
    {
        mask.push(false);
        q += 1;
    }
    proof {
        assert(selected_count(mask@, n as int) == 0 && selected_profit(ks@, mask@, n as int) == 0) by {
            lemma_unselected_zero(ks@, mask@, n as int);
        }
    }
    let mut top: u128 = 0;
    let mut taken: usize = 0;
    while taken < k
        invariant
            k == n / 5,
            n == ks.len(),
            mask.len() == n,
            taken <= k,
            selected_count(mask@, n as int) == taken,
            top == selected_profit(ks@, mask@, n as int),
            total == profit_total(ks@, n as int),
            forall|a: int, b: int| #![auto] 0 <= a < n && 0 <= b < n && mask@[a] && !mask@[b]
                ==> ks@[b].total_profit <= ks@[a].total_profit,
        decreases k - taken,
    {
        let mut found = false;
        let mut b: usize = 0;
        let mut t: usize = 0;
        while t < n
            invariant
                t <= n,
                n == ks.len(),
                mask.len() == n,
                found ==> b < n && !mask@[b as int],
                found ==> forall|c: int| #![auto] 0 <= c < t && !mask@[c] ==> ks@[c].total_profit
                    <= ks@[b as int].total_profit,
                !found ==> forall|c: int| 0 <= c < t ==> mask@[c],
            decreases n - t,
        {
            if !mask[t] {
                if !found || ks[t].total_profit > ks[b].total_profit {
                    b = t;
                    found = true;
                }
            }
            t += 1;
        }
        proof {
            lemma_selected_bounds(ks@, mask@, n as int);
            if !found {
                assert(selected_count(mask@, n as int) == n);
            }
        }
        let ghost before = mask@;
        proof {
            lemma_selected_flip(ks@, before, b as int, n as int);
            lemma_selected_bounds(ks@, before.update(b as int, true), n as int);
        }
        mask.set(b, true);
        top = top + ks[b].total_profit;
        taken += 1;
    }
    proof {
        lemma_selected_bounds(ks@, mask@, n as int);
        assert(top_earners(ks@, ks.len() as int / 5, mask@));
    }
    if total == 0 {
        assert(top_fifth_share(ks@, mask@, 0));
        return 0;
    }
    proof {
        assert(total * 1_000_000 <= 1000 * 0xffff_ffff_ffff_ffff_ffff_ffff * 1_000_000) by (nonlinear_arith)
            requires total <= n * 0xffff_ffff_ffff_ffff_ffff_ffff, n <= 1000;
        assert(top * 1_000_000 <= total * 1_000_000) by (nonlinear_arith)
            requires top <= total;
        assert(top * 1_000_000 / (total as int) <= 1_000_000) by (nonlinear_arith)
            requires top <= total, total > 0;
    }
    let r = (top * 1_000_000 / total) as u64;
    assert(top_fifth_share(ks@, mask@, r as int));
    r
}

/// `r` is the share of the top fifth of the keepers, selected by `mask`.
pub open spec fn top_fifth_share(ks: Seq<Keeper>, mask: Seq<bool>, r: int) -> bool {
    top_earners(ks, ks.len() as int / 5, mask) && r == concentration_of(ks, mask)
}

proof fn lemma_unselected_zero(ks: Seq<Keeper>, mask: Seq<bool>, n: int)
    requires
        0 <= n <= mask.len(),
        forall|t: int| 0 <= t < mask.len() ==> !mask[t],
    ensures
        selected_count(mask, n) == 0,
        selected_profit(ks, mask, n) == 0,
    decreases n,
{
    if n > 0 {
        lemma_unselected_zero(ks, mask, n - 1);
    }
}

} // verus!
