//! The two liquidation mechanisms: who joins a liquidation and who is paid.

use vstd::prelude::*;
use crate::position::Keeper;

verus! {

/// How a liquidation's profit is shared among willing keepers.
#[derive(Clone, Copy, Debug, PartialEq, Eq, Structural)]
pub enum LiquidationMechanism {
    /// The keeper with the highest priority takes the whole profit.
    Traditional,
    /// Seventy percent of the profit is split evenly among all willing keepers.
    KeeperPool,
}

/// Profit above which a keeper joins a liquidation, in millionths of the numeraire.
pub open spec fn willing_threshold(m: LiquidationMechanism) -> int {
    match m {
        LiquidationMechanism::Traditional => 50_000_000,
        LiquidationMechanism::KeeperPool => 10_000_000,
    }
}

pub open spec fn willing(profit: int, m: LiquidationMechanism) -> bool {
    profit > willing_threshold(m)
}

/// The part of a profit shared out by the keeper pool (70%).
pub open spec fn pool_share(profit: int) -> int {
    profit * 7 / 10
}

/// `parts` lists keeper indices below `n` in strictly increasing order.
pub open spec fn index_list(parts: Seq<usize>, n: int) -> bool {
    &&& forall|j: int| 0 <= j < parts.len() ==> parts[j] < n
    &&& forall|j: int, l: int| 0 <= j < l < parts.len() ==> parts[j] < parts[l]
}

/// `parts` lists exactly the keepers willing to liquidate for `profit`.
pub open spec fn participants_of(
    keepers: Seq<Keeper>,
    profit: int,
    m: LiquidationMechanism,
    parts: Seq<usize>,
) -> bool {
    &&& index_list(parts, keepers.len() as int)
    &&& forall|i: usize| #![auto]
        (i < keepers.len() && willing(profit, m)) <==> parts.contains(i)
}

/// `w` is the participant with the highest priority, the lowest index among equals.
pub open spec fn top_priority(keepers: Seq<Keeper>, parts: Seq<usize>, w: usize) -> bool {
    &&& parts.contains(w)
    &&& forall|j: int| #![auto] 0 <= j < parts.len() ==> keepers[parts[j] as int].priority <= keepers[w as int].priority
    &&& forall|j: int| #![auto] 0 <= j < parts.len() && keepers[parts[j] as int].priority
        == keepers[w as int].priority ==> w <= parts[j]
}

/// What keeper `i` is paid when `executor` carries out a liquidation worth `profit`.
pub open spec fn payout(
    m: LiquidationMechanism,
    parts: Seq<usize>,
    executor: usize,
    profit: int,
    i: usize,
) -> int {
    match m {
        LiquidationMechanism::Traditional => if i == executor { profit } else { 0 },
        LiquidationMechanism::KeeperPool => if parts.contains(i) {
            pool_share(profit) / (parts.len() as int)
        } else {
            0
        },
    }
}

/// Sum of the payouts to the first `n` participants.
pub open spec fn paid_to_participants(
    m: LiquidationMechanism,
    parts: Seq<usize>,
    executor: usize,
    profit: int,
    n: int,
) -> int
    decreases n,
{
    if n <= 0 {
        0
    } else {
        paid_to_participants(m, parts, executor, profit, n - 1) + payout(
            m,
            parts,
            executor,
            profit,
            parts[n - 1],
        )
    }
}

impl LiquidationMechanism {
    pub fn all() -> (r: Vec<LiquidationMechanism>)
        ensures
            r@ == seq![LiquidationMechanism::Traditional, LiquidationMechanism::KeeperPool],
    {
        let r = vec![LiquidationMechanism::Traditional, LiquidationMechanism::KeeperPool];
        assert(r@ =~= seq![LiquidationMechanism::Traditional, LiquidationMechanism::KeeperPool]);
        r
    }

    pub fn name(&self) -> &'static str {
        match self {
            LiquidationMechanism::Traditional => "Traditional (Winner-Takes-All)",
            LiquidationMechanism::KeeperPool => "Fair (Keeper Pool 70/30)",
        }
    }

    /// Profit above which keepers join a liquidation under this mechanism.
    pub fn threshold(&self) -> (r: u128)
        ensures
            r == willing_threshold(*self),
    {
        match self {
            LiquidationMechanism::Traditional => 50_000_000,
            LiquidationMechanism::KeeperPool => 10_000_000,
        }
    }
}

impl Keeper {
    /// Whether this keeper joins a liquidation paying `profit`.
    pub fn willing_to_liquidate(&self, profit: u128, mechanism: LiquidationMechanism) -> (r: bool)
        ensures
            r == willing(profit as int, mechanism),
    {
        profit > mechanism.threshold()
    }
}

/// All keeper indices below `n`, in order.
pub open spec fn all_indices(n: int) -> Seq<usize> {
    Seq::new(n as nat, |i: int| i as usize)
}

/// `w` has the highest priority of all keepers, the lowest index among equals.
pub open spec fn top_keeper(keepers: Seq<Keeper>, w: int) -> bool {
    &&& 0 <= w < keepers.len()
    &&& forall|i: int| 0 <= i < keepers.len() ==> #[trigger] keepers[i].priority <= keepers[w].priority
    &&& forall|i: int| 0 <= i < keepers.len() && #[trigger] keepers[i].priority == keepers[w].priority
        ==> w <= i
}

/// The top-priority participant among all keepers is the top keeper, and
/// there is only one top keeper.
pub proof fn lemma_top_keeper(keepers: Seq<Keeper>, w: usize, k: int)
    requires
        top_priority(keepers, all_indices(keepers.len() as int), w),
        w < keepers.len() <= usize::MAX,
    ensures
        top_keeper(keepers, w as int),
        top_keeper(keepers, k) <==> k == w,
{
    let parts = all_indices(keepers.len() as int);
    assert forall|i: int| 0 <= i < keepers.len() implies #[trigger] keepers[i].priority
        <= keepers[w as int].priority && (keepers[i].priority == keepers[w as int].priority ==> w <= i) by {
        assert(parts[i] == i as usize);
        assert(keepers[parts[i] as int].priority <= keepers[w as int].priority);
    }
    if top_keeper(keepers, k) {
        assert(keepers[k].priority <= keepers[w as int].priority);
        assert(keepers[w as int].priority <= keepers[k].priority);
    }
}

/// Who is the top keeper depends on the priorities alone.
pub proof fn lemma_top_keeper_by_priority(a: Seq<Keeper>, b: Seq<Keeper>, k: int)
    requires
        a.len() == b.len(),
        forall|i: int| 0 <= i < a.len() ==> #[trigger] a[i].priority == b[i].priority,
    ensures
        top_keeper(a, k) == top_keeper(b, k),
{
    if 0 <= k < a.len() {
        assert(a[k].priority == b[k].priority);
        if top_keeper(a, k) {
            assert forall|i: int| 0 <= i < b.len() implies #[trigger] b[i].priority <= b[k].priority
                && (b[i].priority == b[k].priority ==> k <= i) by {
                assert(a[i].priority == b[i].priority);
            }
        }
        if top_keeper(b, k) {
            assert forall|i: int| 0 <= i < a.len() implies #[trigger] a[i].priority <= a[k].priority
                && (a[i].priority == a[k].priority ==> k <= i) by {
                assert(a[i].priority == b[i].priority);
            }
        }
    }
}

/// Indices, in increasing order, of the keepers willing to liquidate for
/// `profit`: willingness depends on the profit alone, so that is every
/// keeper or none.
pub fn willing_keepers(keepers: &Vec<Keeper>, profit: u128, mechanism: LiquidationMechanism) -> (r:
    Vec<usize>)
    ensures
        participants_of(keepers@, profit as int, mechanism, r@),
        r@ == if willing(profit as int, mechanism) {
            all_indices(keepers.len() as int)
        } else {
            Seq::empty()
        },
{
    let mut r: Vec<usize> = Vec::new();
    let mut i: usize = 0;
    while i < keepers.len()
        invariant
            i <= keepers.len(),
            index_list(r@, i as int),
            forall|k: usize| #![auto] (k < i && willing(profit as int, mechanism)) <==> r@.contains(k),
            r@ == if willing(profit as int, mechanism) {
                all_indices(i as int)
            } else {
                Seq::empty()
            },
        decreases keepers.len() - i,
    {
        let ghost before = r@;
        if keepers[i].willing_to_liquidate(profit, mechanism) {
            r.push(i);
            assert(r@ =~= all_indices(i + 1));
            assert forall|k: usize| #![auto] (k < i + 1 && willing(profit as int, mechanism)) <==> r@.contains(k) by {
                if k < i && willing(profit as int, mechanism) {
                    assert(before.contains(k));
                    let j = choose|j: int| 0 <= j < before.len() && before[j] == k;
                    assert(r@[j] == k);
                }
                if r@.contains(k) && k != i {
                    let j = choose|j: int| 0 <= j < r@.len() && r@[j] == k;
                    assert(before[j] == k);
                    assert(before.contains(k));
                }
                if k == i {
                    assert(r@[r@.len() - 1] == k);
                }
            }
        } else {
            assert forall|k: usize| #![auto] (k < i + 1 && willing(profit as int, mechanism)) <==> r@.contains(k) by {
                if r@.contains(k) {
                    let j = choose|j: int| 0 <= j < r@.len() && r@[j] == k;
                    assert(k < i);
                }
            }
        }
        i += 1;
    }
    r
}

/// The participant with the highest priority; among equal priorities, the
/// one with the lowest index.
pub fn traditional_winner(keepers: &Vec<Keeper>, parts: &Vec<usize>) -> (w: usize)
    requires
        parts.len() > 0,
        index_list(parts@, keepers.len() as int),
    ensures
        top_priority(keepers@, parts@, w),
{
    let mut w = parts[0];
    let mut j: usize = 1;
    assert(parts@.subrange(0, 1)[0] == w);
    while j < parts.len()
        invariant
            1 <= j <= parts.len(),
            index_list(parts@, keepers.len() as int),
            parts@.subrange(0, j as int).contains(w),
            forall|l: int| #![auto] 0 <= l < j ==> keepers@[parts@[l] as int].priority
                <= keepers@[w as int].priority,
            forall|l: int| #![auto] 0 <= l < j && keepers@[parts@[l] as int].priority
                == keepers@[w as int].priority ==> w <= parts@[l],
        decreases parts.len() - j,
    {
        let ghost old_w = w;
        let ghost l0 = choose|l: int| 0 <= l < j && parts@[l] == old_w;
        let c = parts[j];
        if keepers[c].priority > keepers[w].priority {
            w = c;
            assert(parts@.subrange(0, j + 1)[j as int] == w);
        } else {
            assert(parts@.subrange(0, j + 1)[l0] == w);
            assert(l0 < j);
            assert(parts@[l0] < c);
        }
        j += 1;
    }
    assert(parts@.subrange(0, parts.len() as int) =~= parts@);
    w
}

/// Pays out one liquidation worth `profit` among the participants `parts`
/// and counts it for the executor, which it returns: under `Traditional`
/// the top-priority participant, under `KeeperPool` the participant at
/// position `pick` (a uniform draw made by the caller).
pub fn settle(
    keepers: &mut Vec<Keeper>,
    parts: &Vec<usize>,
    profit: u128,
    mechanism: LiquidationMechanism,
    pick: usize,
) -> (executor: usize)
    requires
        parts.len() > 0,
        pick < parts.len(),
        index_list(parts@, old(keepers).len() as int),
        forall|i: int| #![auto] 0 <= i < old(keepers).len() ==> old(keepers)@[i].total_profit + profit
            <= u128::MAX && old(keepers)@[i].liquidations < u64::MAX,
    ensures
        final(keepers).len() == old(keepers).len(),
        mechanism == LiquidationMechanism::Traditional ==> top_priority(old(keepers)@, parts@, executor),
        mechanism == LiquidationMechanism::KeeperPool ==> executor == parts@[pick as int],
        forall|i: int| #![auto] 0 <= i < old(keepers).len() ==> {
            &&& final(keepers)@[i].total_profit == old(keepers)@[i].total_profit + payout(
                mechanism,
                parts@,
                executor,
                profit as int,
                i as usize,
            )
            &&& final(keepers)@[i].liquidations == old(keepers)@[i].liquidations + if i == executor {
                1int
            } else {
                0int
            }
            &&& final(keepers)@[i].id == old(keepers)@[i].id
            &&& final(keepers)@[i].capital == old(keepers)@[i].capital
            &&& final(keepers)@[i].priority == old(keepers)@[i].priority
        },
{
    let ghost start = keepers@;
    let executor = match mechanism {
        LiquidationMechanism::Traditional => {
            let w = traditional_winner(keepers, parts);
            let mut k = keepers[w];
            k.total_profit = k.total_profit + profit;
            keepers.set(w, k);
            w
        },
        LiquidationMechanism::KeeperPool => {
            let per_keeper = profit / 10 * 7 + profit % 10 * 7 / 10;
            proof {
                assert(per_keeper == profit * 7 / 10) by (nonlinear_arith)
                    requires per_keeper == profit / 10 * 7 + profit % 10 * 7 / 10, profit >= 0;
            }
            let per_keeper = per_keeper / (parts.len() as u128);
            proof {
                vstd::arithmetic::div_mod::lemma_div_is_ordered_by_denominator(
                    pool_share(profit as int),
                    1,
                    parts.len() as int,
                );
                assert(pool_share(profit as int) <= profit);
            }
            let mut j: usize = 0;
            while j < parts.len()
                invariant
                    j <= parts.len(),
                    parts.len() > 0,
                    index_list(parts@, start.len() as int),
                    per_keeper == pool_share(profit as int) / (parts.len() as int),
                    per_keeper <= profit,
                    keepers.len() == start.len(),
                    forall|i: int| #![auto] 0 <= i < start.len() ==> start[i].total_profit + profit
                        <= u128::MAX,
                    forall|i: int| #![auto] 0 <= i < start.len() ==> {
                        &&& keepers@[i].total_profit == start[i].total_profit + if parts@.subrange(
                            0,
                            j as int,
                        ).contains(i as usize) {
                            per_keeper as int
                        } else {
                            0int
                        }
                        &&& keepers@[i].liquidations == start[i].liquidations
                        &&& keepers@[i].id == start[i].id
                        &&& keepers@[i].capital == start[i].capital
                        &&& keepers@[i].priority == start[i].priority
                    },
                decreases parts.len() - j,
            {
                let idx = parts[j];
                let ghost prev = keepers@;
                proof {
                    let sub0 = parts@.subrange(0, j as int);
                    if sub0.contains(idx) {
                        let l = choose|l: int| 0 <= l < sub0.len() && #[trigger] sub0[l] == idx;
                        assert(parts@[l] < parts@[j as int]);
                    }
                }
                assert(keepers@[idx as int].total_profit == start[idx as int].total_profit);
                let mut k = keepers[idx];
                k.total_profit = k.total_profit + per_keeper;
                keepers.set(idx, k);
                proof {
                    let sub0 = parts@.subrange(0, j as int);
                    let sub1 = parts@.subrange(0, j + 1);
                    assert forall|i: usize| #[trigger] sub1.contains(i) == (sub0.contains(i) || i
                        == idx) by {
                        if sub1.contains(i) {
                            let l = choose|l: int| 0 <= l < sub1.len() && #[trigger] sub1[l] == i;
                            if l < j {
                                assert(sub0[l] == i);
                            }
                        }
                        if sub0.contains(i) {
                            let l = choose|l: int| 0 <= l < sub0.len() && #[trigger] sub0[l] == i;
                            assert(sub1[l] == i);
                        }
                        if i == idx {
                            assert(sub1[j as int] == i);
                        }
                    }
                }
                j += 1;
            }
            assert(parts@.subrange(0, parts.len() as int) =~= parts@);
            parts[pick]
        },
    };
    assert(keepers@[executor as int].liquidations == start[executor as int].liquidations);
    let mut k = keepers[executor];
    k.liquidations = k.liquidations + 1;
    keepers.set(executor, k);
    executor
}

/// Under the keeper pool, every participant of a liquidation is paid the
/// same amount, and the payouts add up to the pool's 70% share of the
/// profit up to a rounding remainder smaller than the number of participants.
pub proof fn lemma_pool_split_even(parts: Seq<usize>, executor: usize, profit: int)
    requires
        parts.len() >= 1,
        profit >= 0,
        forall|j: int, l: int| 0 <= j < l < parts.len() ==> parts[j] != parts[l],
    ensures
        forall|j: int, l: int| #![auto] 0 <= j < parts.len() && 0 <= l < parts.len() ==>
            payout(LiquidationMechanism::KeeperPool, parts, executor, profit, parts[j])
            == payout(LiquidationMechanism::KeeperPool, parts, executor, profit, parts[l]),
        paid_to_participants(LiquidationMechanism::KeeperPool, parts, executor, profit, parts.len() as int)
            <= pool_share(profit),
        pool_share(profit) - paid_to_participants(
            LiquidationMechanism::KeeperPool,
            parts,
            executor,
            profit,
            parts.len() as int,
        ) < parts.len(),
{
    let k = parts.len() as int;
    let each = pool_share(profit) / k;
    assert forall|j: int| #![auto] 0 <= j < k implies payout(
        LiquidationMechanism::KeeperPool,
        parts,
        executor,
        profit,
        parts[j],
    ) == each by {
        assert(parts.contains(parts[j]));
    }
    lemma_paid_sum(parts, executor, profit, k);
    let s = pool_share(profit);
    assert(s >= 0);
    vstd::arithmetic::div_mod::lemma_fundamental_div_mod(s, k);
    assert(k * each == each * k) by (nonlinear_arith);
}

proof fn lemma_paid_sum(parts: Seq<usize>, executor: usize, profit: int, n: int)
    requires
        0 <= n <= parts.len(),
        parts.len() >= 1,
    ensures
        paid_to_participants(LiquidationMechanism::KeeperPool, parts, executor, profit, n) == n * (
        pool_share(profit) / (parts.len() as int)),
    decreases n,
{
    if n > 0 {
        lemma_paid_sum(parts, executor, profit, n - 1);
        assert(parts.contains(parts[n - 1]));
        let e = pool_share(profit) / (parts.len() as int);
        assert(payout(LiquidationMechanism::KeeperPool, parts, executor, profit, parts[n - 1]) == e);
        assert(paid_to_participants(LiquidationMechanism::KeeperPool, parts, executor, profit, n)
            == paid_to_participants(LiquidationMechanism::KeeperPool, parts, executor, profit, n - 1) + e);
        assert((n - 1) * e + e == n * e) by (nonlinear_arith);
    } else {
        let e = pool_share(profit) / (parts.len() as int);
        assert(0 * e == 0);
    }
}

/// Under the traditional mechanism exactly the executor is paid, and it is
/// paid the whole profit, which is positive whenever any keeper is willing.
pub proof fn lemma_traditional_winner_takes_all(
    parts: Seq<usize>,
    executor: usize,
    profit: int,
    i: usize,
)
    requires
        willing(profit, LiquidationMechanism::Traditional),
    ensures
        payout(LiquidationMechanism::Traditional, parts, executor, profit, executor) == profit,
        profit > 0,
        i != executor ==> payout(LiquidationMechanism::Traditional, parts, executor, profit, i) == 0,
{
}

} // verus!
