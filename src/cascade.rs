//! The cascade engine: price shocks, liquidation rounds, and the run loop.

use vstd::prelude::*;
use rand::rngs::StdRng;
use crate::position::{
    Keeper, MICRO, INITIAL_PRICE, MIN_RATIO_PPM, MAX_COLLATERAL, Position, mul_wide, position_wf,
    ratio_below, profit_of, collateral_value, scaled_value,
};
pub use crate::mechanism::LiquidationMechanism;
use crate::mechanism::{
    willing, payout, pool_share, willing_keepers, settle, top_keeper, all_indices, lemma_top_keeper,
    lemma_top_keeper_by_priority,
};
use crate::ranking::{ranked_candidates, rank_liquidatable, lemma_ranking_unique};
use crate::random::draw_in_range;
use crate::summary::{
    bad_debt_total, open_underwater_count, active_count, profit_total, peak, top_fifth_share,
    executions_total, lemma_one_more_execution, liquidated_count, lemma_one_more_liquidated,
    lemma_none_liquidated, lemma_no_executions, lemma_active_iff_executions,
    total_bad_debt, count_open_underwater, count_active, max_per_block, profit_concentration,
};
use crate::stats::{
    ppm_of, fraction_ppm, mean_of, max_of, count_above, mean, maximum, count_exceeding,
};

verus! {

pub const NUM_POSITIONS: usize = 500;
pub const NUM_KEEPERS: usize = 50;
/// Most liquidations attempted in one block.
pub const LIQUIDATIONS_PER_BLOCK: usize = 10;
/// Hard cap on the number of blocks in a run.
pub const MAX_BLOCKS: usize = 100;
/// Lowest price the engine lets the asset reach (100).
pub const PRICE_FLOOR: u64 = 100_000_000;
/// Collateral sold, in millionths, that would take the whole price away
/// (each whole unit sold costs one ten-thousandth of the price).
pub const IMPACT_DENOMINATOR: u64 = 10_000_000_000;
/// Bound on one liquidation's profit for well-formed positions.
pub const PROFIT_CAP: u128 = 18_446_744_073_709_551_615_000_000;

/// How the price is shocked at the start of each block.
#[derive(Clone, Copy, Debug, PartialEq, Eq, Structural)]
pub enum PriceScenario {
    /// Minus 2% per block for the first 10 blocks.
    GradualDecline,
    /// Minus 30% once, at block 0.
    FlashCrash,
    /// A random return every block, plus a 10% chance of a further minus 10%.
    VolatileCrash,
    /// Minus 50% at block 0, then minus 1% per block through block 19.
    BlackSwan,
}

impl PriceScenario {
    pub fn all() -> (r: Vec<PriceScenario>)
        ensures
            r@ == seq![
                PriceScenario::GradualDecline,
                PriceScenario::FlashCrash,
                PriceScenario::VolatileCrash,
                PriceScenario::BlackSwan,
            ],
    {
        let r = vec![
            PriceScenario::GradualDecline,
            PriceScenario::FlashCrash,
            PriceScenario::VolatileCrash,
            PriceScenario::BlackSwan,
        ];
        assert(r@ =~= seq![
            PriceScenario::GradualDecline,
            PriceScenario::FlashCrash,
            PriceScenario::VolatileCrash,
            PriceScenario::BlackSwan,
        ]);
        r
    }

    pub fn name(&self) -> &'static str {
        match self {
            PriceScenario::GradualDecline => "Gradual Decline (-20% over 10 blocks)",
            PriceScenario::FlashCrash => "Flash Crash (-30% instant)",
            PriceScenario::VolatileCrash => "Volatile Crash (jump-diffusion)",
            PriceScenario::BlackSwan => "Black Swan (-50% + continued decline)",
        }
    }
}

/// `price` scaled by `factor_ppm` parts per million, rounded down.
pub open spec fn scaled(price: int, factor_ppm: int) -> int {
    price * factor_ppm / 1_000_000
}

/// The price floor and the machine bound applied to a computed price.
pub open spec fn clamp_price(x: int) -> int {
    if x < PRICE_FLOOR {
        PRICE_FLOOR as int
    } else if x > u64::MAX {
        u64::MAX as int
    } else {
        x
    }
}

/// The price after the scenario's shock at `block`, before clamping.
/// `return_ppm` is the block's random simple return in ppm (`e^r - 1` for
/// the drawn log-return `r`) and `jump` whether the extra drop happens; only
/// the volatile scenario reads them.
pub open spec fn shock(
    scenario: PriceScenario,
    block: int,
    price: int,
    return_ppm: int,
    jump: bool,
) -> int {
    match scenario {
        PriceScenario::GradualDecline => if block < 10 { scaled(price, 980_000) } else { price },
        PriceScenario::FlashCrash => if block == 0 { scaled(price, 700_000) } else { price },
        PriceScenario::VolatileCrash => {
            let factor = if return_ppm > -1_000_000 { 1_000_000 + return_ppm } else { 0 };
            let p = scaled(price, factor);
            if jump { scaled(p, 900_000) } else { p }
        },
        PriceScenario::BlackSwan => if block == 0 {
            scaled(price, 500_000)
        } else if block < 20 {
            scaled(price, 990_000)
        } else {
            price
        },
    }
}

/// The price after liquidations sold `sold` millionths of collateral.
pub open spec fn impacted(price: int, sold: int) -> int {
    let s = if sold < IMPACT_DENOMINATOR { sold } else { IMPACT_DENOMINATOR as int };
    clamp_price(price * (IMPACT_DENOMINATOR - s) / (IMPACT_DENOMINATOR as int))
}

fn scale_wide(price: u128, factor_ppm: u128) -> (r: u128)
    requires
        price * factor_ppm <= u128::MAX,
    ensures
        r == scaled(price as int, factor_ppm as int),
{
    price * factor_ppm / 1_000_000
}

fn clamp_wide(x: u128) -> (r: u64)
    ensures
        r == clamp_price(x as int),
{
    if x < PRICE_FLOOR as u128 {
        PRICE_FLOOR
    } else if x > u64::MAX as u128 {
        u64::MAX
    } else {
        x as u64
    }
}

/// The price after the scenario's shock at `block`, clamped to the floor.
pub fn shocked_price(
    scenario: PriceScenario,
    block: usize,
    price: u64,
    return_ppm: i64,
    jump: bool,
) -> (r: u64)
    ensures
        r == clamp_price(shock(scenario, block as int, price as int, return_ppm as int, jump)),
{
    let p = price as u128;
    let x = match scenario {
        PriceScenario::GradualDecline => if block < 10 { scale_wide(p, 980_000) } else { p },
        PriceScenario::FlashCrash => if block == 0 { scale_wide(p, 700_000) } else { p },
        PriceScenario::VolatileCrash => {
            let factor: u128 = if return_ppm > -1_000_000 {
                (1_000_000i128 + return_ppm as i128) as u128
            } else {
                0
            };
            proof {
                assert(p * factor <= 0xffff_ffff_ffff_ffff * 0xffff_ffff_ffff_ffff) by (nonlinear_arith)
                    requires p <= 0xffff_ffff_ffff_ffff, factor <= 0xffff_ffff_ffff_ffff;
            }
            let q = scale_wide(p, factor);
            proof {
                let m = 0xffff_ffff_ffff_ffffu128 * 0xffff_ffff_ffff_ffffu128;
                vstd::arithmetic::div_mod::lemma_div_is_ordered(p * factor, m as int, 1_000_000);
                assert((m as int) / 1_000_000 * 900_000 <= m);
                assert(q * 900_000 <= (m as int) / 1_000_000 * 900_000) by (nonlinear_arith)
                    requires q <= (m as int) / 1_000_000;
            }
            if jump { scale_wide(q, 900_000) } else { q }
        },
        PriceScenario::BlackSwan => if block == 0 {
            scale_wide(p, 500_000)
        } else if block < 20 {
            scale_wide(p, 990_000)
        } else {
            p
        },
    };
    clamp_wide(x)
}

/// The price after a block's liquidations sold `sold` millionths of
/// collateral: each whole unit sold takes one ten-thousandth off the price,
/// which stays at or above the floor.
pub fn impacted_price(price: u64, sold: u64) -> (r: u64)
    ensures
        r == impacted(price as int, sold as int),
{
    let s = if sold < IMPACT_DENOMINATOR { sold } else { IMPACT_DENOMINATOR };
    let x = mul_wide(price, IMPACT_DENOMINATOR - s) / (IMPACT_DENOMINATOR as u128);
    clamp_wide(x)
}

/// A position drawn at random: collateral uniform in [1, 20) units and an
/// initial collateral ratio uniform in [150%, 250%) at the reference price.
fn random_position(id: usize, rng: &mut StdRng) -> (r: Position)
    ensures
        r.id == id,
        !r.liquidated,
        1_000_000 <= r.collateral < 20_000_000,
        position_wf(r),
        r.debt > 0,
        !ratio_below(r, INITIAL_PRICE as int, MIN_RATIO_PPM as int),
        scaled_value(r, INITIAL_PRICE as int) / (r.debt as int) < 2_500_000,
{
    let collateral = draw_in_range(rng, 1_000_000, 20_000_000);
    let ratio = draw_in_range(rng, 1_500_000, 2_500_000);
    let value = mul_wide(collateral, INITIAL_PRICE);
    let debt = value / (ratio as u128);
    proof {
        let v = value as int;
        let rt = ratio as int;
        assert(v <= 20_000_000 * 2_000_000_000);
        assert(v / rt <= v / 1_500_000) by {
            vstd::arithmetic::div_mod::lemma_div_is_ordered_by_denominator(v, 1_500_000, rt);
        }
        assert(v >= 1_000_000 * 2_000_000_000);
        assert(v / rt > 0) by (nonlinear_arith)
            requires v >= 1_000_000 * 2_000_000_000, rt < 2_500_000, rt > 0;
        assert(rt * (v / rt) <= v) by (nonlinear_arith)
            requires rt > 0, v >= 0;
        assert(1_500_000 * (v / rt) <= rt * (v / rt)) by (nonlinear_arith)
            requires rt >= 1_500_000, v / rt >= 0;
        let d = v / rt;
        assert(v < rt * d + rt) by (nonlinear_arith)
            requires rt > 0, d == v / rt, v >= 0;
        assert(d >= 800_000_000) by (nonlinear_arith)
            requires d == v / rt, v >= 2_000_000_000_000_000, rt < 2_500_000, rt > 0;
        assert(v < (rt + 1) * d) by (nonlinear_arith)
            requires v < rt * d + rt, d >= 800_000_000, rt < 2_500_000;
        assert(v / d <= rt) by (nonlinear_arith)
            requires v < (rt + 1) * d, d > 0, v >= 0;
    }
    Position::new(id, collateral, debt as u64)
}

/// A keeper drawn at random: capital uniform in [10 000, 100 000) units and
/// priority uniform in [0, 1).
fn random_keeper(id: usize, rng: &mut StdRng) -> (r: Keeper)
    ensures
        r.id == id,
        r.total_profit == 0,
        r.liquidations == 0,
        r.priority < MICRO,
{
    let capital = draw_in_range(rng, 10_000_000_000, 100_000_000_000);
    let priority = draw_in_range(rng, 0, MICRO);
    Keeper::new(id, capital, priority)
}

/// A well-formed position's liquidation profit is at most `PROFIT_CAP`.
proof fn lemma_profit_capped(p: Position, price: int)
    requires
        position_wf(p),
        0 <= price <= u64::MAX,
    ensures
        0 <= profit_of(p, price) <= PROFIT_CAP,
{
    let c = p.collateral as int;
    assert(c * price <= 1_000_000_000_000 * 0xffff_ffff_ffff_ffff) by (nonlinear_arith)
        requires 0 <= c <= 1_000_000_000_000, 0 <= price <= 0xffff_ffff_ffff_ffff;
    vstd::arithmetic::div_mod::lemma_div_is_ordered(
        c * price,
        (1_000_000_000_000 * 0xffff_ffff_ffff_ffff) as int,
        1_000_000,
    );
    assert(c * price >= 0) by (nonlinear_arith)
        requires c >= 0, price >= 0;
    let v = collateral_value(p, price);
    if v > p.debt {
        assert((v - p.debt) * 13 / 100 <= v) by (nonlinear_arith)
            requires v > p.debt, p.debt >= 0;
    }
}

/// Number of the first `n` candidates for which a keeper is willing.
pub open spec fn executed_count(
    ps: Seq<Position>,
    price: int,
    m: LiquidationMechanism,
    cands: Seq<usize>,
    n: int,
) -> int
    decreases n,
{
    if n <= 0 {
        0
    } else {
        executed_count(ps, price, m, cands, n - 1) + if willing(
            profit_of(ps[cands[n - 1] as int], price),
            m,
        ) {
            1int
        } else {
            0int
        }
    }
}

/// Collateral sold by liquidating those of the first `n` candidates for
/// which a keeper is willing.
pub open spec fn sold_amount(
    ps: Seq<Position>,
    price: int,
    m: LiquidationMechanism,
    cands: Seq<usize>,
    n: int,
) -> int
    decreases n,
{
    if n <= 0 {
        0
    } else {
        sold_amount(ps, price, m, cands, n - 1) + if willing(
            profit_of(ps[cands[n - 1] as int], price),
            m,
        ) {
            ps[cands[n - 1] as int].collateral as int
        } else {
            0int
        }
    }
}

/// What keeper `k` earns from one liquidation worth `profit` in which every
/// keeper takes part: the whole profit for the top keeper under
/// `Traditional`, an even part of the pool's share under `KeeperPool`.
pub open spec fn share_of(m: LiquidationMechanism, keepers: Seq<Keeper>, profit: int, k: int) -> int {
    match m {
        LiquidationMechanism::Traditional => if top_keeper(keepers, k) { profit } else { 0 },
        LiquidationMechanism::KeeperPool => pool_share(profit) / (keepers.len() as int),
    }
}

/// What keeper `k` earns from the first `n` candidates of a round.
pub open spec fn round_gain(
    ps: Seq<Position>,
    price: int,
    m: LiquidationMechanism,
    keepers: Seq<Keeper>,
    cands: Seq<usize>,
    n: int,
    k: int,
) -> int
    decreases n,
{
    if n <= 0 {
        0
    } else {
        let profit = profit_of(ps[cands[n - 1] as int], price);
        round_gain(ps, price, m, keepers, cands, n - 1, k) + if willing(profit, m) {
            share_of(m, keepers, profit, k)
        } else {
            0int
        }
    }
}

/// The state of one run.
pub struct CascadeSimulation {
    pub positions: Vec<Position>,
    pub keepers: Vec<Keeper>,
    /// Current price, in millionths of the numeraire.
    pub price: u64,
    pub mechanism: LiquidationMechanism,
    pub scenario: PriceScenario,
    /// Index of the block being simulated.
    pub block: usize,
    /// Number of liquidation waves that have ended.
    pub cascade_depth: usize,
    /// Liquidations in the wave under way.
    pub current_wave_liquidations: usize,
    pub total_liquidations: usize,
    pub price_history: Vec<u64>,
    pub liquidations_per_block: Vec<usize>,
}

/// What one liquidation round did: `cands` were ranked at the round's price,
/// exactly those of them with a willing keeper were liquidated (`count` of
/// them), and the price then moved by the collateral they sold.
pub open spec fn round_outcome(
    pre: CascadeSimulation,
    post: CascadeSimulation,
    cands: Seq<usize>,
    count: int,
) -> bool {
    let ps = pre.positions@;
    let price = pre.price as int;
    let m = pre.mechanism;
    &&& ranked_candidates(ps, price, LIQUIDATIONS_PER_BLOCK as int, cands)
    &&& post.positions.len() == ps.len()
    &&& forall|i: int| #![auto] 0 <= i < ps.len() ==> {
        &&& post.positions@[i].liquidated == (ps[i].liquidated || (cands.contains(i as usize)
            && willing(profit_of(ps[i], price), m)))
        &&& post.positions@[i].collateral == ps[i].collateral
        &&& post.positions@[i].debt == ps[i].debt
        &&& post.positions@[i].id == ps[i].id
    }
    &&& count == executed_count(ps, price, m, cands, cands.len() as int)
    &&& post.price == impacted(price, sold_amount(ps, price, m, cands, cands.len() as int))
    &&& post.keepers.len() == pre.keepers.len()
    &&& forall|k: int| 0 <= k < pre.keepers.len() ==> #[trigger] post.keepers@[k].total_profit
        == pre.keepers@[k].total_profit + round_gain(ps, price, m, pre.keepers@, cands, cands.len() as int, k)
    &&& m == LiquidationMechanism::Traditional ==> forall|k: int| 0 <= k < pre.keepers.len() ==>
        #[trigger] post.keepers@[k].liquidations == pre.keepers@[k].liquidations + if top_keeper(
            pre.keepers@,
            k,
        ) {
            count as int
        } else {
            0int
        }
}

/// What one run produced.
#[derive(Clone, Copy, Debug)]
pub struct CascadeResult {
    pub mechanism: LiquidationMechanism,
    pub scenario: PriceScenario,
    /// Number of liquidation waves that ended during the run.
    pub cascade_depth: usize,
    pub total_liquidations: usize,
    /// Bad debt left at the end, in millionths of the numeraire.
    pub bad_debt: u64,
    /// Blocks completed before the run stopped.
    pub blocks_to_stability: usize,
    /// Final price, in millionths of the numeraire.
    pub final_price: u64,
    /// Fall of the price from the reference price, in ppm (negative for a rise).
    pub price_drop_ppm: i64,
    /// Share of keeper profit earned by the top fifth of keepers, in ppm.
    pub profit_concentration_ppm: u64,
    /// Share of keepers that executed at least one liquidation, in ppm.
    pub participation_ppm: u64,
    /// Positions underwater at the end that were never liquidated.
    pub unliquidated_underwater: usize,
    pub max_liquidations_per_block: usize,
}

/// Fall of `final_price` from the reference price, in ppm, rounded toward zero.
pub open spec fn drop_ppm(final_price: int) -> int {
    if final_price <= INITIAL_PRICE {
        (INITIAL_PRICE - final_price) * 1_000_000 / (INITIAL_PRICE as int)
    } else {
        -((final_price - INITIAL_PRICE) * 1_000_000 / (INITIAL_PRICE as int))
    }
}

/// `r` reports the state `sim` at the end of a run.
pub open spec fn reports(sim: CascadeSimulation, r: CascadeResult) -> bool {
    let ps = sim.positions@;
    let ks = sim.keepers@;
    let price = sim.price as int;
    &&& r.mechanism == sim.mechanism
    &&& r.scenario == sim.scenario
    &&& r.cascade_depth == sim.cascade_depth
    &&& r.total_liquidations == sim.total_liquidations
    &&& r.bad_debt == bad_debt_total(ps, price, ps.len() as int)
    &&& r.blocks_to_stability == sim.block
    &&& r.final_price == sim.price
    &&& r.price_drop_ppm == drop_ppm(price)
    &&& exists|mask: Seq<bool>| #[trigger] top_fifth_share(ks, mask, r.profit_concentration_ppm as int)
    &&& (profit_total(ks, ks.len() as int) == 0 ==> r.profit_concentration_ppm == 0)
    &&& r.participation_ppm == ppm_of(active_count(ks, ks.len() as int), ks.len() as int)
    &&& r.unliquidated_underwater == open_underwater_count(ps, price, ps.len() as int)
    &&& r.max_liquidations_per_block == peak(sim.liquidations_per_block@, sim.liquidations_per_block.len() as int)
}

/// Bounds that every run's result meets.
pub open spec fn result_bounds(r: CascadeResult) -> bool {
    &&& r.cascade_depth <= r.blocks_to_stability <= MAX_BLOCKS
    &&& r.total_liquidations <= LIQUIDATIONS_PER_BLOCK * r.blocks_to_stability + LIQUIDATIONS_PER_BLOCK
    &&& r.participation_ppm <= 1_000_000
    &&& r.profit_concentration_ppm <= 1_000_000
    &&& r.max_liquidations_per_block <= LIQUIDATIONS_PER_BLOCK
    &&& r.unliquidated_underwater <= NUM_POSITIONS
    &&& r.final_price >= PRICE_FLOOR
    &&& (r.participation_ppm > 0 <==> r.total_liquidations > 0)
}

/// Which positions a liquidation round liquidates, how many, the price it
/// leaves and what each keeper earns depend only on the state before it;
/// the random source only chooses which keeper of a pool is credited with
/// an execution.
pub proof fn lemma_round_deterministic(
    pre: CascadeSimulation,
    post1: CascadeSimulation,
    post2: CascadeSimulation,
    cands1: Seq<usize>,
    cands2: Seq<usize>,
    count1: int,
    count2: int,
)
    requires
        round_outcome(pre, post1, cands1, count1),
        round_outcome(pre, post2, cands2, count2),
    ensures
        cands1 == cands2,
        count1 == count2,
        post1.positions@ == post2.positions@,
        post1.price == post2.price,
        forall|k: int| 0 <= k < pre.keepers.len() ==> #[trigger] post1.keepers@[k].total_profit
            == post2.keepers@[k].total_profit,
        pre.mechanism == LiquidationMechanism::Traditional ==> forall|k: int| 0 <= k < pre.keepers.len()
            ==> #[trigger] post1.keepers@[k].liquidations == post2.keepers@[k].liquidations,
{
    lemma_ranking_unique(
        pre.positions@,
        pre.price as int,
        LIQUIDATIONS_PER_BLOCK as int,
        cands1,
        cands2,
    );
    assert forall|i: int| 0 <= i < post1.positions@.len() implies post1.positions@[i]
        == post2.positions@[i] by {
        let p0 = pre.positions@[i];
        let p1 = post1.positions@[i];
        let p2 = post2.positions@[i];
        assert(p1.collateral == p0.collateral && p2.collateral == p0.collateral);
        assert(p1.liquidated == p2.liquidated && p1.collateral == p2.collateral && p1.debt == p2.debt
            && p1.id == p2.id);
    }
    assert(post1.positions@ =~= post2.positions@);
    assert forall|k: int| 0 <= k < pre.keepers.len() implies #[trigger] post1.keepers@[k].total_profit
        == post2.keepers@[k].total_profit by {
        assert(post1.keepers@[k].total_profit == pre.keepers@[k].total_profit + round_gain(
            pre.positions@, pre.price as int, pre.mechanism, pre.keepers@, cands1, cands1.len() as int, k));
        assert(post2.keepers@[k].total_profit == pre.keepers@[k].total_profit + round_gain(
            pre.positions@, pre.price as int, pre.mechanism, pre.keepers@, cands2, cands2.len() as int, k));
    }
    if pre.mechanism == LiquidationMechanism::Traditional {
        assert forall|k: int| 0 <= k < pre.keepers.len() implies #[trigger] post1.keepers@[k].liquidations
            == post2.keepers@[k].liquidations by {
            let bonus = if top_keeper(pre.keepers@, k) { count1 } else { 0int };
            assert(post1.keepers@[k].liquidations == pre.keepers@[k].liquidations + bonus);
            assert(post2.keepers@[k].liquidations == pre.keepers@[k].liquidations + bonus);
        }
    }
}

impl CascadeSimulation {
    /// A run state that no block has touched yet.
    pub open spec fn fresh(&self) -> bool {
        fresh_state(*self)
    }

    /// Invariant of a run between blocks.
    pub open spec fn wf(&self) -> bool {
        &&& self.positions.len() == NUM_POSITIONS
        &&& forall|i: int| #![auto] 0 <= i < self.positions.len() ==> position_wf(self.positions@[i])
        &&& self.keepers.len() == NUM_KEEPERS
        &&& self.price >= PRICE_FLOOR
        &&& self.block <= MAX_BLOCKS
        &&& self.total_liquidations <= LIQUIDATIONS_PER_BLOCK * self.block
        &&& self.current_wave_liquidations <= self.total_liquidations
        &&& self.cascade_depth + (if self.current_wave_liquidations > 0 { 1int } else { 0int })
            <= self.block
        &&& forall|k: int| #![auto] 0 <= k < self.keepers.len() ==> {
            &&& self.keepers@[k].total_profit <= self.total_liquidations * PROFIT_CAP
            &&& self.keepers@[k].liquidations <= self.total_liquidations
        }
    }

    /// A fresh run: 500 random positions, 50 random keepers, the reference
    /// price, block 0.
    pub fn new(mechanism: LiquidationMechanism, scenario: PriceScenario, rng: &mut StdRng) -> (r:
        CascadeSimulation)
        ensures
            r.wf(),
            r.fresh(),
            r.block == 0,
            r.mechanism == mechanism,
            r.scenario == scenario,
            r.price == INITIAL_PRICE,
            r.cascade_depth == 0,
            r.current_wave_liquidations == 0,
            r.total_liquidations == 0,
            r.liquidations_per_block@.len() == 0,
            r.price_history@ == seq![INITIAL_PRICE],
            forall|i: int| #![auto] 0 <= i < r.positions.len() ==> {
                &&& r.positions@[i].id == i
                &&& scaled_value(r.positions@[i], INITIAL_PRICE as int) / (r.positions@[i].debt as int)
                    < 2_500_000
                &&& !r.positions@[i].liquidated
                &&& 1_000_000 <= r.positions@[i].collateral < 20_000_000
                &&& r.positions@[i].debt > 0
                &&& !ratio_below(r.positions@[i], INITIAL_PRICE as int, MIN_RATIO_PPM as int)
            },
            forall|k: int| #![auto] 0 <= k < r.keepers.len() ==> r.keepers@[k].total_profit == 0
                && r.keepers@[k].liquidations == 0 && r.keepers@[k].priority < MICRO
                && r.keepers@[k].id == k,
    {
        let mut positions: Vec<Position> = Vec::new();
        let mut i: usize = 0;
        while i < NUM_POSITIONS
            invariant
                i <= NUM_POSITIONS,
                positions.len() == i,
                forall|j: int| #![auto] 0 <= j < i ==> {
                    &&& positions@[j].id == j
                    &&& scaled_value(positions@[j], INITIAL_PRICE as int) / (positions@[j].debt as int)
                        < 2_500_000
                    &&& position_wf(positions@[j])
                    &&& !positions@[j].liquidated
                    &&& 1_000_000 <= positions@[j].collateral < 20_000_000
                    &&& positions@[j].debt > 0
                    &&& !ratio_below(positions@[j], INITIAL_PRICE as int, MIN_RATIO_PPM as int)
                },
            decreases NUM_POSITIONS - i,
        {
            positions.push(random_position(i, rng));
            i += 1;
        }
        let mut keepers: Vec<Keeper> = Vec::new();
        let mut k: usize = 0;
        while k < NUM_KEEPERS
            invariant
                k <= NUM_KEEPERS,
                keepers.len() == k,
                forall|j: int| #![auto] 0 <= j < k ==> keepers@[j].total_profit == 0
                    && keepers@[j].liquidations == 0 && keepers@[j].priority < MICRO
                    && keepers@[j].id == j,
            decreases NUM_KEEPERS - k,
        {
            keepers.push(random_keeper(k, rng));
            k += 1;
        }
        CascadeSimulation {
            positions,
            keepers,
            price: INITIAL_PRICE,
            mechanism,
            scenario,
            block: 0,
            cascade_depth: 0,
            current_wave_liquidations: 0,
            total_liquidations: 0,
            price_history: vec![INITIAL_PRICE],
            liquidations_per_block: Vec::new(),
        }
    }

    /// Applies the scenario's shock for the current block and records the
    /// new price.
    pub fn apply_price_shock(&mut self, return_ppm: i64, jump: bool)
        ensures
            final(self).price == clamp_price(
                shock(old(self).scenario, old(self).block as int, old(self).price as int, return_ppm as int, jump),
            ),
            final(self).price_history@ == old(self).price_history@.push(final(self).price),
            final(self).positions == old(self).positions,
            final(self).keepers == old(self).keepers,
            final(self).mechanism == old(self).mechanism,
            final(self).scenario == old(self).scenario,
            final(self).block == old(self).block,
            final(self).cascade_depth == old(self).cascade_depth,
            final(self).current_wave_liquidations == old(self).current_wave_liquidations,
            final(self).total_liquidations == old(self).total_liquidations,
            final(self).liquidations_per_block == old(self).liquidations_per_block,
    {
        self.price = shocked_price(self.scenario, self.block, self.price, return_ppm, jump);
        self.price_history.push(self.price);
    }

    /// Liquidates, at the current price, the up-to-10 most undercollateralized
    /// liquidatable positions that find a willing keeper, pays the keepers
    /// through the mechanism, applies the price impact of the collateral
    /// sold, and returns how many positions were liquidated. `rng` picks the
    /// executor under the keeper pool.
    pub fn run_liquidation_round(&mut self, rng: &mut StdRng) -> (count: usize)
        requires
            old(self).positions.len() == NUM_POSITIONS,
            forall|i: int| #![auto] 0 <= i < old(self).positions.len() ==> position_wf(old(self).positions@[i]),
            old(self).keepers.len() == NUM_KEEPERS,
            old(self).total_liquidations <= LIQUIDATIONS_PER_BLOCK * MAX_BLOCKS,
            forall|k: int| #![auto] 0 <= k < old(self).keepers.len() ==> {
                &&& old(self).keepers@[k].total_profit <= old(self).total_liquidations * PROFIT_CAP
                &&& old(self).keepers@[k].liquidations <= old(self).total_liquidations
            },
        ensures
            count <= LIQUIDATIONS_PER_BLOCK,
            exists|cands: Seq<usize>| round_outcome(*old(self), *final(self), cands, count as int),
            forall|i: int| #![auto] 0 <= i < final(self).positions.len() ==> position_wf(final(self).positions@[i]),
            final(self).keepers.len() == NUM_KEEPERS,
            forall|k: int| 0 <= k < final(self).keepers.len() ==> {
                &&& #[trigger] final(self).keepers@[k].total_profit <= (old(self).total_liquidations + count) * PROFIT_CAP
                &&& final(self).keepers@[k].liquidations <= old(self).total_liquidations + count
                &&& final(self).keepers@[k].total_profit >= old(self).keepers@[k].total_profit
                &&& final(self).keepers@[k].liquidations >= old(self).keepers@[k].liquidations
                &&& final(self).keepers@[k].priority == old(self).keepers@[k].priority
                &&& final(self).keepers@[k].id == old(self).keepers@[k].id
                &&& final(self).keepers@[k].capital == old(self).keepers@[k].capital
            },
            liquidated_count(final(self).positions@, NUM_POSITIONS as int) == liquidated_count(
                old(self).positions@,
                NUM_POSITIONS as int,
            ) + count,
            executions_total(final(self).keepers@, NUM_KEEPERS as int) == executions_total(
                old(self).keepers@,
                NUM_KEEPERS as int,
            ) + count,
            final(self).mechanism == old(self).mechanism,
            final(self).scenario == old(self).scenario,
            final(self).block == old(self).block,
            final(self).cascade_depth == old(self).cascade_depth,
            final(self).current_wave_liquidations == old(self).current_wave_liquidations,
            final(self).total_liquidations == old(self).total_liquidations,
            final(self).liquidations_per_block == old(self).liquidations_per_block,
            final(self).price_history == old(self).price_history,
    {
        let ghost pre = *self;
        let ghost ps0 = pre.positions@;
        let price = self.price;
        let mechanism = self.mechanism;
        let t = self.total_liquidations;
        let cands = rank_liquidatable(&self.positions, price, LIQUIDATIONS_PER_BLOCK);
        let mut count: usize = 0;
        let mut sold: u64 = 0;
        let mut j: usize = 0;
        while j < cands.len()
            invariant
                j <= cands.len(),
                ranked_candidates(ps0, price as int, LIQUIDATIONS_PER_BLOCK as int, cands@),
                self.positions.len() == ps0.len(),
                self.price == price,
                self.mechanism == mechanism,
                self.mechanism == pre.mechanism,
                self.scenario == pre.scenario,
                self.block == pre.block,
                self.cascade_depth == pre.cascade_depth,
                self.current_wave_liquidations == pre.current_wave_liquidations,
                self.total_liquidations == t,
                self.liquidations_per_block == pre.liquidations_per_block,
                self.price_history == pre.price_history,
                pre.positions@ == ps0,
                pre.price == price,
                pre.mechanism == mechanism,
                t <= LIQUIDATIONS_PER_BLOCK * MAX_BLOCKS,
                forall|i: int| #![auto] 0 <= i < ps0.len() ==> position_wf(ps0[i]),
                forall|i: int| #![auto] 0 <= i < ps0.len() ==> {
                    &&& self.positions@[i].liquidated == (ps0[i].liquidated || (cands@.subrange(
                        0,
                        j as int,
                    ).contains(i as usize) && willing(profit_of(ps0[i], price as int), mechanism)))
                    &&& self.positions@[i].collateral == ps0[i].collateral
                    &&& self.positions@[i].debt == ps0[i].debt
                    &&& self.positions@[i].id == ps0[i].id
                },
                count == executed_count(ps0, price as int, mechanism, cands@, j as int),
                count <= j,
                sold == sold_amount(ps0, price as int, mechanism, cands@, j as int),
                sold <= j * MAX_COLLATERAL,
                self.keepers.len() == NUM_KEEPERS,
                forall|k: int| 0 <= k < self.keepers.len() ==> {
                    &&& #[trigger] self.keepers@[k].total_profit <= (t + count) * PROFIT_CAP
                    &&& self.keepers@[k].liquidations <= t + count
                    &&& self.keepers@[k].total_profit >= pre.keepers@[k].total_profit
                    &&& self.keepers@[k].liquidations >= pre.keepers@[k].liquidations
                    &&& self.keepers@[k].priority == pre.keepers@[k].priority
                    &&& self.keepers@[k].id == pre.keepers@[k].id
                    &&& self.keepers@[k].capital == pre.keepers@[k].capital
                },
                pre.keepers.len() == NUM_KEEPERS,
                ps0.len() == NUM_POSITIONS,
                liquidated_count(self.positions@, NUM_POSITIONS as int) == liquidated_count(
                    ps0,
                    NUM_POSITIONS as int,
                ) + count,
                forall|k: int| 0 <= k < NUM_KEEPERS ==> #[trigger] self.keepers@[k].total_profit
                    == pre.keepers@[k].total_profit + round_gain(ps0, price as int, mechanism, pre.keepers@, cands@, j as int, k),
                mechanism == LiquidationMechanism::Traditional ==> forall|k: int| 0 <= k < NUM_KEEPERS ==>
                    #[trigger] self.keepers@[k].liquidations == pre.keepers@[k].liquidations + if top_keeper(
                        pre.keepers@,
                        k,
                    ) {
                        count as int
                    } else {
                        0int
                    },
                executions_total(self.keepers@, NUM_KEEPERS as int) == executions_total(
                    pre.keepers@,
                    NUM_KEEPERS as int,
                ) + count,
            decreases cands.len() - j,
        {
            let idx = cands[j];
            let ghost before = self.positions@;
            let ghost sub0 = cands@.subrange(0, j as int);
            let ghost sub1 = cands@.subrange(0, j + 1);
            proof {
                assert(sub1 =~= sub0.push(idx));
                if sub0.contains(idx) {
                    let l = choose|l: int| 0 <= l < sub0.len() && #[trigger] sub0[l] == idx;
                    assert(cands@[l] == idx);
                    assert(crate::ranking::ranks_before(ps0, cands@[l] as int, cands@[j as int] as int));
                }
                assert(!sub0.contains(idx));
                assert(self.positions@[idx as int] == ps0[idx as int]);
                lemma_profit_capped(ps0[idx as int], price as int);
            }
            let profit = self.positions[idx].liquidation_profit(price);
            let parts = willing_keepers(&self.keepers, profit, mechanism);
            proof {
                if willing(profit as int, mechanism) {
                    assert(parts@.contains(0usize));
                }
            }
            if parts.len() > 0 {
                assert(parts@.contains(parts@[0]));
                let pick: usize = match mechanism {
                    LiquidationMechanism::Traditional => 0,
                    LiquidationMechanism::KeeperPool => draw_in_range(rng, 0, parts.len() as u64) as usize,
                };
                let ghost kb = self.keepers@;
                proof {
                    assert forall|k: int| 0 <= k < kb.len() implies #[trigger] kb[k].total_profit + profit
                        <= u128::MAX && kb[k].liquidations < u64::MAX by {
                        assert(self.keepers@[k].total_profit <= (t + count) * PROFIT_CAP);
                        assert((t + count) * PROFIT_CAP + PROFIT_CAP <= 1011 * PROFIT_CAP) by (nonlinear_arith)
                            requires t + count <= 1010;
                    }
                }
                let executor = settle(&mut self.keepers, &parts, profit, mechanism, pick);
                proof {
                    assert forall|k: int| 0 <= k < NUM_KEEPERS implies #[trigger] kb[k].priority
                        == pre.keepers@[k].priority by {
                        assert(kb[k].total_profit <= (t + count) * PROFIT_CAP);
                    }
                    assert forall|k: int| 0 <= k < NUM_KEEPERS implies {
                        &&& #[trigger] self.keepers@[k].total_profit == pre.keepers@[k].total_profit
                            + round_gain(ps0, price as int, mechanism, pre.keepers@, cands@, j + 1, k)
                        &&& mechanism == LiquidationMechanism::Traditional ==> self.keepers@[k].liquidations
                            == pre.keepers@[k].liquidations + if top_keeper(pre.keepers@, k) {
                            count + 1
                        } else {
                            0int
                        }
                    } by {
                        assert(kb[k].total_profit == pre.keepers@[k].total_profit + round_gain(
                            ps0, price as int, mechanism, pre.keepers@, cands@, j as int, k));
                        lemma_top_keeper_by_priority(kb, pre.keepers@, k);
                        if mechanism == LiquidationMechanism::Traditional {
                            lemma_top_keeper(kb, executor, k);
                        } else {
                            assert(parts@[k] == k as usize);
                            assert(parts@.contains(k as usize));
                        }
                    }
                }
                proof {
                    lemma_one_more_execution(kb, self.keepers@, executor as int, NUM_KEEPERS as int);
                    assert forall|k: int| 0 <= k < self.keepers.len() implies {
                        &&& #[trigger] self.keepers@[k].total_profit <= (t + count + 1) * PROFIT_CAP
                        &&& self.keepers@[k].liquidations <= t + count + 1
                        &&& self.keepers@[k].total_profit >= pre.keepers@[k].total_profit
                        &&& self.keepers@[k].liquidations >= pre.keepers@[k].liquidations
                        &&& self.keepers@[k].priority == pre.keepers@[k].priority
                        &&& self.keepers@[k].id == pre.keepers@[k].id
                        &&& self.keepers@[k].capital == pre.keepers@[k].capital
                    } by {
                        assert(kb[k].total_profit >= pre.keepers@[k].total_profit);
                        let pay = payout(mechanism, parts@, executor, profit as int, k as usize);
                        if mechanism == LiquidationMechanism::KeeperPool && parts@.contains(k as usize) {
                            vstd::arithmetic::div_mod::lemma_div_is_ordered_by_denominator(
                                pool_share(profit as int),
                                1,
                                parts.len() as int,
                            );
                        }
                        assert(pay <= profit);
                        assert(pay >= 0) by {
                            if mechanism == LiquidationMechanism::KeeperPool && parts@.contains(k as usize) {
                                vstd::arithmetic::div_mod::lemma_div_pos_is_pos(
                                    pool_share(profit as int),
                                    parts.len() as int,
                                );
                            }
                        }
                        assert((t + count) * PROFIT_CAP + PROFIT_CAP == (t + count + 1) * PROFIT_CAP) by (nonlinear_arith);
                    }
                }
                sold = sold + self.positions[idx].collateral;
                let ghost pb = self.positions@;
                let mut p = self.positions[idx];
                p.liquidated = true;
                self.positions.set(idx, p);
                proof {
                    assert(!pb[idx as int].liquidated) by {
                        assert(crate::position::liquidatable(ps0[idx as int], price as int));
                    }
                    assert forall|i: int| 0 <= i < pb.len() && i != idx implies self.positions@[i].liquidated
                        == pb[i].liquidated by {}
                    lemma_one_more_liquidated(pb, self.positions@, idx as int, NUM_POSITIONS as int);
                }
                count = count + 1;
            }
            proof {
                assert forall|k: int| 0 <= k < NUM_KEEPERS implies #[trigger] self.keepers@[k].total_profit
                    == pre.keepers@[k].total_profit + round_gain(ps0, price as int, mechanism, pre.keepers@, cands@, j + 1, k) by {
                    assert(round_gain(ps0, price as int, mechanism, pre.keepers@, cands@, j + 1, k)
                        == round_gain(ps0, price as int, mechanism, pre.keepers@, cands@, j as int, k) + if willing(profit as int, mechanism) {
                        share_of(mechanism, pre.keepers@, profit as int, k)
                    } else {
                        0int
                    });
                }
                assert forall|i: int| #![auto] 0 <= i < ps0.len() implies self.positions@[i].liquidated
                    == (ps0[i].liquidated || (sub1.contains(i as usize) && willing(
                    profit_of(ps0[i], price as int),
                    mechanism,
                ))) by {
                    if i != idx {
                        if sub1.contains(i as usize) {
                            let l = choose|l: int| 0 <= l < sub1.len() && #[trigger] sub1[l] == i as usize;
                            assert(sub0[l] == i as usize);
                        }
                        if sub0.contains(i as usize) {
                            let l = choose|l: int| 0 <= l < sub0.len() && #[trigger] sub0[l] == i as usize;
                            assert(sub1[l] == i as usize);
                        }
                    } else {
                        assert(sub1[j as int] == idx);
                    }
                }
                assert((j + 1) * MAX_COLLATERAL == j * MAX_COLLATERAL + MAX_COLLATERAL) by (nonlinear_arith);
            }
            j += 1;
        }
        proof {
            assert(cands@.subrange(0, cands.len() as int) =~= cands@);
        }
        self.price = impacted_price(price, sold);
        assert forall|i: int| #![auto] 0 <= i < self.positions.len() implies position_wf(self.positions@[i]) by {
            assert(position_wf(ps0[i]));
        }
        assert(round_outcome(pre, *self, cands@, count as int));
        count
    }

    /// The result for the run's current state.
    pub fn summarize(&self) -> (r: CascadeResult)
        requires
            self.wf(),
            forall|b: int| 0 <= b < self.liquidations_per_block.len() ==> self.liquidations_per_block@[b]
                <= LIQUIDATIONS_PER_BLOCK,
        ensures
            reports(*self, r),
            r.max_liquidations_per_block <= LIQUIDATIONS_PER_BLOCK,
            r.participation_ppm <= 1_000_000,
            r.profit_concentration_ppm <= 1_000_000,
            r.unliquidated_underwater <= NUM_POSITIONS,
    {
        proof {
            assert forall|k: int| #![auto] 0 <= k < self.keepers.len() implies self.keepers@[k].total_profit
                <= 0xffff_ffff_ffff_ffff_ffff_ffff by {
                assert(self.total_liquidations * PROFIT_CAP <= 1000 * PROFIT_CAP) by (nonlinear_arith)
                    requires self.total_liquidations <= 1000;
            }
        }
        let bad_debt = total_bad_debt(&self.positions, self.price);
        let concentration = profit_concentration(&self.keepers);
        let active = count_active(&self.keepers);
        let participation = fraction_ppm(active, self.keepers.len());
        let underwater = count_open_underwater(&self.positions, self.price);
        let drop: i64 = if self.price <= INITIAL_PRICE {
            ((INITIAL_PRICE - self.price) as u128 * 1_000_000 / (INITIAL_PRICE as u128)) as i64
        } else {
            proof {
                assert((self.price - INITIAL_PRICE) * 1_000_000 / 2_000_000_000 <= 0xffff_ffff_ffff_ffff) by (nonlinear_arith)
                    requires self.price <= 0xffff_ffff_ffff_ffff, self.price > 2_000_000_000;
            }
            -(((self.price - INITIAL_PRICE) as u128 * 1_000_000 / (INITIAL_PRICE as u128)) as i64)
        };
        let peak_count = max_per_block(&self.liquidations_per_block);
        proof {
            crate::summary::lemma_peak_bounded(
                self.liquidations_per_block@,
                self.liquidations_per_block.len() as int,
                LIQUIDATIONS_PER_BLOCK as int,
            );
        }
        assert(drop == drop_ppm(self.price as int));
        let r = CascadeResult {
            mechanism: self.mechanism,
            scenario: self.scenario,
            cascade_depth: self.cascade_depth,
            total_liquidations: self.total_liquidations,
            bad_debt,
            blocks_to_stability: self.block,
            final_price: self.price,
            price_drop_ppm: drop,
            profit_concentration_ppm: concentration,
            participation_ppm: participation,
            unliquidated_underwater: underwater,
            max_liquidations_per_block: peak_count,
        };
        proof {
            let mask = choose|mask: Seq<bool>| #[trigger] top_fifth_share(self.keepers@, mask, concentration as int);
            assert(top_fifth_share(self.keepers@, mask, r.profit_concentration_ppm as int));
        }
        r
    }

    /// Runs blocks until the block cap, or until the first block, once at
    /// least 10 blocks have elapsed, that ends five blocks in a row without
    /// a liquidation, and reports the outcome.
    /// Under the volatile scenario `volatile_returns[b]` is block `b`'s
    /// random simple return in ppm (`e^r - 1` for its log-return `r`);
    /// `rng` draws the extra drops and the executors.
    #[verifier::rlimit(60)]
    pub fn run(&mut self, rng: &mut StdRng, volatile_returns: &Vec<i64>) -> (r: CascadeResult)
        requires
            old(self).fresh(),
            old(self).scenario == PriceScenario::VolatileCrash ==> volatile_returns.len() >= MAX_BLOCKS,
        ensures
            run_complete(*final(self)),
            reports(*final(self), r),
            result_bounds(r),
            final(self).mechanism == old(self).mechanism,
            final(self).scenario == old(self).scenario,
            r.mechanism == old(self).mechanism,
            r.scenario == old(self).scenario,
    {
        let ghost k0 = self.keepers@;
        proof {
            lemma_none_liquidated(self.positions@, NUM_POSITIONS as int);
            lemma_no_executions(self.keepers@, NUM_KEEPERS as int);
        }
        let mut empty_streak: usize = 0;
        let mut stable = false;
        while self.block < MAX_BLOCKS && !stable
            invariant
                self.wf(),
                self.mechanism == old(self).mechanism,
                self.scenario == old(self).scenario,
                self.scenario == PriceScenario::VolatileCrash ==> volatile_returns.len() >= MAX_BLOCKS,
                self.liquidations_per_block.len() == self.block + if stable { 1int } else { 0int },
                stable ==> self.block < MAX_BLOCKS && stops_at(self.liquidations_per_block@, self.block as int),
                forall|b: int| 0 <= b < self.block ==> !#[trigger] stops_at(self.liquidations_per_block@, b),
                forall|b: int| 0 <= b < self.liquidations_per_block.len() ==> self.liquidations_per_block@[b]
                    <= LIQUIDATIONS_PER_BLOCK,
                empty_streak <= self.liquidations_per_block.len(),
                forall|b: int| self.liquidations_per_block.len() - empty_streak <= b
                    < self.liquidations_per_block.len() ==> #[trigger] self.liquidations_per_block@[b] == 0,
                empty_streak < self.liquidations_per_block.len() ==> self.liquidations_per_block@[
                    self.liquidations_per_block.len() - 1 - empty_streak] > 0,
                run_history(*self),
                (self.current_wave_liquidations > 0) == (self.liquidations_per_block.len() > 0
                    && self.liquidations_per_block@[self.liquidations_per_block.len() - 1] > 0),
                2 * self.cascade_depth + (if self.current_wave_liquidations > 0 { 1int } else { 0int })
                    <= self.liquidations_per_block.len(),
            decreases MAX_BLOCKS - self.block, if stable { 0int } else { 1int },
        {
            let (ret, jump) = match self.scenario {
                PriceScenario::VolatileCrash => {
                    let ret = volatile_returns[self.block];
                    let jump = draw_in_range(rng, 0, 10) == 0;
                    (ret, jump)
                },
                _ => (0i64, false),
            };
            self.apply_price_shock(ret, jump);
            let ghost mid = *self;
            let ghost t0 = self.total_liquidations;
            let ghost l0 = self.liquidations_per_block@;
            let n = self.run_liquidation_round(rng);
            proof {
                let cands = choose|cands: Seq<usize>| round_outcome(mid, *self, cands, n as int);
                assert(round_outcome(mid, *self, cands, n as int));
                assert forall|k: int| 0 <= k < self.keepers.len() implies {
                    &&& #[trigger] self.keepers@[k].total_profit <= (t0 + n) * PROFIT_CAP
                    &&& self.keepers@[k].liquidations <= t0 + n
                } by {
                    assert(self.keepers@[k].total_profit <= (t0 + n) * PROFIT_CAP);
                }
                assert forall|k: int| 0 <= k < NUM_KEEPERS implies #[trigger] self.keepers@[k].priority
                    == mid.keepers@[k].priority by {
                    assert(self.keepers@[k].total_profit <= (t0 + n) * PROFIT_CAP);
                }
                lemma_keepers_after_round(mid, *self, cands, n as int);
            }
            self.liquidations_per_block.push(n);
            self.total_liquidations = self.total_liquidations + n;
            let ghost l1 = self.liquidations_per_block@;
            proof {
                assert(l1.drop_last() =~= l0);
                assert forall|b: int| 0 <= b < l0.len() implies stops_at(l1, b) == stops_at(l0, b) by {
                    if b >= 4 {
                        assert forall|i: int| b - 4 <= i <= b implies l1[i] == l0[i] by {}
                    }
                }
            }
            if n > 0 {
                self.current_wave_liquidations = self.current_wave_liquidations + n;
                empty_streak = 0;
            } else {
                if self.current_wave_liquidations > 0 {
                    self.cascade_depth = self.cascade_depth + 1;
                }
                self.current_wave_liquidations = 0;
                empty_streak = empty_streak + 1;
                if empty_streak >= 5 && self.block >= MIN_BLOCKS_ELAPSED - 1 {
                    stable = true;
                }
            }
            proof {
                let len1 = l1.len() as int;
                assert(l1[len1 - 1] == n);
                if empty_streak >= 5 {
                    assert forall|i: int| len1 - 5 <= i <= len1 - 1 implies l1[i] == 0 by {
                        assert(len1 - empty_streak <= i);
                    }
                } else if empty_streak < len1 {
                    assert(l1[len1 - 1 - empty_streak] > 0);
                }
                assert(stops_at(l1, self.block as int) == stable);
            }
            if !stable {
                self.block = self.block + 1;
            }
        }
        let r = self.summarize();
        proof {
            let ks = self.keepers@;
            lemma_active_iff_executions(ks, NUM_KEEPERS as int);
            let a = active_count(ks, NUM_KEEPERS as int);
            assert(a * 1_000_000 / 50 == a * 20_000) by (nonlinear_arith)
                requires a >= 0;
        }
        r
    }
}

/// Number of liquidations recorded over the blocks of `l`.
pub open spec fn block_sum(l: Seq<usize>) -> int
    decreases l.len(),
{
    if l.len() == 0 {
        0
    } else {
        block_sum(l.drop_last()) + l.last()
    }
}

/// Number of liquidation waves that an empty block closed: blocks with no
/// liquidation right after a block with some.
pub open spec fn closed_waves(l: Seq<usize>) -> int
    decreases l.len(),
{
    if l.len() <= 1 {
        0
    } else {
        closed_waves(l.drop_last()) + if l.last() == 0 && l[l.len() - 2] > 0 {
            1int
        } else {
            0int
        }
    }
}

/// Blocks that must have elapsed before a run may stop early.
pub const MIN_BLOCKS_ELAPSED: usize = 10;

/// The run stops at block `b`: at least 10 blocks have elapsed and `b`
/// ends five blocks in a row without a liquidation.
pub open spec fn stops_at(l: Seq<usize>, b: int) -> bool {
    &&& b + 1 >= MIN_BLOCKS_ELAPSED
    &&& 0 <= b < l.len()
    &&& forall|i: int| b - 4 <= i <= b ==> #[trigger] l[i] == 0
}

/// A run state that no block has touched yet.
pub open spec fn fresh_state(s: CascadeSimulation) -> bool {
    &&& s.wf()
    &&& s.block == 0
    &&& s.liquidations_per_block.len() == 0
    &&& s.total_liquidations == 0
    &&& s.cascade_depth == 0
    &&& s.current_wave_liquidations == 0
    &&& forall|k: int| 0 <= k < s.keepers.len() ==> #[trigger] s.keepers@[k].total_profit == 0
        && s.keepers@[k].liquidations == 0
    &&& forall|i: int| 0 <= i < s.positions.len() ==> !#[trigger] s.positions@[i].liquidated
}

/// Only the top keeper has earned or executed anything, and it executed
/// `total` liquidations.
pub open spec fn sole_winner(ks: Seq<Keeper>, total: int) -> bool {
    forall|k: int| 0 <= k < ks.len() ==> {
        &&& !top_keeper(ks, k) ==> (#[trigger] ks[k]).total_profit == 0 && ks[k].liquidations == 0
        &&& top_keeper(ks, k) ==> ks[k].liquidations == total
    }
}

/// Every keeper has earned the same.
pub open spec fn even_profits(ks: Seq<Keeper>) -> bool {
    forall|k: int| 0 <= k < ks.len() ==> (#[trigger] ks[k]).total_profit == ks[0].total_profit
}

/// The tallies of a run agree with its recorded blocks: liquidations add up
/// over blocks, keeper executions and liquidated positions; the depth counts
/// the waves closed; under `Traditional` only the top keeper ever acts, and
/// under the keeper pool every keeper has earned the same.
pub open spec fn run_history(s: CascadeSimulation) -> bool {
    let l = s.liquidations_per_block@;
    let ks = s.keepers@;
    &&& s.total_liquidations == block_sum(l)
    &&& executions_total(ks, NUM_KEEPERS as int) == s.total_liquidations
    &&& liquidated_count(s.positions@, NUM_POSITIONS as int) == s.total_liquidations
    &&& s.cascade_depth == closed_waves(l)
    &&& s.mechanism == LiquidationMechanism::Traditional ==> sole_winner(ks, s.total_liquidations as int)
    &&& s.mechanism == LiquidationMechanism::KeeperPool ==> even_profits(ks)
}

/// The state a run ends in: it stopped at the first block allowed to end it,
/// or after all 100 blocks, and its tallies agree with its recorded blocks.
pub open spec fn run_complete(s: CascadeSimulation) -> bool {
    let l = s.liquidations_per_block@;
    &&& s.wf()
    &&& run_history(s)
    &&& 2 * s.cascade_depth <= l.len()
    &&& forall|b: int| 0 <= b < l.len() ==> l[b] <= LIQUIDATIONS_PER_BLOCK
    &&& forall|b: int| 0 <= b < s.block ==> !#[trigger] stops_at(l, b)
    &&& if s.block < MAX_BLOCKS {
        l.len() == s.block + 1 && stops_at(l, s.block as int)
    } else {
        l.len() == MAX_BLOCKS
    }
}

/// `r` is what a complete run of `mechanism` under `scenario` reports.
pub open spec fn run_outcome(r: CascadeResult, mechanism: LiquidationMechanism, scenario: PriceScenario) -> bool {
    &&& result_bounds(r)
    &&& r.mechanism == mechanism
    &&& r.scenario == scenario
    &&& exists|s: CascadeSimulation| #[trigger] run_complete(s) && s.mechanism == mechanism
        && s.scenario == scenario && reports(s, r)
}

/// What keeper `k` gains in a round is zero under `Traditional` unless it is
/// the top keeper.
proof fn lemma_gain_zero(
    ps: Seq<Position>,
    price: int,
    keepers: Seq<Keeper>,
    cands: Seq<usize>,
    n: int,
    k: int,
)
    requires
        !top_keeper(keepers, k),
    ensures
        round_gain(ps, price, LiquidationMechanism::Traditional, keepers, cands, n, k) == 0,
    decreases n,
{
    if n > 0 {
        lemma_gain_zero(ps, price, keepers, cands, n - 1, k);
    }
}

/// Under the keeper pool every keeper gains the same in a round.
proof fn lemma_gain_uniform(
    ps: Seq<Position>,
    price: int,
    keepers: Seq<Keeper>,
    cands: Seq<usize>,
    n: int,
    k: int,
)
    ensures
        round_gain(ps, price, LiquidationMechanism::KeeperPool, keepers, cands, n, k) == round_gain(
            ps,
            price,
            LiquidationMechanism::KeeperPool,
            keepers,
            cands,
            n,
            0,
        ),
    decreases n,
{
    if n > 0 {
        lemma_gain_uniform(ps, price, keepers, cands, n - 1, k);
    }
}

/// A round keeps the keeper clauses of `run_history`.
proof fn lemma_keepers_after_round(pre: CascadeSimulation, post: CascadeSimulation, cands: Seq<usize>, n: int)
    requires
        round_outcome(pre, post, cands, n),
        pre.keepers.len() == NUM_KEEPERS,
        forall|k: int| 0 <= k < NUM_KEEPERS ==> #[trigger] post.keepers@[k].priority == pre.keepers@[k].priority,
        pre.mechanism == LiquidationMechanism::Traditional ==> sole_winner(pre.keepers@, pre.total_liquidations as int),
        pre.mechanism == LiquidationMechanism::KeeperPool ==> even_profits(pre.keepers@),
    ensures
        pre.mechanism == LiquidationMechanism::Traditional ==> sole_winner(post.keepers@, pre.total_liquidations + n),
        pre.mechanism == LiquidationMechanism::KeeperPool ==> even_profits(post.keepers@),
{
    let ps = pre.positions@;
    let price = pre.price as int;
    let m = pre.mechanism;
    let len = cands.len() as int;
    let kp = pre.keepers@;
    let kq = post.keepers@;
    if m == LiquidationMechanism::Traditional {
        assert forall|k: int| 0 <= k < kq.len() implies {
            &&& !top_keeper(kq, k) ==> (#[trigger] kq[k]).total_profit == 0 && kq[k].liquidations == 0
            &&& top_keeper(kq, k) ==> kq[k].liquidations == pre.total_liquidations + n
        } by {
            lemma_top_keeper_by_priority(kq, kp, k);
            assert(!top_keeper(kp, k) ==> kp[k].total_profit == 0 && kp[k].liquidations == 0);
            assert(top_keeper(kp, k) ==> kp[k].liquidations == pre.total_liquidations);
            assert(kq[k].total_profit == kp[k].total_profit + round_gain(ps, price, m, kp, cands, len, k));
            assert(kq[k].liquidations == kp[k].liquidations + if top_keeper(kp, k) { n } else { 0int });
            if !top_keeper(kp, k) {
                lemma_gain_zero(ps, price, kp, cands, len, k);
            }
        }
        assert(sole_winner(kq, pre.total_liquidations + n));
    } else {
        assert forall|k: int| 0 <= k < kq.len() implies (#[trigger] kq[k]).total_profit == kq[0].total_profit by {
            lemma_gain_uniform(ps, price, kp, cands, len, k);
            assert(kp[k].total_profit == kp[0].total_profit);
            assert(kq[k].total_profit == kp[k].total_profit + round_gain(ps, price, m, kp, cands, len, k));
            assert(kq[0].total_profit == kp[0].total_profit + round_gain(ps, price, m, kp, cands, len, 0));
        }
    }
}

/// One complete run: fresh random positions and keepers, then the block loop.
pub fn run_once(
    mechanism: LiquidationMechanism,
    scenario: PriceScenario,
    rng: &mut StdRng,
    volatile_returns: &Vec<i64>,
) -> (r: CascadeResult)
    requires
        scenario == PriceScenario::VolatileCrash ==> volatile_returns.len() >= MAX_BLOCKS,
    ensures
        run_outcome(r, mechanism, scenario),
{
    let mut sim = CascadeSimulation::new(mechanism, scenario, rng);
    let r = sim.run(rng, volatile_returns);
    assert(run_complete(sim) && sim.mechanism == mechanism && sim.scenario == scenario && reports(sim, r));
    r
}

/// `runs` independent runs. Under the volatile scenario run `i` reads its
/// per-block returns from `volatile_paths[i]`.
pub fn run_cascade_simulation(
    mechanism: LiquidationMechanism,
    scenario: PriceScenario,
    runs: usize,
    rng: &mut StdRng,
    volatile_paths: &Vec<Vec<i64>>,
) -> (r: Vec<CascadeResult>)
    requires
        scenario == PriceScenario::VolatileCrash ==> volatile_paths.len() >= runs && forall|i: int|
            #![auto] 0 <= i < runs ==> volatile_paths@[i].len() >= MAX_BLOCKS,
    ensures
        r.len() == runs,
        forall|i: int| 0 <= i < runs ==> run_outcome(#[trigger] r@[i], mechanism, scenario),
{
    let empty: Vec<i64> = Vec::new();
    let mut results: Vec<CascadeResult> = Vec::new();
    let mut i: usize = 0;
    while i < runs
        invariant
            i <= runs,
            results.len() == i,
            scenario == PriceScenario::VolatileCrash ==> volatile_paths.len() >= runs && forall|k: int|
                #![auto] 0 <= k < runs ==> volatile_paths@[k].len() >= MAX_BLOCKS,
            forall|k: int| 0 <= k < i ==> run_outcome(#[trigger] results@[k], mechanism, scenario),
        decreases runs - i,
    {
        let r = if i < volatile_paths.len() {
            run_once(mechanism, scenario, rng, &volatile_paths[i])
        } else {
            run_once(mechanism, scenario, rng, &empty)
        };
        results.push(r);
        i += 1;
    }
    results
}

/// A numeric field of a run's result.
#[derive(Clone, Copy, Debug, PartialEq, Eq, Structural)]
pub enum ResultField {
    CascadeDepth,
    Liquidations,
    BadDebt,
    Blocks,
    Concentration,
    Participation,
    Unliquidated,
    /// The price drop shifted by 2^63, so that it is never negative.
    ShiftedDrop,
}

/// 2^63: added to a signed value to make it unsigned with the same order.
pub const SIGN_SHIFT: u64 = 0x8000_0000_0000_0000;

pub open spec fn field_of(r: CascadeResult, f: ResultField) -> u64 {
    match f {
        ResultField::CascadeDepth => r.cascade_depth as u64,
        ResultField::Liquidations => r.total_liquidations as u64,
        ResultField::BadDebt => r.bad_debt,
        ResultField::Blocks => r.blocks_to_stability as u64,
        ResultField::Concentration => r.profit_concentration_ppm,
        ResultField::Participation => r.participation_ppm,
        ResultField::Unliquidated => r.unliquidated_underwater as u64,
        ResultField::ShiftedDrop => (r.price_drop_ppm + SIGN_SHIFT) as u64,
    }
}

/// The values of one field across a batch of results.
pub open spec fn column_of(results: Seq<CascadeResult>, f: ResultField) -> Seq<u64> {
    results.map_values(|r: CascadeResult| field_of(r, f))
}

/// The values of field `f` across `results`, in order.
pub fn column(results: &Vec<CascadeResult>, f: ResultField) -> (r: Vec<u64>)
    ensures
        r@ == column_of(results@, f),
{
    let mut v: Vec<u64> = Vec::new();
    let mut i: usize = 0;
    while i < results.len()
        invariant
            i <= results.len(),
            v@ == column_of(results@.subrange(0, i as int), f),
        decreases results.len() - i,
    {
        let r = results[i];
        let x: u64 = match f {
            ResultField::CascadeDepth => r.cascade_depth as u64,
            ResultField::Liquidations => r.total_liquidations as u64,
            ResultField::BadDebt => r.bad_debt,
            ResultField::Blocks => r.blocks_to_stability as u64,
            ResultField::Concentration => r.profit_concentration_ppm,
            ResultField::Participation => r.participation_ppm,
            ResultField::Unliquidated => r.unliquidated_underwater as u64,
            ResultField::ShiftedDrop => (r.price_drop_ppm as i128 + SIGN_SHIFT as i128) as u64,
        };
        v.push(x);
        assert(column_of(results@.subrange(0, i + 1), f) =~= column_of(results@.subrange(0, i as int), f).push(x));
        i += 1;
    }
    assert(results@.subrange(0, i as int) =~= results@);
    v
}

/// Averages of a batch of runs of one mechanism under one scenario.
#[derive(Clone, Copy, Debug)]
pub struct AggregatedCascadeResult {
    pub mechanism: LiquidationMechanism,
    pub scenario: PriceScenario,
    pub runs: usize,
    pub avg_cascade_depth: u64,
    pub avg_liquidations: u64,
    pub avg_bad_debt: u64,
    pub max_bad_debt: u64,
    pub avg_blocks_to_stability: u64,
    pub avg_price_drop_ppm: i64,
    pub avg_profit_concentration_ppm: u64,
    pub avg_participation_ppm: u64,
    pub avg_unliquidated: u64,
    /// Share of runs that ended with bad debt, in ppm.
    pub bad_debt_frequency_ppm: u64,
}

/// Means (rounded down), the largest bad debt and the frequency of bad
/// debt over a batch, with the mechanism and scenario of its first run.
/// An empty batch gives zero everywhere, under `Traditional` and
/// `GradualDecline`.
pub fn aggregate_results(results: &Vec<CascadeResult>) -> (r: AggregatedCascadeResult)
    ensures
        r.mechanism == if results.len() == 0 {
            LiquidationMechanism::Traditional
        } else {
            results@[0].mechanism
        },
        r.scenario == if results.len() == 0 {
            PriceScenario::GradualDecline
        } else {
            results@[0].scenario
        },
        r.runs == results.len(),
        r.avg_cascade_depth == mean_of(column_of(results@, ResultField::CascadeDepth)),
        r.avg_liquidations == mean_of(column_of(results@, ResultField::Liquidations)),
        r.avg_bad_debt == mean_of(column_of(results@, ResultField::BadDebt)),
        r.max_bad_debt == max_of(column_of(results@, ResultField::BadDebt)),
        r.avg_blocks_to_stability == mean_of(column_of(results@, ResultField::Blocks)),
        r.avg_price_drop_ppm == if results.len() == 0 {
            0
        } else {
            mean_of(column_of(results@, ResultField::ShiftedDrop)) - SIGN_SHIFT
        },
        r.avg_profit_concentration_ppm == mean_of(column_of(results@, ResultField::Concentration)),
        r.avg_participation_ppm == mean_of(column_of(results@, ResultField::Participation)),
        r.avg_unliquidated == mean_of(column_of(results@, ResultField::Unliquidated)),
        r.bad_debt_frequency_ppm == ppm_of(
            count_above(column_of(results@, ResultField::BadDebt), 0),
            results.len() as int,
        ),
        results.len() == 0 ==> r.avg_cascade_depth == 0 && r.avg_liquidations == 0
            && r.avg_bad_debt == 0 && r.max_bad_debt == 0 && r.avg_blocks_to_stability == 0
            && r.avg_profit_concentration_ppm == 0 && r.avg_participation_ppm == 0
            && r.avg_unliquidated == 0 && r.bad_debt_frequency_ppm == 0,
{
    if results.len() == 0 {
        proof {
            assert(max_of(column_of(results@, ResultField::BadDebt)) == 0);
            assert(count_above(column_of(results@, ResultField::BadDebt), 0) == 0);
        }
        return AggregatedCascadeResult {
            mechanism: LiquidationMechanism::Traditional,
            scenario: PriceScenario::GradualDecline,
            runs: 0,
            avg_cascade_depth: 0,
            avg_liquidations: 0,
            avg_bad_debt: 0,
            max_bad_debt: 0,
            avg_blocks_to_stability: 0,
            avg_price_drop_ppm: 0,
            avg_profit_concentration_ppm: 0,
            avg_participation_ppm: 0,
            avg_unliquidated: 0,
            bad_debt_frequency_ppm: 0,
        };
    }
    let bad_debts = column(results, ResultField::BadDebt);
    let with_bad_debt = count_exceeding(&bad_debts, 0);
    proof {
        crate::stats::lemma_count_above_bounded(bad_debts@, 0);
    }
    let shifted = mean(&column(results, ResultField::ShiftedDrop));
    AggregatedCascadeResult {
        mechanism: results[0].mechanism,
        scenario: results[0].scenario,
        runs: results.len(),
        avg_cascade_depth: mean(&column(results, ResultField::CascadeDepth)),
        avg_liquidations: mean(&column(results, ResultField::Liquidations)),
        avg_bad_debt: mean(&bad_debts),
        max_bad_debt: maximum(&bad_debts),
        avg_blocks_to_stability: mean(&column(results, ResultField::Blocks)),
        avg_price_drop_ppm: (shifted as i128 - SIGN_SHIFT as i128) as i64,
        avg_profit_concentration_ppm: mean(&column(results, ResultField::Concentration)),
        avg_participation_ppm: mean(&column(results, ResultField::Participation)),
        avg_unliquidated: mean(&column(results, ResultField::Unliquidated)),
        bad_debt_frequency_ppm: fraction_ppm(with_bad_debt, results.len()),
    }
}

} // verus!
