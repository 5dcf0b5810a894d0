//! Collateralized debt positions and the keepers that liquidate them.

use vstd::prelude::*;

verus! {

/// One unit in fixed point: prices and debt are in millionths of the
/// numeraire, collateral in millionths of the volatile asset, ratios in ppm.
pub const MICRO: u64 = 1_000_000;

/// Reference price of the volatile asset at the start of a run (2000).
pub const INITIAL_PRICE: u64 = 2_000_000_000;

/// Minimum collateral ratio, in ppm (150%).
pub const MIN_RATIO_PPM: u64 = 1_500_000;

/// Share of the surplus over debt paid to liquidators, in percent.
pub const LIQUIDATION_PENALTY_PCT: u64 = 13;

/// Largest collateral a well-formed position holds (one million units).
pub const MAX_COLLATERAL: u64 = 1_000_000_000_000;

/// Largest debt a well-formed position owes (one billion units).
pub const MAX_DEBT: u64 = 1_000_000_000_000_000;

/// The exact product of two 64-bit values.
pub fn mul_wide(a: u64, b: u64) -> (r: u128)
    ensures
        r == a * b,
        r <= 0xffff_ffff_ffff_ffffu128 * 0xffff_ffff_ffff_ffffu128,
{
    proof {
        assert((a as int) * (b as int) <= 0xffff_ffff_ffff_ffff * 0xffff_ffff_ffff_ffff) by (nonlinear_arith)
            requires a <= 0xffff_ffff_ffff_ffffu64, b <= 0xffff_ffff_ffff_ffffu64, a >= 0, b >= 0;
    }
    (a as u128) * (b as u128)
}

/// A collateralized debt position.
#[derive(Clone, Copy, Debug)]
pub struct Position {
    pub id: usize,
    /// Collateral, in millionths of the volatile asset.
    pub collateral: u64,
    /// Debt, in millionths of the numeraire.
    pub debt: u64,
    pub liquidated: bool,
}

/// Collateral value times one million, at `price`.
pub open spec fn scaled_value(p: Position, price: int) -> int {
    p.collateral * price
}

/// Collateral ratio in ppm at `price`; `None` stands for an infinite ratio.
pub open spec fn ratio_ppm(p: Position, price: int) -> Option<int> {
    if p.debt == 0 {
        None
    } else {
        Some(scaled_value(p, price) / (p.debt as int))
    }
}

/// The collateral ratio lies strictly below `threshold_ppm`.
pub open spec fn ratio_below(p: Position, price: int, threshold_ppm: int) -> bool {
    p.debt > 0 && scaled_value(p, price) < threshold_ppm * p.debt
}

pub open spec fn underwater(p: Position, price: int) -> bool {
    ratio_below(p, price, MICRO as int)
}

pub open spec fn liquidatable(p: Position, price: int) -> bool {
    !p.liquidated && ratio_below(p, price, MIN_RATIO_PPM as int)
}

/// Collateral value at `price`, in millionths of the numeraire.
pub open spec fn collateral_value(p: Position, price: int) -> int {
    scaled_value(p, price) / (MICRO as int)
}

pub open spec fn profit_of(p: Position, price: int) -> int {
    if collateral_value(p, price) > p.debt {
        (collateral_value(p, price) - p.debt) * (LIQUIDATION_PENALTY_PCT as int) / 100
    } else {
        0
    }
}

pub open spec fn bad_debt_of(p: Position, price: int) -> int {
    if underwater(p, price) && !p.liquidated {
        p.debt - collateral_value(p, price)
    } else {
        0
    }
}

pub open spec fn position_wf(p: Position) -> bool {
    p.collateral <= MAX_COLLATERAL && p.debt <= MAX_DEBT
}

impl Position {
    /// A position that is not yet liquidated.
    pub fn new(id: usize, collateral: u64, debt: u64) -> (r: Position)
        ensures
            r.id == id,
            r.collateral == collateral,
            r.debt == debt,
            !r.liquidated,
    {
        Position { id, collateral, debt, liquidated: false }
    }

    /// Collateral ratio in ppm at `price`, rounded down; `None` when the
    /// position owes nothing (the ratio is infinite).
    pub fn collateral_ratio(&self, price: u64) -> (r: Option<u128>)
        ensures
            r is None <==> self.debt == 0,
            r matches Some(v) ==> ratio_ppm(*self, price as int) == Some(v as int),
    {
        if self.debt == 0 {
            None
        } else {
            Some(mul_wide(self.collateral, price) / (self.debt as u128))
        }
    }

    pub fn is_underwater(&self, price: u64) -> (r: bool)
        ensures
            r == underwater(*self, price as int),
    {
        self.debt > 0 && mul_wide(self.collateral, price) < mul_wide(MICRO, self.debt)
    }

    pub fn is_liquidatable(&self, price: u64) -> (r: bool)
        ensures
            r == liquidatable(*self, price as int),
    {
        !self.liquidated && self.debt > 0 && mul_wide(self.collateral, price) < mul_wide(
            MIN_RATIO_PPM,
            self.debt,
        )
    }

    /// Collateral value at `price`, in millionths of the numeraire.
    pub fn collateral_value(&self, price: u64) -> (r: u128)
        ensures
            r == collateral_value(*self, price as int),
            r <= 0xffff_ffff_ffff_ffffu128 * 0xffff_ffff_ffff_ffffu128 / 1_000_000,
    {
        let v = mul_wide(self.collateral, price);
        proof {
            lemma_div_monotone(
                v as int,
                0xffff_ffff_ffff_ffffu128 * 0xffff_ffff_ffff_ffffu128,
                1_000_000,
            );
        }
        v / (MICRO as u128)
    }

    /// The liquidator's reward: the penalty share of the surplus of
    /// collateral value over debt, or zero when there is no surplus.
    pub fn liquidation_profit(&self, price: u64) -> (r: u128)
        ensures
            r == profit_of(*self, price as int),
    {
        let value = self.collateral_value(price);
        if value > self.debt as u128 {
            assert((value - self.debt) * 13 <= 0xffff_ffff_ffff_ffff_ffff_ffff_ffff_ffff) by (nonlinear_arith)
                requires value > self.debt, value <= 0xffff_ffff_ffff_ffffu128 * 0xffff_ffff_ffff_ffffu128 / 1_000_000;
            (value - self.debt as u128) * (LIQUIDATION_PENALTY_PCT as u128) / 100
        } else {
            0
        }
    }

    /// Shortfall of collateral value under debt for an underwater position
    /// that was never liquidated; zero otherwise.
    pub fn bad_debt(&self, price: u64) -> (r: u64)
        ensures
            r == bad_debt_of(*self, price as int),
            r <= self.debt,
    {
        if self.is_underwater(price) && !self.liquidated {
            let value = self.collateral_value(price);
            proof {
                let s = scaled_value(*self, price as int);
                assert(s < (MICRO as int) * self.debt);
                assert(s / (MICRO as int) < self.debt as int) by (nonlinear_arith)
                    requires s < 1_000_000 * (self.debt as int), s >= 0;
            }
            self.debt - value as u64
        } else {
            0
        }
    }
}

/// The collateral ratio does not decrease as the price rises, and an
/// underwater position that is still open is liquidatable.
pub proof fn lemma_ratio_monotone(p: Position, lo: int, hi: int)
    requires
        0 <= lo <= hi,
    ensures
        p.debt > 0 ==> ratio_ppm(p, lo).unwrap() <= ratio_ppm(p, hi).unwrap(),
        underwater(p, lo) ==> ratio_ppm(p, lo).unwrap() < MICRO,
        underwater(p, lo) && !p.liquidated ==> liquidatable(p, lo),
{
    if p.debt > 0 {
        let d = p.debt as int;
        let c = p.collateral as int;
        assert(c * lo <= c * hi) by (nonlinear_arith)
            requires 0 <= lo <= hi, c >= 0;
        lemma_div_monotone(c * lo, c * hi, d);
        if underwater(p, lo) {
            assert(c * lo < 1_000_000 * d);
            assert((c * lo) / d < 1_000_000) by (nonlinear_arith)
                requires c * lo < 1_000_000 * d, d > 0, c * lo >= 0;
        }
    }
}

proof fn lemma_div_monotone(a: int, b: int, d: int)
    requires
        0 <= a <= b,
        d > 0,
    ensures
        a / d <= b / d,
{
    vstd::arithmetic::div_mod::lemma_div_is_ordered(a, b, d);
}

/// A liquidating agent.
#[derive(Clone, Copy, Debug)]
pub struct Keeper {
    pub id: usize,
    /// Capital on hand, in millionths of the numeraire (informational).
    pub capital: u64,
    /// Transaction-ordering advantage, in ppm.
    pub priority: u64,
    /// Profit earned so far, in millionths of the numeraire.
    pub total_profit: u128,
    /// Liquidations this keeper executed.
    pub liquidations: u64,
}

impl Keeper {
    /// A keeper with no profit and no liquidations yet.
    pub fn new(id: usize, capital: u64, priority: u64) -> (r: Keeper)
        ensures
            r.id == id,
            r.capital == capital,
            r.priority == priority,
            r.total_profit == 0,
            r.liquidations == 0,
    {
        Keeper { id, capital, priority, total_profit: 0, liquidations: 0 }
    }
}

} // verus!
