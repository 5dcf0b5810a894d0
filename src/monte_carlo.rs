//! Monte Carlo batches keyed on bad debt: value-at-risk, expected
//! shortfall, and the probabilities of bad debt and of insolvency.

use vstd::prelude::*;
use rand::rngs::StdRng;
use crate::mechanism::LiquidationMechanism;
use crate::cascade::{
    CascadeResult, PriceScenario, ResultField, column, column_of, run_cascade_simulation,
    run_outcome, MAX_BLOCKS,
};
use crate::cascade::field_of;
use crate::stats::{
    lemma_single_outcome_stats, sorted_ascending, value_at_risk, expected_shortfall_of, mean_of, max_of, count_above, ppm_of,
    sorted_copy, percentile, expected_shortfall, mean, maximum, count_exceeding, fraction_ppm,
    lemma_count_above_bounded,
};

verus! {

/// Bad debt above which the system counts as insolvent (100 000).
pub const INSOLVENCY_THRESHOLD: u64 = 100_000_000_000;

/// Stochastic price models; each drives the cascade through the scenario
/// that `scenario_for` maps it to.
#[derive(Clone, Copy, Debug, PartialEq, Eq, Structural)]
pub enum PriceModel {
    GBM,
    JumpDiffusion,
    GARCH,
    HistoricalMar2020,
    HistoricalMay2021,
    HistoricalNov2022,
}

pub open spec fn scenario_of(model: PriceModel) -> PriceScenario {
    match model {
        PriceModel::GBM | PriceModel::GARCH => PriceScenario::VolatileCrash,
        PriceModel::JumpDiffusion => PriceScenario::FlashCrash,
        _ => PriceScenario::BlackSwan,
    }
}

impl PriceModel {
    pub fn all() -> (r: Vec<PriceModel>)
        ensures
            r@ == seq![
                PriceModel::GBM,
                PriceModel::JumpDiffusion,
                PriceModel::GARCH,
                PriceModel::HistoricalMar2020,
                PriceModel::HistoricalMay2021,
                PriceModel::HistoricalNov2022,
            ],
    {
        let r = vec![
            PriceModel::GBM,
            PriceModel::JumpDiffusion,
            PriceModel::GARCH,
            PriceModel::HistoricalMar2020,
            PriceModel::HistoricalMay2021,
            PriceModel::HistoricalNov2022,
        ];
        assert(r@ =~= seq![
            PriceModel::GBM,
            PriceModel::JumpDiffusion,
            PriceModel::GARCH,
            PriceModel::HistoricalMar2020,
            PriceModel::HistoricalMay2021,
            PriceModel::HistoricalNov2022,
        ]);
        r
    }

    pub fn name(&self) -> &'static str {
        match self {
            PriceModel::GBM => "GBM (baseline)",
            PriceModel::JumpDiffusion => "Jump-Diffusion",
            PriceModel::GARCH => "GARCH",
            PriceModel::HistoricalMar2020 => "Historical: Mar 2020",
            PriceModel::HistoricalMay2021 => "Historical: May 2021",
            PriceModel::HistoricalNov2022 => "Historical: Nov 2022",
        }
    }

    /// The cascade scenario this model drives: diffusion models the volatile
    /// crash, jump-diffusion the flash crash, historical replays the black swan.
    pub fn scenario_for(&self) -> (r: PriceScenario)
        ensures
            r == scenario_of(*self),
    {
        match self {
            PriceModel::GBM | PriceModel::GARCH => PriceScenario::VolatileCrash,
            PriceModel::JumpDiffusion => PriceScenario::FlashCrash,
            _ => PriceScenario::BlackSwan,
        }
    }
}

/// Tail statistics of a batch.
#[derive(Clone, Debug)]
pub struct MonteCarloResult {
    pub model: PriceModel,
    pub mechanism: LiquidationMechanism,
    pub runs: usize,
    pub bad_debts: Vec<u64>,
    pub price_drops: Vec<i64>,
    pub liquidation_counts: Vec<usize>,
    pub participation_rates: Vec<u64>,
    pub var_95: u64,
    pub var_99: u64,
    pub var_999: u64,
    pub cvar_95: u64,
    pub cvar_99: u64,
    /// Share of runs with bad debt, in ppm.
    pub bad_debt_probability_ppm: u64,
    /// Share of runs with bad debt above the insolvency threshold, in ppm.
    pub insolvency_probability_ppm: u64,
    pub mean_bad_debt: u64,
    pub max_bad_debt: u64,
}

/// The risk figures of `r` are those of the bad debts `bd`, read off their
/// ascending order `sorted`.
pub open spec fn risk_of(bd: Seq<u64>, sorted: Seq<u64>, r: MonteCarloResult) -> bool {
    &&& sorted_ascending(sorted)
    &&& sorted.to_multiset() == bd.to_multiset()
    &&& r.var_95 == value_at_risk(sorted, 950)
    &&& r.var_99 == value_at_risk(sorted, 990)
    &&& r.var_999 == value_at_risk(sorted, 999)
    &&& r.cvar_95 == expected_shortfall_of(sorted, 950)
    &&& r.cvar_99 == expected_shortfall_of(sorted, 990)
}

/// A batch of a single run reproduces that run: every risk figure, the mean
/// and the maximum equal its bad debt.
pub proof fn lemma_single_run_batch(bd: Seq<u64>, sorted: Seq<u64>, r: MonteCarloResult)
    requires
        bd.len() == 1,
        risk_of(bd, sorted, r),
        r.mean_bad_debt == mean_of(bd),
        r.max_bad_debt == max_of(bd),
    ensures
        r.var_95 == bd[0],
        r.var_99 == bd[0],
        r.var_999 == bd[0],
        r.cvar_95 == bd[0],
        r.cvar_99 == bd[0],
        r.mean_bad_debt == bd[0],
        r.max_bad_debt == bd[0],
{
    broadcast use vstd::seq_lib::group_to_multiset_ensures;

    assert(sorted.len() == 1) by {
        assert(sorted.to_multiset().len() == bd.to_multiset().len());
    }
    assert(sorted.to_multiset().count(sorted[0]) > 0);
    assert(bd.to_multiset().contains(sorted[0]));
    assert(sorted[0] == bd[0]);
    assert(sorted =~= seq![bd[0]]);
    assert(bd =~= seq![bd[0]]);
    lemma_single_outcome_stats(bd[0], 950);
    lemma_single_outcome_stats(bd[0], 990);
    lemma_single_outcome_stats(bd[0], 999);
}

/// Averaging a batch of a single run gives back each field of that run.
pub proof fn lemma_single_run_average(results: Seq<CascadeResult>, f: ResultField)
    requires
        results.len() == 1,
    ensures
        mean_of(column_of(results, f)) == field_of(results[0], f),
        max_of(column_of(results, f)) == field_of(results[0], f),
{
    assert(column_of(results, f) =~= seq![field_of(results[0], f)]);
    lemma_single_outcome_stats(field_of(results[0], f), 0);
}

/// `r` holds the statistics of the batch `results`: its vectors list each
/// run's bad debt, price drop, liquidations and participation in run order,
/// and its figures are read off those bad debts.
pub open spec fn summarizes(
    results: Seq<CascadeResult>,
    model: PriceModel,
    mechanism: LiquidationMechanism,
    r: MonteCarloResult,
) -> bool {
    &&& r.model == model
    &&& r.mechanism == mechanism
    &&& r.runs == results.len()
    &&& r.bad_debts@ == column_of(results, ResultField::BadDebt)
    &&& r.price_drops.len() == results.len()
    &&& forall|i: int| 0 <= i < results.len() ==> #[trigger] r.price_drops@[i] == results[i].price_drop_ppm
    &&& r.liquidation_counts.len() == results.len()
    &&& forall|i: int| 0 <= i < results.len() ==> #[trigger] r.liquidation_counts@[i]
        == results[i].total_liquidations
    &&& r.participation_rates@ == column_of(results, ResultField::Participation)
    &&& exists|sorted: Seq<u64>| #[trigger] risk_of(r.bad_debts@, sorted, r)
    &&& r.bad_debt_probability_ppm == ppm_of(count_above(r.bad_debts@, 0), results.len() as int)
    &&& r.insolvency_probability_ppm == ppm_of(
        count_above(r.bad_debts@, INSOLVENCY_THRESHOLD as int),
        results.len() as int,
    )
    &&& r.mean_bad_debt == mean_of(r.bad_debts@)
    &&& r.max_bad_debt == max_of(r.bad_debts@)
}

/// `r` summarizes `runs` complete runs of `mechanism` under the scenario
/// that `model` maps to.
pub open spec fn monte_carlo_outcome(
    model: PriceModel,
    mechanism: LiquidationMechanism,
    runs: int,
    r: MonteCarloResult,
) -> bool {
    &&& r.model == model
    &&& r.mechanism == mechanism
    &&& r.runs == runs
    &&& r.bad_debts.len() == runs
    &&& exists|results: Seq<CascadeResult>| #[trigger] summarizes(results, model, mechanism, r)
        && results.len() == runs && forall|i: int| 0 <= i < runs ==> run_outcome(
        #[trigger] results[i],
        mechanism,
        scenario_of(model),
    )
}

/// The statistics of a batch of results.
pub fn summarize_batch(
    model: PriceModel,
    mechanism: LiquidationMechanism,
    results: &Vec<CascadeResult>,
) -> (r: MonteCarloResult)
    ensures
        summarizes(results@, model, mechanism, r),
{
    let bad_debts = column(results, ResultField::BadDebt);
    let participation_rates = column(results, ResultField::Participation);
    let mut price_drops: Vec<i64> = Vec::new();
    let mut liquidation_counts: Vec<usize> = Vec::new();
    let mut i: usize = 0;
    while i < results.len()
        invariant
            i <= results.len(),
            price_drops.len() == i,
            liquidation_counts.len() == i,
            forall|k: int| #![auto] 0 <= k < i ==> price_drops@[k] == results@[k].price_drop_ppm,
            forall|k: int| #![auto] 0 <= k < i ==> liquidation_counts@[k] == results@[k].total_liquidations,
        decreases results.len() - i,
    {
        price_drops.push(results[i].price_drop_ppm);
        liquidation_counts.push(results[i].total_liquidations);
        i += 1;
    }
    let sorted = sorted_copy(&bad_debts);
    let n = results.len();
    let with_bad_debt = count_exceeding(&bad_debts, 0);
    let insolvent = count_exceeding(&bad_debts, INSOLVENCY_THRESHOLD);
    proof {
        lemma_count_above_bounded(bad_debts@, 0);
        lemma_count_above_bounded(bad_debts@, INSOLVENCY_THRESHOLD as int);
    }
    let r = MonteCarloResult {
        model,
        mechanism,
        runs: n,
        var_95: percentile(&sorted, 950),
        var_99: percentile(&sorted, 990),
        var_999: percentile(&sorted, 999),
        cvar_95: expected_shortfall(&sorted, 950),
        cvar_99: expected_shortfall(&sorted, 990),
        bad_debt_probability_ppm: fraction_ppm(with_bad_debt, n),
        insolvency_probability_ppm: fraction_ppm(insolvent, n),
        mean_bad_debt: mean(&bad_debts),
        max_bad_debt: maximum(&bad_debts),
        bad_debts,
        price_drops,
        liquidation_counts,
        participation_rates,
    };
    assert(risk_of(r.bad_debts@, sorted@, r));
    assert(summarizes(results@, model, mechanism, r));
    r
}

/// `runs` cascade runs under the scenario that `model` maps to, summarized.
/// When that scenario is the volatile crash, run `i` reads its per-block
/// returns from `volatile_paths[i]`.
pub fn run_monte_carlo(
    model: PriceModel,
    mechanism: LiquidationMechanism,
    runs: usize,
    rng: &mut StdRng,
    volatile_paths: &Vec<Vec<i64>>,
) -> (r: MonteCarloResult)
    requires
        scenario_of(model) == PriceScenario::VolatileCrash ==> volatile_paths.len() >= runs && forall|i: int|
            #![auto] 0 <= i < runs ==> volatile_paths@[i].len() >= MAX_BLOCKS,
    ensures
        monte_carlo_outcome(model, mechanism, runs as int, r),
{
    let scenario = model.scenario_for();
    let results = run_cascade_simulation(mechanism, scenario, runs, rng, volatile_paths);
    let r = summarize_batch(model, mechanism, &results);
    proof {
        assert(summarizes(results@, model, mechanism, r));
        assert(r.bad_debts@.len() == runs);
    }
    r
}

/// The same batch size under both mechanisms, both reading the same
/// volatile paths: (traditional, keeper pool).
pub fn compare_mechanisms(
    model: PriceModel,
    runs: usize,
    rng: &mut StdRng,
    volatile_paths: &Vec<Vec<i64>>,
) -> (r: (MonteCarloResult, MonteCarloResult))
    requires
        scenario_of(model) == PriceScenario::VolatileCrash ==> volatile_paths.len() >= runs && forall|i: int|
            #![auto] 0 <= i < runs ==> volatile_paths@[i].len() >= MAX_BLOCKS,
    ensures
        monte_carlo_outcome(model, LiquidationMechanism::Traditional, runs as int, r.0),
        monte_carlo_outcome(model, LiquidationMechanism::KeeperPool, runs as int, r.1),
{
    let traditional = run_monte_carlo(model, LiquidationMechanism::Traditional, runs, rng, volatile_paths);
    let pool = run_monte_carlo(model, LiquidationMechanism::KeeperPool, runs, rng, volatile_paths);
    (traditional, pool)
}
} // verus!
