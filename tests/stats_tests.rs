use fair_simulation::cascade::{CascadeResult, PriceScenario, MAX_BLOCKS};
use fair_simulation::mechanism::LiquidationMechanism;
use fair_simulation::monte_carlo::{compare_mechanisms, run_monte_carlo, summarize_batch, PriceModel};
use fair_simulation::stats::{expected_shortfall, mean, percentile, sorted_copy};
use rand::rngs::StdRng;
use rand::SeedableRng;
use rand_distr::{Distribution, Normal};

fn volatile_paths(runs: usize, rng: &mut StdRng) -> Vec<Vec<i64>> {
    let normal = Normal::new(-0.02, 0.05).unwrap();
    (0..runs)
        .map(|_| {
            (0..MAX_BLOCKS)
                .map(|_| {
                    let x: f64 = normal.sample(rng);
                    ((x.exp() - 1.0) * 1_000_000.0).round() as i64
                })
                .collect()
        })
        .collect()
}

#[test]
fn test_var_calculation() {
    let data: Vec<u64> = (0..100).map(|i| i * 100).collect();
    let sorted = sorted_copy(&data);
    let var_95 = percentile(&sorted, 950);
    assert!(var_95 >= 9000 && var_95 <= 9600);
}

#[test]
fn test_monte_carlo_runs() {
    let mut rng = StdRng::seed_from_u64(17);
    let paths = volatile_paths(100, &mut rng);
    let result = run_monte_carlo(PriceModel::GBM, LiquidationMechanism::KeeperPool, 100, &mut rng, &paths);
    assert_eq!(result.runs, 100);
    assert_eq!(result.bad_debts.len(), 100);
}

#[test]
fn risk_figures_exact() {
    let data: Vec<u64> = (0..100).map(|i| i * 100).collect();
    assert_eq!(percentile(&data, 950), 9400);
    assert_eq!(percentile(&data, 990), 9800);
    assert_eq!(percentile(&data, 999), 9900);
    assert_eq!(expected_shortfall(&data, 950), 9700);
    assert_eq!(expected_shortfall(&data, 990), 9900);
    assert_eq!(expected_shortfall(&data, 1000), 9900);
    assert_eq!(percentile(&Vec::new(), 950), 0);
    assert_eq!(expected_shortfall(&Vec::new(), 950), 0);
    assert_eq!(mean(&Vec::new()), 0);
}

#[test]
fn risk_figures_are_ordered() {
    let data = sorted_copy(&vec![5, 900, 12, 40, 40, 7, 3_000, 0, 65, 1]);
    assert_eq!(data, vec![0, 1, 5, 7, 12, 40, 40, 65, 900, 3_000]);
    let mut last = 0;
    for p in [0, 100, 500, 900, 950, 990, 999, 1000] {
        let v = percentile(&data, p);
        assert!(v >= last);
        last = v;
        assert!(expected_shortfall(&data, p) >= v);
    }
}

#[test]
fn single_run_batch_reproduces_the_run() {
    let mut rng = StdRng::seed_from_u64(23);
    let paths = volatile_paths(1, &mut rng);
    let r = run_monte_carlo(PriceModel::GARCH, LiquidationMechanism::Traditional, 1, &mut rng, &paths);
    let v = r.bad_debts[0];
    assert_eq!(r.mean_bad_debt, v);
    assert_eq!(r.max_bad_debt, v);
    assert_eq!(r.var_95, v);
    assert_eq!(r.var_99, v);
    assert_eq!(r.var_999, v);
    assert_eq!(r.cvar_95, v);
    assert_eq!(r.cvar_99, v);
}

#[test]
fn batch_probabilities() {
    let mk = |bad_debt: u64| CascadeResult {
        mechanism: LiquidationMechanism::Traditional,
        scenario: PriceScenario::BlackSwan,
        cascade_depth: 0,
        total_liquidations: 0,
        bad_debt,
        blocks_to_stability: 15,
        final_price: 900_000_000,
        price_drop_ppm: 550_000,
        profit_concentration_ppm: 0,
        participation_ppm: 0,
        unliquidated_underwater: 0,
        max_liquidations_per_block: 0,
    };
    let results = vec![mk(0), mk(200_000_000_000), mk(50_000_000_000), mk(0)];
    let r = summarize_batch(PriceModel::HistoricalMar2020, LiquidationMechanism::Traditional, &results);
    assert_eq!(r.bad_debt_probability_ppm, 500_000);
    assert_eq!(r.insolvency_probability_ppm, 250_000);
    assert_eq!(r.mean_bad_debt, 62_500_000_000);
    assert_eq!(r.max_bad_debt, 200_000_000_000);
    assert_eq!(r.var_95, 200_000_000_000);
    assert_eq!(r.cvar_95, 200_000_000_000);
    assert_eq!(r.price_drops, vec![550_000; 4]);
}

#[test]
fn models_map_to_scenarios() {
    assert_eq!(PriceModel::GBM.scenario_for(), PriceScenario::VolatileCrash);
    assert_eq!(PriceModel::GARCH.scenario_for(), PriceScenario::VolatileCrash);
    assert_eq!(PriceModel::JumpDiffusion.scenario_for(), PriceScenario::FlashCrash);
    assert_eq!(PriceModel::HistoricalNov2022.scenario_for(), PriceScenario::BlackSwan);
    assert_eq!(PriceModel::all().len(), 6);
}

#[test]
fn compare_mechanisms_runs_both() {
    let mut rng = StdRng::seed_from_u64(31);
    let (t, f) = compare_mechanisms(PriceModel::JumpDiffusion, 5, &mut rng, &Vec::new());
    assert_eq!(t.mechanism, LiquidationMechanism::Traditional);
    assert_eq!(f.mechanism, LiquidationMechanism::KeeperPool);
    assert_eq!(t.runs, 5);
    assert_eq!(f.bad_debts.len(), 5);
}

#[test]
fn zero_runs_give_empty_statistics() {
    let mut rng = StdRng::seed_from_u64(3);
    let r = run_monte_carlo(PriceModel::HistoricalMay2021, LiquidationMechanism::KeeperPool, 0, &mut rng, &Vec::new());
    assert_eq!(r.runs, 0);
    assert!(r.bad_debts.is_empty() && r.price_drops.is_empty());
    assert!(r.liquidation_counts.is_empty() && r.participation_rates.is_empty());
    assert_eq!(r.var_95 + r.var_99 + r.var_999 + r.cvar_95 + r.cvar_99, 0);
    assert_eq!(r.mean_bad_debt + r.max_bad_debt, 0);
    assert_eq!(r.bad_debt_probability_ppm + r.insolvency_probability_ppm, 0);
}
